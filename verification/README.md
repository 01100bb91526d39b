# profiles

Routes for requests, decided per destination, over one discovery that all routes of a
destination share. The logic is written and proved in Verus.

- `src/` is the library. It polls nothing: what polling gave comes in as an event, and
  what to poll next goes out as a step.
- `app/` does the polling, and offers the library as `futures`, `tower_service` and
  `tower_discover` values.
- `tests/` runs the library with the crates that it stands on.

What is proved, in short:

- a condition holds of a request exactly where its parts say so;
- each request is handed to the service of the first route that it matches, else to
  that of the default route, and an update replaces all routes by those for which a
  service can be made;
- every subscriber of a shared discovery, whenever it came, has been told first of all
  services that were known, then of each change, and of nothing else; where keys are fit
  for a hash table and equal their clones, following what its channel accepted gives
  exactly the keys that are known, in the same order, each with a clone of its service;
- a discovered service is wrapped for its own endpoint, told the route.

What is taken on trust is stated where the outside crates are called: `channel`
(futures), `ordered_map` (indexmap) and `request_match` (http, regex).
