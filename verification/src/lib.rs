//! Per-destination profiles: routes for requests, and one discovery that all routes
//! of a destination share.
//!
//! - [`request_match`]: conditions on requests;
//! - [`route`]: routes, and what gives them;
//! - [`router`]: sends each request to the first route that it matches;
//! - [`per_endpoint`]: wraps each discovered service for its endpoint and a route;
//! - [`shared_discover`]: tells any number of subscribers of what one discovery
//!   finds; [`subscriber`]: one of them, and all that it was told; [`replay`]: what it
//!   knows from that;
//! - [`svc`] and [`discover`]: the vocabulary of services and of discovery;
//! - [`ordered_map`] and [`channel`]: the collections that the others stand on;
//! - [`laws`]: what the functions do, said of their calls alone.
//!
//! Nothing here polls: what polling gave comes in as an event, and what to poll next
//! goes out as a step.
pub mod channel;
pub mod discover;
pub mod laws;
pub mod ordered_map;
pub mod per_endpoint;
pub mod replay;
pub mod request_match;
pub mod route;
pub mod router;
pub mod shared_discover;
pub mod subscriber;
pub mod svc;

pub use request_match::RequestMatch;
pub use route::{CanGetDestination, Error, GetRoutes, Route, Routes};
