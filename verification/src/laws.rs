//! What the functions of the library do, said of their calls alone: where a call came
//! back with a result, how the result and the state after it stand to what went in.
//! The statements speak of places in lists and of the calls that were made, so that
//! each can be read by itself.
pub mod ordered_map;
pub mod per_endpoint;
pub mod request_match;
pub mod route;
pub mod router;
pub mod shared_discover;
pub mod subscriber;
