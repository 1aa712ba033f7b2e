//! Routing of opaque engine responses to the sessions of one server.
//!
//! The library holds the decisions of the routing layer: the registry of
//! response-delivery callbacks keyed by session identifier, and the step
//! machine that walks one batch of engine responses and hands each one to the
//! callback registered for its target at the moment of delivery.
pub mod registry;
pub mod routing;
