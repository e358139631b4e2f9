//! D-Bus multiplexer core: routing, name ownership queues, match rules,
//! reply correlation and the server side of SASL authentication.

pub mod auth;
pub mod client;
pub mod clock;
pub mod error;
pub mod match_rule_laws;
pub mod match_rules;
pub mod message;
pub mod multiplexer;
pub mod name_queue;
pub mod names;
pub mod portal_request;
pub mod router;
pub mod routing;
pub mod serial_map;
pub mod text;
