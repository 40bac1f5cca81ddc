//! The core of the Quill engine: routing, validation, shared state, JSON, and the decisions of the
//! HTTP server.

pub mod dispatch;
pub mod float;
pub mod json;
pub mod manifest;
pub mod metrics;
pub mod pairs;
pub mod pattern;
pub mod pending;
pub mod response;
pub mod router;
pub mod server;
pub mod state;
pub mod tables;
pub mod text;
pub mod validator;
