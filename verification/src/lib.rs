//! Core of a JSON-RPC-over-WebSocket trading client: the message-correlation
//! dispatcher, the authenticated-session lifecycle, and the scope codec.
//!
//! Everything that decides or computes lives here, verified. The I/O shell
//! (the socket itself, the background read task) lives outside the library
//! and drives these functions with plain values.

pub mod error;
pub mod strutil;
pub mod model;
pub mod json;
pub mod params;
pub mod scope;
pub mod auth;
pub mod dispatcher;
pub mod session;
pub mod wire;

pub use error::{ApiError, Error};
pub use model::Json;
pub use scope::{Access, Scope, IP};
pub use auth::{Auth, AuthResponse};
pub use params::{ParamValue, Params};
pub use dispatcher::Dispatcher;
pub use session::Session;
pub use wire::{Message, Notification, Request, Response};
