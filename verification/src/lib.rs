//! A small HTTP server core: request parsing, a route table with static and
//! parameterised routes, path matching and the per-connection state machine,
//! together with the sitemap of its routes and the two ends of template
//! rendering: what the engine is handed, and what becomes of its answer.
//!
//! The library does no input or output. Whoever drives it reads the bytes of
//! a request, lets the server decide, and writes what the server hands back.

pub mod connection;
pub mod date;
pub mod matcher;
pub mod request;
pub mod response;
pub mod search;
pub mod server;
pub mod sitemap;
pub mod strmap;
pub mod template;
pub mod text;

pub use connection::{Action, ConnectionState, Event};
pub use request::{Request, RequestError};
pub use server::{Resolution, Server};
pub use sitemap::{SitemapError, SitemapUpdate};
pub use strmap::StringMap;
pub use template::TemplateEngine;
