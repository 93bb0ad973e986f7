//! A small HTTP request router: request parsing, route matching with
//! `:name` path parameters, and response rendering.
pub mod text;
pub mod table;
pub mod request;
pub mod response;
pub mod router;
pub mod urlencoding;
