//! A small HTTP/1.x server engine: the request-line and header parser, the
//! header and query multimaps, the response writer's state machine, and the
//! decisions of the server loop. Socket I/O stays with the caller, which
//! hands lines in and takes bytes out.
pub mod handler;
pub mod headers;
pub mod parser;
pub mod query;
pub mod request;
pub mod request_line;
pub mod response;
pub mod server;
pub mod text;

pub use request::Request;
pub use response::Response;
