pub mod b64;
pub mod gssapi;
pub mod gssapi_worker;
pub mod handler;
pub mod http_parser;
pub mod session;
pub mod text;
