//! A small verified core for a command-line HTTP client: parsing of
//! `key=value` tokens, URL validation, JSON body construction, and
//! content-type-aware response rendering.

pub mod body;
pub mod command;
pub mod errors;
pub mod kv;
pub mod render;
pub mod strutil;
pub mod urlcheck;

pub use body::build_json_body;
pub use command::Command;
pub use errors::ParseError;
pub use errors::RenderError;
pub use kv::parse_kv_pair;
pub use kv::KVPair;
pub use render::render_response;
pub use render::RawResponse;
pub use urlcheck::parse_url;
