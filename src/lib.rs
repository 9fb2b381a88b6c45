//! Compiles a line-oriented description of an HTTP request into a request with every template
//! resolved: a three-state parser over the description's lines, a variable context that renders
//! templates strictly, and the checked cores of the template functions.
use vstd::prelude::*;

pub mod context;
pub mod error;
pub mod generate;
pub mod param;
pub mod parser;
pub mod request;
pub mod text;
pub mod timestamp;

pub use context::Context;
pub use error::RequestError;
pub use param::{parse_param, KeyValue};
pub use parser::{parse_http_file, HttpRequest, ParserState};
pub use request::{Method, Version};

verus! {

} // verus!
