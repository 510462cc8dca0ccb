//! A parser for the opening line of an HTTP/1.1 request.
//!
//! A raw byte buffer is decoded as UTF-8 text, tokenized into a method, a
//! path (with an optional query string after `?`), and a protocol token, and
//! turned into a [`request::Request`] value or a classified
//! [`request::ParseError`]. The query portion becomes a
//! [`query_string::QueryString`], a multi-map that keeps every value of a
//! repeated key in encounter order.
//!
//! Parsed fields are stored as owned strings copied out of the input buffer,
//! so a parsed value does not borrow from the caller's buffer.

pub mod method;
pub mod query_string;
pub mod request;
pub mod text;

pub use method::Method;
pub use method::MethodError;
pub use query_string::QueryString;
pub use query_string::QueryStringValue;
pub use request::ParseError;
pub use request::Request;
