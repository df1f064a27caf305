//! A generator and runtime core for a windowing-system wire protocol client.
//!
//! The generator reads the declarations of a protocol schema (structured
//! types, aliases, resource-id types, requests, events and errors) and
//! renders them as source text; the same declarations give the wire layouts
//! that the codec encodes and decodes values against. At run time the
//! correlation engine numbers the requests of a connection and files every
//! reply, error and event that comes back, so that each caller retrieves the
//! answer to its own request.
//!
//! - [`schema`]: wire representations, the table of declared types, errors.
//! - [`codec`]: big-endian encoding and decoding against a layout.
//! - [`engine`]: sequence numbers, pending requests and answers, events.
//! - [`reader`]: the nodes of a schema document and its tokenizer.
//! - [`struct_parser`]: the content of one struct or request declaration.
//! - [`generator`]: the walk over a whole schema document.
//! - [`text`]: appending text and numbers to a buffer, reading numbers.

pub mod text;
pub mod schema;
pub mod codec;
pub mod engine;
pub mod reader;
pub mod struct_parser;
pub mod generator;
