//! A structured-output text classifier client for an OpenAI-compatible
//! chat-completions endpoint.
//!
//! Given free text and a closed set of candidate labels, the library builds a
//! chat-completion request whose output is constrained by a JSON schema to an
//! object with exactly two fields, `label` (one of the candidates) and
//! `reason`, and parses the server's response back into that shape.
//!
//! All text is handled as UTF-8 bytes (`Vec<u8>`), so that every contract can
//! speak of the exact byte sequences sent to and received from the server.
//! The transport itself (the HTTP POST) is left to the caller; the library is
//! pure construction and parsing.

pub mod errors;
pub mod jsontext;
pub mod request;
pub mod response;
pub mod schema;
