//! A zero-copy parser for the first line of an HTTP/1.1 request.
//!
//! The parser turns a raw byte buffer holding `"METHOD PATH[?QUERY] HTTP/1.1\r\n"`
//! (possibly followed by further bytes, which are ignored) into a [`http::request::Request`]
//! that borrows its `path` and `query` from the caller's buffer, or into a
//! classified [`http::request::ParseError`] on failure.

pub mod http;
mod text;
