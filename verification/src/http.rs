//! HTTP request-line parsing: the supported verbs and the line parser itself.

pub mod method;
pub mod request;
