//! A small chat client library: it builds the JSON request envelope for a
//! single-turn generative-language API call, parses the JSON response
//! envelope, extracts the first candidate's text, and prepares it for
//! terminal display.

pub mod client;
pub mod json;
pub mod request;
pub mod response;
pub mod render;
