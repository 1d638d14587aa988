//! A small Gemini client library: the Gemini response header and gemtext
//! formats, the key and event model of the terminal interface, and the
//! trust-on-first-use store of server certificates.

pub mod text;
pub mod gemini;
pub mod ui;
pub mod app;
pub mod decimal;
pub mod validation;
