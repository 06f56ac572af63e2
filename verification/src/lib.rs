//! A verified link checker library.
//!
//! The library turns a blob of input text into an ordered, deduplicated list
//! of URLs, classifies HTTP responses into report outcomes, extracts a page
//! title from an HTML body, renders the final report text, and models the
//! bounded-concurrency fetch orchestration as a verified state machine.
//! All network and file I/O lives outside the library; callers hand in plain
//! values (status codes, body text) and get plain values back.

pub mod custom_errors;
pub mod orchestrate;
pub mod output;
pub mod parser;
pub mod request;
pub mod scraper;
