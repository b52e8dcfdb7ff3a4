//! Read-only Hacker News tools: the data model, the URLs and query
//! parameters sent to the Firebase and Algolia APIs, the compact output
//! shapes, and the capped breadth-first comment walk, each with its contract.

pub mod text;
pub mod types;
pub mod comments;
pub mod client;
pub mod tools;
