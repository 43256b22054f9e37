//! A small HTTP-client library: a persistent store of saved requests and
//! global variables, `{{key}}` variable substitution for URLs and headers,
//! request preparation, response-driven variable extraction, and bulk import
//! of requests from an OpenAPI document.

pub mod text;
pub mod json;
pub mod structs;
pub mod resolve;
pub mod store;
pub mod openapi_structs;
pub mod import;
pub mod utils;
pub mod response;
pub mod dispatch;
pub mod cli;
