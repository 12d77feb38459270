//! Search aggregation core for a music front end: mirror selection by
//! latency race, result decoding and enrichment, a search cache with
//! last-request-wins cancellation, and click-weighted ranking.

pub mod text;
pub mod types;
pub mod store;
pub mod ranking;
pub mod search;
pub mod coordinator;
pub mod piped;
pub mod media;
pub mod spotify;
pub mod images;
pub mod headers;
