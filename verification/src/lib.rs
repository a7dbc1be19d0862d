//! Adapter for a `llama-server` inference engine.
//!
//! The library decides what to ask the engine, what its answers mean, and how
//! one scrape of its metrics maps onto the metrics that all engines share.
//! Sending the requests is left to its caller. Every function states what it
//! gives, and is proved to give it.
//!
//! - [`adapter`]: the requests to one engine and the course of a scrape;
//!   [`reply_laws`] says what they mean, [`request_laws`] what follows.
//! - [`metrics`] and [`positions`]: the mapping of a scrape; [`mapping_laws`]
//!   and [`position_laws`] say what its fields mean, [`laws`] what follows.
//! - [`model`]: the names that a model goes by.
//! - [`samples`] and [`exposition`]: what a scrape is made of.
//! - [`binary64`] and [`rounding`]: double-precision arithmetic on bit
//!   patterns; [`operations`] says what it means, [`precision`] what follows.
//! - [`http`] and [`text`]: the operations on requests and on text that the
//!   others share; [`query`] holds how a query is read back.

pub mod adapter;
pub mod binary64;
pub mod exposition;
pub mod http;
pub mod laws;
pub mod mapping_laws;
pub mod metrics;
pub mod model;
pub mod operations;
pub mod position_laws;
pub mod positions;
pub mod precision;
pub mod query;
pub mod reply_laws;
pub mod request_laws;
pub mod rounding;
pub mod samples;
pub mod text;
