//! Downpour: a download manager's decision logic, with every rule proved.
//!
//! Nothing here opens a socket or a file. The library is told what was observed, and says what it
//! means and what to do next.
#![allow(unused_imports)]

pub mod accounts;
pub mod address;
pub mod allocator;
pub mod client;
pub mod codec;
pub mod digest;
pub mod download;
pub mod error;
pub mod filename;
pub mod h1h2;
pub mod intervals;
pub mod json;
pub mod messages;
pub mod probe;
pub mod protocol;
pub mod records;
pub mod registry;
pub mod remote;
pub mod retention;
pub mod retry;
pub mod scheduler;
pub mod schema;
pub mod segmented;
pub mod server;
pub mod session;
pub mod sink;
pub mod startup;
pub mod storage_sink;
pub mod text;
pub mod time;
pub mod token;
pub mod transport;
pub mod worker_pool;
pub mod writer_service;
