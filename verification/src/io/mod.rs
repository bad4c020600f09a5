//! The decisions of the inputs and outputs: event spool, HTTP input, dials polling, live
//! output.

pub mod dials_poller;
pub mod http_server;
pub mod jsonl_spool;
pub mod live_out;
