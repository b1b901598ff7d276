//! Live tail of a cloud log service: request signing, incremental decoding of
//! the binary event stream, and the record queue that feeds a consumer.

pub mod text;
pub mod event_stream;
pub mod live_tail_parser;
pub mod live_tail_client;
pub mod time_arg;
pub mod utils;
