//! A relay core for tracing span records: each submitted record is handed to
//! one of a fixed number of workers, which appends it to a partitioned event
//! stream; the caller is answered once, after the attempt completes.

pub mod outcome;
pub mod pool;
pub mod record;
pub mod sink;
