use vstd::prelude::*;

use crate::record::SpanRecord;

verus! {

/// A downstream append failed: timeout, throttling, rejected payload or lost
/// connectivity. The relay core does not classify the cause further; it only
/// carries a human-readable description back to the caller.
pub struct TransportError {
    pub cause: String,
}

/// One append request against the partitioned event stream, ready for the
/// sink: the fixed target stream, the partition key, and the record bytes.
pub struct StreamRequest {
    pub stream_name: String,
    pub partition_key: String,
    pub data: Vec<u8>,
}

/// Builds the downstream append request for one record.
///
/// The partition key is the record's `id`, verbatim: records sharing an `id`
/// land on the same partition, and no other transformation is applied.
pub fn make_stream_request(record: SpanRecord, stream_name: String) -> (r: StreamRequest)
    ensures
        r.partition_key@ == record.id@,
        r.data@ == record.body@,
        r.stream_name@ == stream_name@,
{
    StreamRequest { stream_name, partition_key: record.id, data: record.body }
}

} // verus!
