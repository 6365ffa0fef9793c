use vstd::prelude::*;

verus! {

/// A tracing span payload submitted for relay.
///
/// The surrounding process decodes an inbound request into this shape before
/// calling the relay core: `id` is the record's stable identifier, used
/// verbatim as the partition key of the downstream stream, and `body` is the
/// serialized span, carried through untouched.
pub struct SpanRecord {
    pub id: String,
    pub body: Vec<u8>,
}

} // verus!
