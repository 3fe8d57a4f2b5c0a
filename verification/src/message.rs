use vstd::prelude::*;

use crate::arg::bytes::{
    le_bytes, le_value, lemma_le_bytes_len, lemma_le_roundtrip, lemma_pow256_values, read_le_at,
    write_le,
};

verus! {

/// The fixed header in front of every queued log record: when it was logged, the
/// addresses of its call site's `Metadata` and of its `Logger`, and the length of
/// its encoded arguments.
#[derive(Debug, PartialEq, Eq, Structural)]
pub struct LogMessage {
    pub timestamp_ns: u64,
    pub metadata_ptr: u64,
    pub logger_ptr: u64,
    pub args_len: u16,
}

/// The bytes a header takes in a queued record; the arguments follow them.
pub const ARCHIVED_HEADER_SIZE: usize = 32;

/// The bytes `serialize_header_into` writes: each field little-endian, in order.
pub open spec fn header_bytes(m: LogMessage) -> Seq<u8> {
    le_bytes(m.timestamp_ns as nat, 8) + le_bytes(m.metadata_ptr as nat, 8) + le_bytes(
        m.logger_ptr as nat,
        8,
    ) + le_bytes(m.args_len as nat, 2)
}

/// The header that `decode` reads from `raw`: none when `raw` is shorter than
/// `ARCHIVED_HEADER_SIZE`, else the fields little-endian at offsets 0, 8, 16 and 24.
pub open spec fn spec_decode(raw: Seq<u8>) -> Option<LogMessage> {
    if raw.len() < ARCHIVED_HEADER_SIZE {
        None
    } else {
        Some(
            LogMessage {
                timestamp_ns: le_value(raw.subrange(0, 8)) as u64,
                metadata_ptr: le_value(raw.subrange(8, 16)) as u64,
                logger_ptr: le_value(raw.subrange(16, 24)) as u64,
                args_len: le_value(raw.subrange(24, 26)) as u16,
            },
        )
    }
}

impl LogMessage {
    pub fn new(timestamp_ns: u64, metadata_ptr: u64, logger_ptr: u64, args_len: u16) -> (r: Self)
        ensures
            r == (LogMessage { timestamp_ns, metadata_ptr, logger_ptr, args_len }),
    {
        LogMessage { timestamp_ns, metadata_ptr, logger_ptr, args_len }
    }

    /// Writes the header's fields at the start of `buf`, leaving the rest alone.
    pub fn serialize_header_into(&self, buf: &mut [u8])
        requires
            old(buf)@.len() >= 26,
        ensures
            final(buf)@ == header_bytes(*self) + old(buf)@.subrange(26, old(buf)@.len() as int),
    {
        proof {
            lemma_le_bytes_len(self.timestamp_ns as nat, 8);
            lemma_le_bytes_len(self.metadata_ptr as nat, 8);
            lemma_le_bytes_len(self.logger_ptr as nat, 8);
            lemma_le_bytes_len(self.args_len as nat, 2);
        }
        write_le(buf, 0, self.timestamp_ns as u128, 8);
        write_le(buf, 8, self.metadata_ptr as u128, 8);
        write_le(buf, 16, self.logger_ptr as u128, 8);
        write_le(buf, 24, self.args_len as u128, 2);
        assert(buf@ =~= header_bytes(*self) + old(buf)@.subrange(26, old(buf)@.len() as int));
    }

    /// Reads a header from the start of a queued record.
    pub fn decode(raw: &[u8]) -> (r: Option<LogMessage>)
        ensures
            r == spec_decode(raw@),
    {
        if raw.len() < ARCHIVED_HEADER_SIZE {
            return None;
        }
        let timestamp_ns = read_le_at(raw, 0, 8);
        let metadata_ptr = read_le_at(raw, 8, 8);
        let logger_ptr = read_le_at(raw, 16, 8);
        let args_len = read_le_at(raw, 24, 2);
        proof {
            crate::arg::bytes::lemma_le_bound(raw@.subrange(24, 26));
            crate::arg::bytes::lemma_pow256_values();
        }
        Some(LogMessage { timestamp_ns, metadata_ptr, logger_ptr, args_len: args_len as u16 })
    }
}

/// Decoding a record whose header `serialize_header_into` wrote gives that header
/// back, whatever follows the written fields, once the record is
/// `ARCHIVED_HEADER_SIZE` bytes long.
pub proof fn lemma_header_roundtrip(m: LogMessage, rest: Seq<u8>)
    requires
        26 + rest.len() >= ARCHIVED_HEADER_SIZE,
    ensures
        spec_decode(header_bytes(m) + rest) == Some(m),
{
    let raw = header_bytes(m) + rest;
    lemma_le_bytes_len(m.timestamp_ns as nat, 8);
    lemma_le_bytes_len(m.metadata_ptr as nat, 8);
    lemma_le_bytes_len(m.logger_ptr as nat, 8);
    lemma_le_bytes_len(m.args_len as nat, 2);
    lemma_le_roundtrip(m.timestamp_ns as nat, 8);
    lemma_le_roundtrip(m.metadata_ptr as nat, 8);
    lemma_le_roundtrip(m.logger_ptr as nat, 8);
    lemma_le_roundtrip(m.args_len as nat, 2);
    lemma_pow256_values();
    assert(raw.subrange(0, 8) =~= le_bytes(m.timestamp_ns as nat, 8));
    assert(raw.subrange(8, 16) =~= le_bytes(m.metadata_ptr as nat, 8));
    assert(raw.subrange(16, 24) =~= le_bytes(m.logger_ptr as nat, 8));
    assert(raw.subrange(24, 26) =~= le_bytes(m.args_len as nat, 2));
}

} // verus!
