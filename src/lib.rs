use vstd::prelude::*;

pub mod queue;
pub mod record;
pub mod rfc5424;
pub mod framing;
pub mod gelf;
pub mod pipeline;
pub mod transform;

use record::Record;
use gelf::EncodeError;
use rfc5424::DecodeError;

verus! {

/// Turns one framed input line into a record.
pub trait Decoder {
    fn decode(&self, line: &str) -> Result<Record, DecodeError>;
}

/// Turns one record into the bytes of an outgoing message.
pub trait Encoder {
    fn encode(&self, record: Record) -> Result<Vec<u8>, EncodeError>;
}

} // verus!
