use crate::gelf::{encode, spec_encode, EncodeError};
use crate::queue::BoundedQueue;
use crate::rfc5424::{decode, spec_decode, DecodeError};
use vstd::prelude::*;
use vstd::string::StringSliceAdditionalSpecFns;
use vstd::string::StrSliceExecFns;

verus! {

/// The input format used when the configuration names none.
pub const DEFAULT_INPUT_FORMAT: &'static str = "rfc5424";

/// The input transport used when the configuration names none.
pub const DEFAULT_INPUT_TYPE: &'static str = "syslog-tls";

/// The queue capacity used when the configuration gives none.
pub const DEFAULT_QUEUE_SIZE: usize = 10_000_000;

/// The listener that feeds the pipeline.
#[derive(PartialEq, Eq, Structural, Clone, Copy, Debug)]
pub enum InputType {
    SyslogTcp,
    SyslogTls,
}

/// A configuration value that stops the process before it serves traffic.
#[derive(PartialEq, Eq, Structural, Clone, Copy, Debug)]
pub enum StartupError {
    InvalidInputFormat,
    InvalidQueueSize,
    InvalidInputType,
}

/// What the orchestrator builds: the listener and the queue's capacity.
#[derive(PartialEq, Eq, Structural, Clone, Copy, Debug)]
pub struct Plan {
    pub input_type: InputType,
    pub queue_size: usize,
}

pub open spec fn opt_str(s: Option<&str>) -> Option<Seq<char>> {
    match s {
        Some(x) => Some(x@),
        None => None,
    }
}

/// The listener named by a configured input type, absent meaning the default.
pub open spec fn spec_input_type(t: Option<Seq<char>>) -> Option<InputType> {
    let t = match t {
        Some(x) => x,
        None => DEFAULT_INPUT_TYPE@,
    };
    if t == "syslog-tcp"@ {
        Some(InputType::SyslogTcp)
    } else if t == "syslog-tls"@ {
        Some(InputType::SyslogTls)
    } else {
        None
    }
}

/// The startup decision on the configured input format, queue size and input
/// type: the first invalid value, in that order, or the plan.
pub open spec fn spec_start(
    format: Option<Seq<char>>,
    queue_size: Option<int>,
    input_type: Option<Seq<char>>,
) -> Result<Plan, StartupError> {
    if format is Some && format->Some_0 != DEFAULT_INPUT_FORMAT@ {
        Err(StartupError::InvalidInputFormat)
    } else if queue_size is Some && !(0 < queue_size->Some_0 <= usize::MAX) {
        Err(StartupError::InvalidQueueSize)
    } else if spec_input_type(input_type) is None {
        Err(StartupError::InvalidInputType)
    } else {
        Ok(
            Plan {
                input_type: spec_input_type(input_type)->Some_0,
                queue_size: match queue_size {
                    Some(q) => q as usize,
                    None => DEFAULT_QUEUE_SIZE,
                },
            },
        )
    }
}

fn str_eq(a: &str, b: &str) -> (r: bool)
    ensures
        r == (a@ == b@),
{
    let n = a.unicode_len();
    if n != b.unicode_len() {
        return false;
    }
    let mut i: usize = 0;
    while i < n
        invariant
            n == a@.len() == b@.len(),
            i <= n,
            forall|k: int| 0 <= k < i ==> a@[k] == b@[k],
        decreases n - i,
    {
        if a.get_char(i) != b.get_char(i) {
            return false;
        }
        i = i + 1;
    }
    assert(a@ =~= b@);
    true
}

fn input_type_of(t: Option<&str>) -> (r: Option<InputType>)
    ensures
        r == spec_input_type(opt_str(t)),
{
    let t = match t {
        Some(x) => x,
        None => DEFAULT_INPUT_TYPE,
    };
    if str_eq(t, "syslog-tcp") {
        Some(InputType::SyslogTcp)
    } else if str_eq(t, "syslog-tls") {
        Some(InputType::SyslogTls)
    } else {
        None
    }
}

/// Checks the configured values and decides what the pipeline is made of.
/// An error is fatal: the caller opens no socket, builds no queue and starts
/// no worker.
pub fn start(format: Option<&str>, queue_size: Option<i64>, input_type: Option<&str>) -> (r: Result<
    Plan,
    StartupError,
>)
    ensures
        r == spec_start(
            opt_str(format),
            match queue_size {
                Some(q) => Some(q as int),
                None => None,
            },
            opt_str(input_type),
        ),
{
    if let Some(f) = format {
        if !str_eq(f, DEFAULT_INPUT_FORMAT) {
            return Err(StartupError::InvalidInputFormat);
        }
    }
    let size = match queue_size {
        Some(q) => {
            if q <= 0 || q as u64 > usize::MAX as u64 {
                return Err(StartupError::InvalidQueueSize);
            }
            q as usize
        },
        None => DEFAULT_QUEUE_SIZE,
    };
    match input_type_of(input_type) {
        Some(t) => Ok(Plan { input_type: t, queue_size: size }),
        None => Err(StartupError::InvalidInputType),
    }
}

/// What became of one input line.
pub enum LineOutcome {
    /// The encoded message went onto the queue.
    Queued,
    /// The line did not decode and is dropped.
    DecodeFailed(DecodeError),
    /// The record did not encode and is dropped.
    EncodeFailed(EncodeError),
    /// The queue is full: the encoded message comes back, to be pushed once a
    /// consumer has made room.
    QueueFull(Vec<u8>),
}

/// Why a line yields no message.
#[derive(PartialEq, Eq, Structural, Clone, Copy, Debug)]
pub enum LineError {
    Decode(DecodeError),
    Encode(EncodeError),
}

/// What a line becomes: decoded, then encoded.
pub open spec fn spec_transform(line: Seq<u8>) -> Result<Seq<u8>, LineError> {
    match spec_decode(line) {
        Err(e) => Err(LineError::Decode(e)),
        Ok(m) => match spec_encode(m) {
            Err(e) => Err(LineError::Encode(e)),
            Ok(b) => Ok(b),
        },
    }
}

/// Decodes one framed line and encodes the record: the message to queue.
pub fn transform_line(line: &str) -> (r: Result<Vec<u8>, LineError>)
    ensures
        match spec_transform(line.spec_bytes()) {
            Ok(b) => r matches Ok(v) && v@ == b,
            Err(e) => r == Err::<Vec<u8>, LineError>(e),
        },
{
    let record = match decode(line) {
        Ok(x) => x,
        Err(e) => {
            return Err(LineError::Decode(e));
        },
    };
    match encode(&record) {
        Ok(b) => Ok(b),
        Err(e) => Err(LineError::Encode(e)),
    }
}

/// Runs one framed line through decoding and encoding and offers the result
/// to the queue. A line that fails leaves the queue as it was.
pub fn handle_line(queue: &mut BoundedQueue, line: &str) -> (r: LineOutcome)
    requires
        old(queue).wf(),
    ensures
        final(queue).wf(),
        final(queue).spec_capacity() == old(queue).spec_capacity(),
        match spec_decode(line.spec_bytes()) {
            Err(e) => r == LineOutcome::DecodeFailed(e) && final(queue)@ == old(queue)@,
            Ok(m) => match spec_encode(m) {
                Err(e) => r == LineOutcome::EncodeFailed(e) && final(queue)@ == old(queue)@,
                Ok(b) => if old(queue)@.len() < old(queue).spec_capacity() {
                    &&& r is Queued
                    &&& final(queue)@.len() == old(queue)@.len() + 1
                    &&& final(queue)@.drop_last() == old(queue)@
                    &&& final(queue)@.last()@ == b
                } else {
                    &&& r matches LineOutcome::QueueFull(v)
                    &&& v@ == b
                    &&& final(queue)@ == old(queue)@
                },
            },
        },
{
    let bytes = match transform_line(line) {
        Ok(b) => b,
        Err(LineError::Decode(e)) => {
            return LineOutcome::DecodeFailed(e);
        },
        Err(LineError::Encode(e)) => {
            return LineOutcome::EncodeFailed(e);
        },
    };
    match queue.try_push(bytes) {
        Ok(()) => {
            assert(queue@.drop_last() =~= old(queue)@);
            LineOutcome::Queued
        },
        Err(v) => LineOutcome::QueueFull(v),
    }
}

} // verus!
