use crate::rfc5424::{copy_range, find_byte, find_from};
use vstd::prelude::*;

verus! {

pub const LF: u8 = 10;
pub const CR: u8 = 13;

/// A line without the carriage return that may end it.
pub open spec fn strip_cr(l: Seq<u8>) -> Seq<u8> {
    if l.len() > 0 && l.last() == CR {
        l.drop_last()
    } else {
        l
    }
}

/// The first complete line of a stream buffer and what follows its newline,
/// or `None` while no newline has arrived.
pub open spec fn spec_take_line(b: Seq<u8>) -> Option<(Seq<u8>, Seq<u8>)> {
    let i = find_from(b, 0, LF);
    if i >= b.len() {
        None
    } else {
        Some((strip_cr(b.subrange(0, i)), b.subrange(i + 1, b.len() as int)))
    }
}

/// Cuts the first complete line off the front of `buf`. While no newline has
/// arrived, `buf` stays as it is, to be completed by the next read.
pub fn take_line(buf: &mut Vec<u8>) -> (r: Option<Vec<u8>>)
    ensures
        match spec_take_line(old(buf)@) {
            Some((l, rest)) => r matches Some(v) && v@ == l && final(buf)@ == rest,
            None => r is None && final(buf)@ == old(buf)@,
        },
{
    let i = find_byte(buf.as_slice(), 0, LF);
    if i >= buf.len() {
        return None;
    }
    let end = if i > 0 && buf[i - 1] == CR {
        i - 1
    } else {
        i
    };
    let line = copy_range(buf.as_slice(), 0, end);
    let rest = copy_range(buf.as_slice(), i + 1, buf.len());
    proof {
        let l = old(buf)@.subrange(0, i as int);
        if i > 0 && old(buf)@[i - 1] == CR {
            assert(l.drop_last() =~= old(buf)@.subrange(0, end as int));
        } else {
            assert(l =~= old(buf)@.subrange(0, end as int));
        }
    }
    *buf = rest;
    Some(line)
}

} // verus!
