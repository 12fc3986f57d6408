use crate::record::{Record, RecordModel, SdParam};
use vstd::prelude::*;
use vstd::string::is_ascii;

verus! {

/// The bytes of an ASCII text.
pub open spec fn ascii(s: Seq<char>) -> Seq<u8> {
    Seq::new(s.len(), |i: int| s[i] as u8)
}

fn append_ascii(out: &mut Vec<u8>, s: &str)
    requires
        is_ascii(s),
    ensures
        final(out)@ == old(out)@ + ascii(s@),
{
    broadcast use vstd::string::is_ascii_spec_bytes;

    let b = s.as_bytes();
    let ghost start = out@;
    let mut i: usize = 0;
    while i < b.len()
        invariant
            b@ == ascii(s@),
            i <= b@.len(),
            out@ == start + b@.subrange(0, i as int),
        decreases b@.len() - i,
    {
        out.push(b[i]);
        assert(b@.subrange(0, i + 1) =~= b@.subrange(0, i as int).push(b@[i as int]));
        i = i + 1;
    }
    assert(b@.subrange(0, i as int) =~= b@);
}

pub const QUOTE: u8 = 34;
pub const BACKSLASH: u8 = 92;

/// Why a record could not be encoded.
#[derive(PartialEq, Eq, Structural, Clone, Copy, Debug)]
pub enum EncodeError {
    /// A field holds content that the target format cannot carry. The GELF
    /// encoder writes every record and never gives it.
    Unserializable,
}

/// A lower-case hexadecimal digit.
pub open spec fn hex_digit(n: int) -> u8 {
    if n < 10 {
        (48 + n) as u8
    } else {
        (87 + n) as u8
    }
}

/// One byte as it stands inside a JSON string. Bytes from 0x80 up are copied
/// as they are, so the multi-byte characters of UTF-8 text pass unchanged.
pub open spec fn esc_byte(c: u8) -> Seq<u8> {
    if c == QUOTE || c == BACKSLASH {
        seq![BACKSLASH, c]
    } else if c < 32 {
        seq![BACKSLASH, 117u8, 48u8, 48u8, hex_digit(c as int / 16), hex_digit(c as int % 16)]
    } else {
        seq![c]
    }
}

/// The bytes of `s` escaped for a JSON string.
pub open spec fn escape(s: Seq<u8>) -> Seq<u8>
    decreases s.len(),
{
    if s.len() == 0 {
        Seq::empty()
    } else {
        escape(s.drop_last()) + esc_byte(s.last())
    }
}

/// `s` as a quoted JSON string.
pub open spec fn json_str(s: Seq<u8>) -> Seq<u8> {
    seq![QUOTE] + escape(s) + seq![QUOTE]
}

/// The decimal digits of `n`.
pub open spec fn dec_bytes(n: nat) -> Seq<u8>
    decreases n,
{
    if n < 10 {
        seq![(48 + n) as u8]
    } else {
        dec_bytes(n / 10) + seq![(48 + n % 10) as u8]
    }
}

/// A string member whose value may be absent: absent, it is left out.
pub open spec fn opt_member(key: Seq<char>, v: Option<Seq<u8>>) -> Seq<u8> {
    match v {
        Some(x) => ascii(key) + json_str(x),
        None => Seq::empty(),
    }
}

/// The additional fields for the structured-data pairs, each named after its
/// key with the prefix `_sd_`. The prefix keeps them apart from the header
/// fields and from GELF's reserved `_id`; pairs that repeat a name give
/// members that repeat a key, in the order of the pairs.
pub open spec fn sd_members(ps: Seq<(Seq<u8>, Seq<u8>)>) -> Seq<u8>
    decreases ps.len(),
{
    if ps.len() == 0 {
        Seq::empty()
    } else {
        sd_members(ps.drop_last()) + ascii(","@) + json_str(ascii("_sd_"@) + ps.last().0) + ascii(
            ":"@,
        ) + json_str(ps.last().1)
    }
}

/// The GELF document for a record.
pub open spec fn gelf(r: RecordModel) -> Seq<u8> {
    ascii("{\"version\":\"1.1\",\"host\":"@) + json_str(r.hostname) + opt_member(
        ",\"short_message\":"@,
        r.msg,
    ) + ascii(",\"level\":"@) + dec_bytes(r.severity) + ascii(",\"_facility\":"@) + dec_bytes(
        r.facility,
    ) + ascii(",\"_timestamp\":"@) + json_str(r.ts) + opt_member(",\"_appname\":"@, r.appname)
        + opt_member(",\"_procid\":"@, r.procid) + opt_member(",\"_msgid\":"@, r.msgid)
        + sd_members(r.sd) + ascii("}"@)
}

/// What encoding a record gives.
pub open spec fn spec_encode(r: RecordModel) -> Result<Seq<u8>, EncodeError> {
    Ok(gelf(r))
}

fn hex_digit_exec(n: u8) -> (r: u8)
    requires
        n < 16,
    ensures
        r == hex_digit(n as int),
{
    if n < 10 {
        48 + n
    } else {
        87 + n
    }
}

fn append_esc_byte(out: &mut Vec<u8>, c: u8)
    ensures
        final(out)@ == old(out)@ + esc_byte(c),
{
    if c == QUOTE || c == BACKSLASH {
        out.push(BACKSLASH);
        out.push(c);
    } else if c < 32 {
        out.push(BACKSLASH);
        out.push(117);
        out.push(48);
        out.push(48);
        out.push(hex_digit_exec(c / 16));
        out.push(hex_digit_exec(c % 16));
    } else {
        out.push(c);
    }
    assert(final(out)@ =~= old(out)@ + esc_byte(c));
}

fn append_json_str(out: &mut Vec<u8>, v: &Vec<u8>)
    ensures
        final(out)@ == old(out)@ + json_str(v@),
{
    let ghost start = out@;
    out.push(QUOTE);
    let mut i: usize = 0;
    while i < v.len()
        invariant
            i <= v@.len(),
            out@ == start + seq![QUOTE] + escape(v@.subrange(0, i as int)),
        decreases v@.len() - i,
    {
        let ghost before = out@;
        append_esc_byte(out, v[i]);
        assert(v@.subrange(0, i + 1).drop_last() =~= v@.subrange(0, i as int));
        assert(out@ =~= start + seq![QUOTE] + escape(v@.subrange(0, i + 1)));
        i = i + 1;
    }
    out.push(QUOTE);
    assert(v@.subrange(0, i as int) =~= v@);
    assert(out@ =~= start + json_str(v@));
}

fn append_dec(out: &mut Vec<u8>, n: u8)
    ensures
        final(out)@ == old(out)@ + dec_bytes(n as nat),
{
    let ghost start = out@;
    if n >= 100 {
        out.push(48 + n / 100);
    }
    if n >= 10 {
        out.push(48 + (n / 10) % 10);
    }
    out.push(48 + n % 10);
    proof {
        let m = n as nat;
        if m >= 100 {
            assert(dec_bytes(m / 100) == seq![(48 + m / 100) as u8]);
            assert(dec_bytes(m / 10) == dec_bytes(m / 10 / 10) + seq![(48 + (m / 10) % 10) as u8]);
            assert(m / 10 / 10 == m / 100);
        } else if m >= 10 {
            assert(dec_bytes(m / 10) == seq![(48 + m / 10) as u8]);
        }
        assert(out@ =~= start + dec_bytes(m));
    }
}

fn append_opt_member(out: &mut Vec<u8>, key: &str, v: &Option<Vec<u8>>)
    requires
        is_ascii(key),
    ensures
        final(out)@ == old(out)@ + opt_member(key@, crate::record::opt_view(*v)),
{
    match v {
        Some(x) => {
            let ghost start = out@;
            append_ascii(out, key);
            append_json_str(out, x);
            assert(out@ =~= start + (ascii(key@) + json_str(x@)));
        },
        None => {
            assert(out@ =~= old(out)@ + Seq::<u8>::empty());
        },
    }
}

fn append_sd(out: &mut Vec<u8>, ps: &Vec<SdParam>)
    ensures
        final(out)@ == old(out)@ + sd_members(crate::record::params_view(ps@)),
{
    let ghost start = out@;
    let mut i: usize = 0;
    while i < ps.len()
        invariant
            i <= ps@.len(),
            out@ == start + sd_members(crate::record::params_view(ps@.subrange(0, i as int))),
        decreases ps@.len() - i,
    {
        let p = &ps[i];
        let mut key: Vec<u8> = Vec::new();
        proof {
            reveal_strlit("_sd_");
        }
        append_ascii(&mut key, "_sd_");
        let ghost before = out@;
        proof {
            reveal_strlit(",");
            reveal_strlit(":");
        }
        append_ascii(out, ",");
        let mut j: usize = 0;
        while j < p.name.len()
            invariant
                j <= p.name@.len(),
                key@ == ascii("_sd_"@) + p.name@.subrange(0, j as int),
            decreases p.name@.len() - j,
        {
            key.push(p.name[j]);
            assert(p.name@.subrange(0, j + 1) =~= p.name@.subrange(0, j as int).push(p.name@[j as int]));
            j = j + 1;
        }
        assert(p.name@.subrange(0, j as int) =~= p.name@);
        append_json_str(out, &key);
        append_ascii(out, ":");
        append_json_str(out, &p.value);
        proof {
            let pv = crate::record::params_view(ps@.subrange(0, i + 1));
            assert(pv.drop_last() =~= crate::record::params_view(ps@.subrange(0, i as int)));
            assert(pv.last() == (p.name@, p.value@));
            assert(out@ =~= start + sd_members(pv));
        }
        i = i + 1;
    }
    assert(ps@.subrange(0, i as int) =~= ps@);
}

/// Encodes a record as a GELF document.
pub fn encode(record: &Record) -> (r: Result<Vec<u8>, EncodeError>)
    ensures
        match spec_encode(record@) {
            Ok(b) => r matches Ok(v) && v@ == b,
            Err(e) => r == Err::<Vec<u8>, EncodeError>(e),
        },
{
    let mut out: Vec<u8> = Vec::new();
    proof {
        reveal_strlit("{\"version\":\"1.1\",\"host\":");
        reveal_strlit(",\"short_message\":");
        reveal_strlit(",\"level\":");
        reveal_strlit(",\"_facility\":");
        reveal_strlit(",\"_timestamp\":");
        reveal_strlit(",\"_appname\":");
        reveal_strlit(",\"_procid\":");
        reveal_strlit(",\"_msgid\":");
        reveal_strlit("}");
    }
    append_ascii(&mut out, "{\"version\":\"1.1\",\"host\":");
    append_json_str(&mut out, &record.hostname);
    append_opt_member(&mut out, ",\"short_message\":", &record.msg);
    append_ascii(&mut out, ",\"level\":");
    append_dec(&mut out, record.severity);
    append_ascii(&mut out, ",\"_facility\":");
    append_dec(&mut out, record.facility);
    append_ascii(&mut out, ",\"_timestamp\":");
    append_json_str(&mut out, &record.ts);
    append_opt_member(&mut out, ",\"_appname\":", &record.appname);
    append_opt_member(&mut out, ",\"_procid\":", &record.procid);
    append_opt_member(&mut out, ",\"_msgid\":", &record.msgid);
    append_sd(&mut out, &record.sd);
    append_ascii(&mut out, "}");
    assert(out@ =~= gelf(record@));
    Ok(out)
}

/// The encoder that writes records as GELF documents.
#[derive(Clone, Copy, Debug)]
pub struct Gelf;

impl crate::Encoder for Gelf {
    fn encode(&self, record: Record) -> Result<Vec<u8>, EncodeError> {
        encode(&record)
    }
}

} // verus!
