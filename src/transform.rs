use crate::gelf::{ascii, dec_bytes, gelf, json_str, sd_members, spec_encode, EncodeError};
use crate::rfc5424::{
    find_from, lemma_find_from_bounds, lemma_name_end_bounds, name_end, spec_decode,
    lemma_params_end, lemma_value_bounds, spec_elements, spec_params, spec_sd, spec_value,
    LBRACKET, SP,
};
use vstd::prelude::*;

verus! {

/// `needle` stands somewhere in `hay` as a contiguous run of bytes.
pub open spec fn contains(hay: Seq<u8>, needle: Seq<u8>) -> bool {
    exists|i: int|
        0 <= i && i + needle.len() <= hay.len() && #[trigger] hay.subrange(i, i + needle.len())
            == needle
}

pub proof fn lemma_contains_subrange(s: Seq<u8>, a: int, b: int)
    requires
        0 <= a <= b <= s.len(),
    ensures
        contains(s, s.subrange(a, b)),
{
    assert(s.subrange(a, a + s.subrange(a, b).len()) == s.subrange(a, b));
}

pub proof fn lemma_contains_self(x: Seq<u8>)
    ensures
        contains(x, x),
{
    lemma_contains_subrange(x, 0, x.len() as int);
    assert(x.subrange(0, x.len() as int) =~= x);
}

pub broadcast proof fn lemma_contains_concat(a: Seq<u8>, b: Seq<u8>, x: Seq<u8>)
    ensures
        (contains(a, x) || contains(b, x)) ==> #[trigger] contains(a + b, x),
{
    if contains(a, x) {
        let i = choose|i: int|
            0 <= i && i + x.len() <= a.len() && #[trigger] a.subrange(i, i + x.len()) == x;
        assert((a + b).subrange(i, i + x.len()) =~= a.subrange(i, i + x.len()));
    } else if contains(b, x) {
        let i = choose|i: int|
            0 <= i && i + x.len() <= b.len() && #[trigger] b.subrange(i, i + x.len()) == x;
        let j = a.len() + i;
        assert((a + b).subrange(j, j + x.len()) =~= b.subrange(i, i + x.len()));
    }
}

/// Each structured-data pair of `ps` has its member in `sd_members(ps)`.
pub proof fn lemma_sd_members_contain(ps: Seq<(Seq<u8>, Seq<u8>)>, i: int)
    requires
        0 <= i < ps.len(),
    ensures
        contains(sd_members(ps), json_str(ascii("_sd_"@) + ps[i].0)),
        contains(sd_members(ps), json_str(ps[i].1)),
    decreases ps.len(),
{
    broadcast use lemma_contains_concat;

    if i == ps.len() - 1 {
        lemma_contains_self(json_str(ascii("_sd_"@) + ps[i].0));
        lemma_contains_self(json_str(ps[i].1));
    } else {
        lemma_sd_members_contain(ps.drop_last(), i);
    }
}

/// `v` is the value of some quoted parameter in `s`, its escapes undone.
pub open spec fn is_value_in(s: Seq<u8>, v: Seq<u8>) -> bool {
    exists|j: int| #[trigger] spec_value(s, j) is Some && spec_value(s, j)->Some_0.0 == v
}

/// The pairs of an element's parameters at `p` come from the line: each name
/// is cut from it, each value is one of its quoted values.
pub proof fn lemma_params_in_line(s: Seq<u8>, p: int)
    requires
        spec_params(s, p) is Some,
    ensures
        forall|i: int|
            0 <= i < spec_params(s, p)->Some_0.0.len() ==> contains(
                s,
                #[trigger] spec_params(s, p)->Some_0.0[i].0,
            ) && is_value_in(s, spec_params(s, p)->Some_0.0[i].1),
    decreases s.len() - p,
{
    if s[p] == SP {
        lemma_name_end_bounds(s, p + 1);
        let ke = name_end(s, p + 1);
        lemma_value_bounds(s, ke + 2);
        let ve = spec_value(s, ke + 2)->Some_0.1;
        lemma_params_in_line(s, ve + 1);
        lemma_contains_subrange(s, p + 1, ke);
        let ps = spec_params(s, p)->Some_0.0;
        let rest = spec_params(s, ve + 1)->Some_0.0;
        assert forall|i: int| 0 <= i < ps.len() implies contains(s, #[trigger] ps[i].0)
            && is_value_in(s, ps[i].1) by {
            if i > 0 {
                assert(ps[i] == rest[i - 1]);
            } else {
                assert(spec_value(s, ke + 2) is Some);
            }
        }
    }
}

/// The same holds of all the elements that follow one another from `p` on.
pub proof fn lemma_elements_in_line(s: Seq<u8>, p: int)
    requires
        spec_elements(s, p) is Some,
    ensures
        spec_elements(s, p)->Some_0.1 > p,
        forall|i: int|
            0 <= i < spec_elements(s, p)->Some_0.0.len() ==> contains(
                s,
                #[trigger] spec_elements(s, p)->Some_0.0[i].0,
            ) && is_value_in(s, spec_elements(s, p)->Some_0.0[i].1),
    decreases s.len() - p,
{
    lemma_name_end_bounds(s, p + 1);
    let ie = name_end(s, p + 1);
    lemma_params_in_line(s, ie);
    lemma_params_end(s, ie);
    let (ps, e) = spec_params(s, ie)->Some_0;
    assert(ie > p && e > ie);
    if e < s.len() && s[e] == LBRACKET {
        lemma_elements_in_line(s, e);
        let qs = spec_elements(s, e)->Some_0.0;
        let all = spec_elements(s, p)->Some_0.0;
        assert forall|i: int| 0 <= i < all.len() implies contains(s, #[trigger] all[i].0)
            && is_value_in(s, all[i].1) by {
            if i < ps.len() {
                assert(all[i] == ps[i]);
                assert(contains(s, ps[i].0) && is_value_in(s, ps[i].1));
            } else {
                assert(all[i] == qs[i - ps.len()]);
                assert(contains(s, qs[i - ps.len()].0) && is_value_in(s, qs[i - ps.len()].1));
            }
        }
    } else {
        let all = spec_elements(s, p)->Some_0.0;
        assert(all == ps);
        assert(spec_elements(s, p)->Some_0.1 == e);
        assert forall|i: int| 0 <= i < all.len() implies contains(s, #[trigger] all[i].0)
            && is_value_in(s, all[i].1) by {
            assert(all[i] == ps[i]);
            assert(contains(s, ps[i].0) && is_value_in(s, ps[i].1));
        }
    }
}

/// Decoding a line and encoding the record gives a document that holds every
/// field of the record, and every field of the record comes from the line:
/// each header field, the message and each structured-data name is cut from
/// it, and each structured-data value is one of its quoted values with the
/// escapes undone. Nothing is invented.
pub proof fn lemma_decode_encode(line: Seq<u8>)
    requires
        spec_decode(line) is Ok,
    ensures
        ({
            let m = spec_decode(line)->Ok_0;
            let out = gelf(m);
            &&& spec_encode(m) == Ok::<Seq<u8>, EncodeError>(out)
            &&& contains(out, json_str(m.hostname)) && contains(line, m.hostname)
            &&& contains(out, json_str(m.ts)) && contains(line, m.ts)
            &&& contains(out, dec_bytes(m.severity)) && contains(out, dec_bytes(m.facility))
            &&& (m.appname matches Some(a) ==> contains(out, json_str(a)) && contains(line, a))
            &&& (m.procid matches Some(a) ==> contains(out, json_str(a)) && contains(line, a))
            &&& (m.msgid matches Some(a) ==> contains(out, json_str(a)) && contains(line, a))
            &&& (m.msg matches Some(a) ==> contains(out, json_str(a)) && contains(line, a))
            &&& forall|i: int|
                0 <= i < m.sd.len() ==> {
                    &&& contains(out, json_str(ascii("_sd_"@) + #[trigger] m.sd[i].0))
                    &&& contains(out, json_str(m.sd[i].1))
                    &&& contains(line, m.sd[i].0)
                    &&& is_value_in(line, m.sd[i].1)
                }
        }),
{
    broadcast use lemma_contains_concat;

    let m = spec_decode(line)->Ok_0;
    let s = line;
    let gt = find_from(s, 1, crate::rfc5424::GT);
    let p1 = gt + 3;
    lemma_find_from_bounds(s, p1, SP);
    let e1 = find_from(s, p1, SP);
    let p2 = e1 + 1;
    lemma_find_from_bounds(s, p2, SP);
    let e2 = find_from(s, p2, SP);
    let p3 = e2 + 1;
    lemma_find_from_bounds(s, p3, SP);
    let e3 = find_from(s, p3, SP);
    let p4 = e3 + 1;
    lemma_find_from_bounds(s, p4, SP);
    let e4 = find_from(s, p4, SP);
    let p5 = e4 + 1;
    lemma_find_from_bounds(s, p5, SP);
    let e5 = find_from(s, p5, SP);
    let p6 = e5 + 1;
    lemma_contains_subrange(s, p1, e1);
    lemma_contains_subrange(s, p2, e2);
    lemma_contains_subrange(s, p3, e3);
    lemma_contains_subrange(s, p4, e4);
    lemma_contains_subrange(s, p5, e5);
    let e6 = spec_sd(s, p6)->Some_0.1;
    if s[p6] != crate::rfc5424::DASH {
        lemma_elements_in_line(s, p6);
    }
    if e6 < s.len() {
        lemma_contains_subrange(s, e6 + 1, s.len() as int);
    }
    lemma_contains_self(json_str(m.hostname));
    lemma_contains_self(json_str(m.ts));
    lemma_contains_self(dec_bytes(m.severity));
    lemma_contains_self(dec_bytes(m.facility));
    if let Some(a) = m.appname {
        lemma_contains_self(json_str(a));
    }
    if let Some(a) = m.procid {
        lemma_contains_self(json_str(a));
    }
    if let Some(a) = m.msgid {
        lemma_contains_self(json_str(a));
    }
    if let Some(a) = m.msg {
        lemma_contains_self(json_str(a));
    }
    assert forall|i: int| 0 <= i < m.sd.len() implies {
        &&& contains(gelf(m), json_str(ascii("_sd_"@) + #[trigger] m.sd[i].0))
        &&& contains(gelf(m), json_str(m.sd[i].1))
    } by {
        lemma_sd_members_contain(m.sd, i);
    }
}

} // verus!
