use crate::record::{params_view, Record, RecordModel, SdParam};
use vstd::prelude::*;
use vstd::string::StringSliceAdditionalSpecFns;

verus! {

pub const SP: u8 = 32;
pub const DQUOTE: u8 = 34;
pub const DASH: u8 = 45;
pub const LT: u8 = 60;
pub const EQ: u8 = 61;
pub const GT: u8 = 62;
pub const LBRACKET: u8 = 91;
pub const RBRACKET: u8 = 93;
pub const MAX_PRI: u8 = 191;

/// Why a line was refused.
#[derive(PartialEq, Eq, Structural, Clone, Copy, Debug)]
pub enum DecodeError {
    BadPriority,
    BadVersion,
    BadTimestamp,
    MissingField,
    BadStructuredData,
}

/// The first index at or after `p` that holds `c`, or the length of `s`.
pub open spec fn find_from(s: Seq<u8>, p: int, c: u8) -> int
    decreases s.len() - p,
{
    if p < 0 || p >= s.len() {
        s.len() as int
    } else if s[p] == c {
        p
    } else {
        find_from(s, p + 1, c)
    }
}

/// Bytes that may stand in a structured-data name.
pub open spec fn is_name_byte(b: u8) -> bool {
    b != SP && b != EQ && b != RBRACKET && b != DQUOTE
}

/// The end of the name that starts at `p`: the first byte at or after `p`
/// that no name may hold, or the length of `s`.
pub open spec fn name_end(s: Seq<u8>, p: int) -> int
    decreases s.len() - p,
{
    if p < 0 || p >= s.len() {
        s.len() as int
    } else if !is_name_byte(s[p]) {
        p
    } else {
        name_end(s, p + 1)
    }
}

pub proof fn lemma_find_from_bounds(s: Seq<u8>, p: int, c: u8)
    requires
        0 <= p <= s.len(),
    ensures
        p <= find_from(s, p, c) <= s.len(),
    decreases s.len() - p,
{
    if p < s.len() && s[p] != c {
        lemma_find_from_bounds(s, p + 1, c);
    }
}

pub proof fn lemma_name_end_bounds(s: Seq<u8>, p: int)
    requires
        0 <= p <= s.len(),
    ensures
        p <= name_end(s, p) <= s.len(),
    decreases s.len() - p,
{
    if p < s.len() && is_name_byte(s[p]) {
        lemma_name_end_bounds(s, p + 1);
    }
}

pub open spec fn is_digit(b: u8) -> bool {
    48 <= b <= 57
}

/// The decimal value of a string of digits.
pub open spec fn dec_val(t: Seq<u8>) -> int
    decreases t.len(),
{
    if t.len() == 0 {
        0
    } else {
        dec_val(t.drop_last()) * 10 + (t.last() - 48)
    }
}

/// A priority: one to three digits, no leading zero, at most 191.
pub open spec fn pri_ok(t: Seq<u8>) -> bool {
    &&& 1 <= t.len() <= 3
    &&& forall|i: int| 0 <= i < t.len() ==> is_digit(#[trigger] t[i])
    &&& (t.len() == 1 || t[0] != 48)
    &&& dec_val(t) <= MAX_PRI
}

/// What byte `b` must be at position `i` of a timestamp
/// `YYYY-MM-DDTHH:MM:SS`, before the fraction and the zone.
pub open spec fn ts_shape_ok(i: int, b: u8) -> bool {
    if i == 4 || i == 7 {
        b == DASH
    } else if i == 10 {
        b == 84
    } else if i == 13 || i == 16 {
        b == 58
    } else {
        is_digit(b)
    }
}

/// The layout `YYYY-MM-DDTHH:MM:SS`, followed by at least one more byte.
pub open spec fn ts_shape(t: Seq<u8>) -> bool {
    t.len() > 19 && forall|i: int| 0 <= i < 19 ==> ts_shape_ok(i, #[trigger] t[i])
}

/// The number written by the two digits at `i`.
pub open spec fn two_digits(t: Seq<u8>, i: int) -> int {
    (t[i] - 48) * 10 + (t[i + 1] - 48)
}

/// Month, day, hour, minute and second lie in their ranges; a second of 60
/// is a leap second.
pub open spec fn ts_ranges_ok(t: Seq<u8>) -> bool {
    &&& 1 <= two_digits(t, 5) <= 12
    &&& 1 <= two_digits(t, 8) <= 31
    &&& two_digits(t, 11) <= 23
    &&& two_digits(t, 14) <= 59
    &&& two_digits(t, 17) <= 60
}

/// The first index at or after `p` that holds no digit, or the length of `t`.
pub open spec fn digits_end(t: Seq<u8>, p: int) -> int
    decreases t.len() - p,
{
    if p < 0 || p >= t.len() {
        t.len() as int
    } else if !is_digit(t[p]) {
        p
    } else {
        digits_end(t, p + 1)
    }
}

/// Where the zone starts: after the fraction, if there is one.
pub open spec fn zone_at(t: Seq<u8>) -> int {
    if t[19] == 46 {
        digits_end(t, 20)
    } else {
        19
    }
}

/// The zone at `z` is `Z` or `+hh:mm` / `-hh:mm`, and ends the timestamp.
pub open spec fn zone_ok(t: Seq<u8>, z: int) -> bool {
    ||| (t.len() == z + 1 && t[z] == 90)
    ||| (t.len() == z + 6 && (t[z] == 43 || t[z] == DASH) && is_digit(t[z + 1]) && is_digit(
        t[z + 2],
    ) && t[z + 3] == 58 && is_digit(t[z + 4]) && is_digit(t[z + 5]) && two_digits(t, z + 1) <= 23
        && two_digits(t, z + 4) <= 59)
}

/// A full date and time: the layout, the ranges, a fraction of one to six
/// digits if a `.` follows the seconds, then the zone and nothing after it.
pub open spec fn ts_ok(t: Seq<u8>) -> bool {
    &&& ts_shape(t)
    &&& ts_ranges_ok(t)
    &&& (t[19] != 46 || 21 <= zone_at(t) <= 26)
    &&& zone_ok(t, zone_at(t))
}

/// `-` stands for an absent value.
pub open spec fn nil_or(t: Seq<u8>) -> Option<Seq<u8>> {
    if t == seq![DASH] {
        None
    } else {
        Some(t)
    }
}

pub const BACKSLASH: u8 = 92;

/// The bytes that a backslash escapes inside a parameter value.
pub open spec fn is_escapable(b: u8) -> bool {
    b == DQUOTE || b == BACKSLASH || b == RBRACKET
}

/// The value that starts at `p`, with its escapes undone, and the index of
/// the quote that closes it. A backslash before `"`, `\` or `]` stands for
/// that byte; any other backslash stands for itself.
pub open spec fn spec_value(s: Seq<u8>, p: int) -> Option<(Seq<u8>, int)>
    decreases s.len() - p,
{
    if p < 0 || p >= s.len() {
        None
    } else if s[p] == DQUOTE {
        Some((Seq::empty(), p))
    } else if s[p] == BACKSLASH && p + 1 < s.len() && is_escapable(s[p + 1]) {
        match spec_value(s, p + 2) {
            Some((v, e)) => Some((seq![s[p + 1]] + v, e)),
            None => None,
        }
    } else {
        match spec_value(s, p + 1) {
            Some((v, e)) => Some((seq![s[p]] + v, e)),
            None => None,
        }
    }
}

pub proof fn lemma_value_bounds(s: Seq<u8>, p: int)
    requires
        spec_value(s, p) is Some,
    ensures
        p <= spec_value(s, p)->Some_0.1 < s.len(),
    decreases s.len() - p,
{
    if s[p] != DQUOTE {
        if s[p] == BACKSLASH && p + 1 < s.len() && is_escapable(s[p + 1]) {
            lemma_value_bounds(s, p + 2);
        } else {
            lemma_value_bounds(s, p + 1);
        }
    }
}

#[via_fn]
proof fn spec_params_decreases(s: Seq<u8>, p: int) {
    if 0 <= p < s.len() && s[p] == SP {
        lemma_name_end_bounds(s, p + 1);
        let ke = name_end(s, p + 1);
        if spec_value(s, ke + 2) is Some {
            lemma_value_bounds(s, ke + 2);
        }
    }
}

/// The parameters of a structured-data element from `p` on: each is
/// ` name="value"`, and `]` closes the element. Gives the pairs and the
/// index just past `]`.
pub open spec fn spec_params(s: Seq<u8>, p: int) -> Option<(Seq<(Seq<u8>, Seq<u8>)>, int)>
    decreases s.len() - p,
    via spec_params_decreases
{
    if p < 0 || p >= s.len() {
        None
    } else if s[p] == RBRACKET {
        Some((Seq::empty(), p + 1))
    } else if s[p] == SP {
        let ke = name_end(s, p + 1);
        if ke == p + 1 || ke + 1 >= s.len() || s[ke] != EQ || s[ke + 1] != DQUOTE {
            None
        } else {
            match spec_value(s, ke + 2) {
                None => None,
                Some((v, ve)) => match spec_params(s, ve + 1) {
                    Some((ps, e)) => Some((seq![(s.subrange(p + 1, ke), v)] + ps, e)),
                    None => None,
                },
            }
        }
    } else {
        None
    }
}

/// The parameters at `p` end past `p`.
pub proof fn lemma_params_end(s: Seq<u8>, p: int)
    requires
        spec_params(s, p) is Some,
    ensures
        spec_params(s, p)->Some_0.1 > p,
    decreases s.len() - p,
{
    if s[p] == SP {
        lemma_name_end_bounds(s, p + 1);
        let ke = name_end(s, p + 1);
        lemma_value_bounds(s, ke + 2);
        let ve = spec_value(s, ke + 2)->Some_0.1;
        lemma_params_end(s, ve + 1);
    }
}

#[via_fn]
proof fn spec_elements_decreases(s: Seq<u8>, p: int) {
    if 0 <= p < s.len() {
        lemma_name_end_bounds(s, p + 1);
        let ie = name_end(s, p + 1);
        if spec_params(s, ie) is Some {
            lemma_params_end(s, ie);
        }
    }
}

/// The structured-data elements `[id ...]` that follow one another from `p`
/// on: the pairs of all of them, in order, and the index past the last one.
pub open spec fn spec_elements(s: Seq<u8>, p: int) -> Option<(Seq<(Seq<u8>, Seq<u8>)>, int)>
    decreases s.len() - p,
    via spec_elements_decreases
{
    if p < 0 || p >= s.len() || s[p] != LBRACKET {
        None
    } else {
        let ie = name_end(s, p + 1);
        if ie == p + 1 {
            None
        } else {
            match spec_params(s, ie) {
                None => None,
                Some((ps, e)) => if e < s.len() && s[e] == LBRACKET {
                    match spec_elements(s, e) {
                        Some((qs, f)) => Some((ps + qs, f)),
                        None => None,
                    }
                } else {
                    Some((ps, e))
                },
            }
        }
    }
}

/// The structured-data section at `p`: `-`, or one or more elements.
pub open spec fn spec_sd(s: Seq<u8>, p: int) -> Option<(Seq<(Seq<u8>, Seq<u8>)>, int)> {
    if p < 0 || p >= s.len() {
        None
    } else if s[p] == DASH {
        Some((Seq::empty(), p + 1))
    } else {
        spec_elements(s, p)
    }
}

/// The header field starting at `p` is not empty and a space follows it.
pub open spec fn field_ok(s: Seq<u8>, p: int) -> bool {
    let e = find_from(s, p, SP);
    e < s.len() && e > p
}

/// What decoding a line gives: the record, or the first thing wrong with it.
///
/// A line is `<PRI>1 TIMESTAMP HOST APP PROCID MSGID SD[ MSG]`.
pub open spec fn spec_decode(s: Seq<u8>) -> Result<RecordModel, DecodeError> {
    let gt = find_from(s, 1, GT);
    if s.len() == 0 || s[0] != LT || gt >= s.len() || !pri_ok(s.subrange(1, gt)) {
        Err(DecodeError::BadPriority)
    } else if gt + 2 >= s.len() || s[gt + 1] != 49 || s[gt + 2] != SP {
        Err(DecodeError::BadVersion)
    } else {
        let pri = dec_val(s.subrange(1, gt));
        let p1 = gt + 3;
        let e1 = find_from(s, p1, SP);
        let p2 = e1 + 1;
        let e2 = find_from(s, p2, SP);
        let p3 = e2 + 1;
        let e3 = find_from(s, p3, SP);
        let p4 = e3 + 1;
        let e4 = find_from(s, p4, SP);
        let p5 = e4 + 1;
        let e5 = find_from(s, p5, SP);
        let p6 = e5 + 1;
        if e1 >= s.len() || !ts_ok(s.subrange(p1, e1)) {
            Err(DecodeError::BadTimestamp)
        } else if !field_ok(s, p2) || !field_ok(s, p3) || !field_ok(s, p4) || !field_ok(s, p5) {
            Err(DecodeError::MissingField)
        } else {
            match spec_sd(s, p6) {
                None => Err(DecodeError::BadStructuredData),
                Some((sd, e6)) => {
                    if e6 < s.len() && s[e6] != SP {
                        Err(DecodeError::BadStructuredData)
                    } else {
                        Ok(
                            RecordModel {
                                facility: (pri / 8) as nat,
                                severity: (pri % 8) as nat,
                                ts: s.subrange(p1, e1),
                                hostname: s.subrange(p2, e2),
                                appname: nil_or(s.subrange(p3, e3)),
                                procid: nil_or(s.subrange(p4, e4)),
                                msgid: nil_or(s.subrange(p5, e5)),
                                sd,
                                msg: if e6 < s.len() {
                                    Some(s.subrange(e6 + 1, s.len() as int))
                                } else {
                                    None
                                },
                            },
                        )
                    }
                },
            }
        }
    }
}

pub(crate) fn find_byte(b: &[u8], start: usize, c: u8) -> (r: usize)
    requires
        start <= b@.len(),
    ensures
        r == find_from(b@, start as int, c),
        start <= r <= b@.len(),
{
    let mut i: usize = start;
    while i < b.len() && b[i] != c
        invariant
            start <= i <= b@.len(),
            find_from(b@, start as int, c) == find_from(b@, i as int, c),
        decreases b@.len() - i,
    {
        i = i + 1;
    }
    i
}

fn find_name_end(b: &[u8], start: usize) -> (r: usize)
    requires
        start <= b@.len(),
    ensures
        r == name_end(b@, start as int),
        start <= r <= b@.len(),
{
    let mut i: usize = start;
    while i < b.len() && is_name_byte_exec(b[i])
        invariant
            start <= i <= b@.len(),
            name_end(b@, start as int) == name_end(b@, i as int),
        decreases b@.len() - i,
    {
        i = i + 1;
    }
    i
}

fn is_name_byte_exec(c: u8) -> (r: bool)
    ensures
        r == is_name_byte(c),
{
    c != SP && c != EQ && c != RBRACKET && c != DQUOTE
}

pub(crate) fn copy_range(b: &[u8], lo: usize, hi: usize) -> (r: Vec<u8>)
    requires
        lo <= hi <= b@.len(),
    ensures
        r@ == b@.subrange(lo as int, hi as int),
{
    let mut r: Vec<u8> = Vec::new();
    let mut i: usize = lo;
    while i < hi
        invariant
            lo <= i <= hi <= b@.len(),
            r@ == b@.subrange(lo as int, i as int),
        decreases hi - i,
    {
        r.push(b[i]);
        assert(b@.subrange(lo as int, i + 1) =~= b@.subrange(lo as int, i as int).push(b@[i as int]));
        i = i + 1;
    }
    r
}

fn is_nil(b: &[u8], lo: usize, hi: usize) -> (r: bool)
    requires
        lo <= hi <= b@.len(),
    ensures
        r == (b@.subrange(lo as int, hi as int) == seq![DASH]),
{
    if hi - lo == 1 && b[lo] == DASH {
        assert(b@.subrange(lo as int, hi as int) =~= seq![DASH]);
        true
    } else {
        assert(seq![DASH].len() == 1 && seq![DASH][0] == DASH);
        assert(hi - lo == 1 ==> b@.subrange(lo as int, hi as int)[0] == b@[lo as int]);
        false
    }
}

fn copy_nil_or(b: &[u8], lo: usize, hi: usize) -> (r: Option<Vec<u8>>)
    requires
        lo <= hi <= b@.len(),
    ensures
        crate::record::opt_view(r) == nil_or(b@.subrange(lo as int, hi as int)),
{
    if is_nil(b, lo, hi) {
        None
    } else {
        Some(copy_range(b, lo, hi))
    }
}

/// The priority written in `b[lo..hi]`, when it is a valid one.
fn parse_pri(b: &[u8], lo: usize, hi: usize) -> (r: Option<u8>)
    requires
        lo <= hi <= b@.len(),
    ensures
        pri_ok(b@.subrange(lo as int, hi as int)) ==> (r matches Some(v) && v as int == dec_val(
            b@.subrange(lo as int, hi as int),
        )),
        !pri_ok(b@.subrange(lo as int, hi as int)) ==> r is None,
{
    let ghost t = b@.subrange(lo as int, hi as int);
    if hi - lo < 1 || hi - lo > 3 {
        return None;
    }
    if hi - lo > 1 && b[lo] == 48 {
        assert(t[0] == b@[lo as int]);
        return None;
    }
    let mut v: u32 = 0;
    let mut i: usize = lo;
    while i < hi
        invariant
            lo <= i <= hi <= b@.len(),
            hi - lo <= 3,
            t == b@.subrange(lo as int, hi as int),
            v == dec_val(b@.subrange(lo as int, i as int)),
            v < 1000,
            i - lo == 0 ==> v == 0,
            i - lo == 1 ==> v < 10,
            i - lo == 2 ==> v < 100,
            forall|k: int| lo <= k < i ==> is_digit(#[trigger] b@[k]),
        decreases hi - i,
    {
        let c = b[i];
        if c < 48 || c > 57 {
            assert(t[i - lo] == c);
            return None;
        }
        assert(b@.subrange(lo as int, i + 1).drop_last() =~= b@.subrange(lo as int, i as int));
        v = v * 10 + (c - 48) as u32;
        i = i + 1;
    }
    assert(b@.subrange(lo as int, i as int) =~= t);
    assert forall|k: int| 0 <= k < t.len() implies is_digit(#[trigger] t[k]) by {
        assert(t[k] == b@[lo + k]);
    }
    if v > MAX_PRI as u32 {
        None
    } else {
        Some(v as u8)
    }
}

fn ts_shape_ok_exec(i: usize, c: u8) -> (r: bool)
    ensures
        r == ts_shape_ok(i as int, c),
{
    if i == 4 || i == 7 {
        c == DASH
    } else if i == 10 {
        c == 84
    } else if i == 13 || i == 16 {
        c == 58
    } else {
        48 <= c && c <= 57
    }
}

fn check_ts_shape(t: &[u8]) -> (r: bool)
    ensures
        r == ts_shape(t@),
{
    if t.len() <= 19 {
        return false;
    }
    let mut k: usize = 0;
    while k < 19
        invariant
            t@.len() > 19,
            k <= 19,
            forall|j: int| 0 <= j < k ==> ts_shape_ok(j, #[trigger] t@[j]),
        decreases 19 - k,
    {
        if !ts_shape_ok_exec(k, t[k]) {
            return false;
        }
        k = k + 1;
    }
    true
}

fn two_digits_exec(t: &[u8], i: usize) -> (r: u32)
    requires
        i + 1 < t@.len(),
        is_digit(t@[i as int]),
        is_digit(t@[i + 1]),
    ensures
        r == two_digits(t@, i as int),
{
    (t[i] - 48) as u32 * 10 + (t[i + 1] - 48) as u32
}

fn is_digit_exec(c: u8) -> (r: bool)
    ensures
        r == is_digit(c),
{
    48 <= c && c <= 57
}

fn find_digits_end(t: &[u8], start: usize) -> (r: usize)
    requires
        start <= t@.len(),
    ensures
        r == digits_end(t@, start as int),
        start <= r <= t@.len(),
{
    let mut i: usize = start;
    while i < t.len() && is_digit_exec(t[i])
        invariant
            start <= i <= t@.len(),
            digits_end(t@, start as int) == digits_end(t@, i as int),
        decreases t@.len() - i,
    {
        i = i + 1;
    }
    i
}

fn check_zone(t: &[u8], z: usize) -> (r: bool)
    requires
        z <= t@.len(),
    ensures
        r == zone_ok(t@, z as int),
{
    if t.len() - z == 1 {
        t[z] == 90
    } else if t.len() - z == 6 {
        (t[z] == 43 || t[z] == DASH) && is_digit_exec(t[z + 1]) && is_digit_exec(t[z + 2]) && t[z
            + 3] == 58 && is_digit_exec(t[z + 4]) && is_digit_exec(t[z + 5]) && two_digits_exec(
            t,
            z + 1,
        ) <= 23 && two_digits_exec(t, z + 4) <= 59
    } else {
        false
    }
}

/// Whether `t` is a full date and time.
fn check_ts(t: &[u8]) -> (r: bool)
    ensures
        r == ts_ok(t@),
{
    if !check_shape_and_ranges(t) {
        return false;
    }
    let z = if t[19] == 46 {
        let z = find_digits_end(t, 20);
        if z < 21 || z > 26 {
            return false;
        }
        z
    } else {
        19
    };
    check_zone(t, z)
}

fn check_shape_and_ranges(t: &[u8]) -> (r: bool)
    ensures
        r == (ts_shape(t@) && ts_ranges_ok(t@)),
{
    if !check_ts_shape(t) {
        return false;
    }
    assert(ts_shape_ok(5, t@[5]) && ts_shape_ok(6, t@[6]) && ts_shape_ok(8, t@[8]) && ts_shape_ok(9, t@[9]));
    assert(ts_shape_ok(11, t@[11]) && ts_shape_ok(12, t@[12]) && ts_shape_ok(14, t@[14]));
    assert(ts_shape_ok(15, t@[15]) && ts_shape_ok(17, t@[17]) && ts_shape_ok(18, t@[18]));
    let month = two_digits_exec(t, 5);
    let day = two_digits_exec(t, 8);
    let hour = two_digits_exec(t, 11);
    let minute = two_digits_exec(t, 14);
    let second = two_digits_exec(t, 17);
    1 <= month && month <= 12 && 1 <= day && day <= 31 && hour <= 23 && minute <= 59 && second <= 60
}

fn is_escapable_exec(c: u8) -> (r: bool)
    ensures
        r == is_escapable(c),
{
    c == DQUOTE || c == BACKSLASH || c == RBRACKET
}

/// The value at `p` with its escapes undone, and the index of its closing quote.
fn parse_value(b: &[u8], p: usize) -> (r: Option<(Vec<u8>, usize)>)
    requires
        p <= b@.len(),
    ensures
        match spec_value(b@, p as int) {
            Some((v, e)) => r matches Some((x, q)) && x@ == v && q == e,
            None => r is None,
        },
{
    let ghost s = b@;
    let mut acc: Vec<u8> = Vec::new();
    let mut i: usize = p;
    loop
        invariant
            s == b@,
            p <= i <= s.len(),
            spec_value(s, p as int) == match spec_value(s, i as int) {
                Some((v, e)) => Some((acc@ + v, e)),
                None => None,
            },
        decreases s.len() - i,
    {
        if i >= b.len() {
            return None;
        }
        if b[i] == DQUOTE {
            assert(acc@ + Seq::<u8>::empty() =~= acc@);
            return Some((acc, i));
        }
        let ghost old_acc = acc@;
        let next = if b[i] == BACKSLASH && i + 1 < b.len() && is_escapable_exec(b[i + 1]) {
            acc.push(b[i + 1]);
            i + 2
        } else {
            acc.push(b[i]);
            i + 1
        };
        proof {
            if let Some((v, e)) = spec_value(s, next as int) {
                assert(acc@ + v =~= old_acc + (seq![acc@.last()] + v));
            }
        }
        i = next;
    }
}

/// The parameters of a structured-data element from `p` on, and the index
/// just past the `]` that closes it.
fn parse_params(b: &[u8], p: usize) -> (r: Option<(Vec<SdParam>, usize)>)
    requires
        p <= b@.len(),
    ensures
        match spec_params(b@, p as int) {
            Some((ps, e)) => r matches Some((v, q)) && params_view(v@) == ps && q == e,
            None => r is None,
        },
{
    let ghost s = b@;
    let mut acc: Vec<SdParam> = Vec::new();
    let mut i: usize = p;
    loop
        invariant
            s == b@,
            p <= i <= s.len(),
            spec_params(s, p as int) == match spec_params(s, i as int) {
                Some((ps, e)) => Some((params_view(acc@) + ps, e)),
                None => None,
            },
        decreases s.len() - i,
    {
        if i >= b.len() {
            return None;
        }
        if b[i] == RBRACKET {
            assert(params_view(acc@) + Seq::<(Seq<u8>, Seq<u8>)>::empty() =~= params_view(acc@));
            return Some((acc, i + 1));
        }
        if b[i] != SP {
            return None;
        }
        let ke = find_name_end(b, i + 1);
        if ke == i + 1 || ke >= b.len() - 1 || b[ke] != EQ || b[ke + 1] != DQUOTE {
            return None;
        }
        let (value, ve) = match parse_value(b, ke + 2) {
            Some(x) => x,
            None => {
                return None;
            },
        };
        proof {
            lemma_value_bounds(s, ke + 2);
        }
        let name = copy_range(b, i + 1, ke);
        let ghost old_acc = acc@;
        let ghost pair = (name@, value@);
        acc.push(SdParam { name, value });
        assert(params_view(acc@) =~= params_view(old_acc).push(pair));
        proof {
            if let Some((ps, e)) = spec_params(s, ve + 1) {
                assert(params_view(acc@) + ps =~= params_view(old_acc) + (seq![pair] + ps));
            }
        }
        i = ve + 1;
    }
}

/// The elements that follow one another from `p` on.
fn parse_elements(b: &[u8], p: usize) -> (r: Option<(Vec<SdParam>, usize)>)
    requires
        p <= b@.len(),
    ensures
        match spec_elements(b@, p as int) {
            Some((ps, e)) => r matches Some((v, q)) && params_view(v@) == ps && q == e,
            None => r is None,
        },
{
    let ghost s = b@;
    let mut acc: Vec<SdParam> = Vec::new();
    let mut i: usize = p;
    loop
        invariant
            s == b@,
            p <= i <= s.len(),
            spec_elements(s, p as int) == match spec_elements(s, i as int) {
                Some((ps, e)) => Some((params_view(acc@) + ps, e)),
                None => None,
            },
        decreases s.len() - i,
    {
        if i >= b.len() || b[i] != LBRACKET {
            return None;
        }
        let ie = find_name_end(b, i + 1);
        if ie == i + 1 {
            return None;
        }
        let (mut ps, e) = match parse_params(b, ie) {
            Some(x) => x,
            None => {
                return None;
            },
        };
        proof {
            lemma_params_end(s, ie as int);
        }
        let ghost old_acc = acc@;
        let ghost pv = params_view(ps@);
        acc.append(&mut ps);
        assert(params_view(acc@) =~= params_view(old_acc) + pv);
        if e < b.len() && b[e] == LBRACKET {
            proof {
                if let Some((qs, f)) = spec_elements(s, e as int) {
                    assert(params_view(acc@) + qs =~= params_view(old_acc) + (pv + qs));
                }
            }
            i = e;
        } else {
            return Some((acc, e));
        }
    }
}

fn parse_sd(b: &[u8], p: usize) -> (r: Option<(Vec<SdParam>, usize)>)
    requires
        p <= b@.len(),
    ensures
        match spec_sd(b@, p as int) {
            Some((ps, e)) => r matches Some((v, q)) && params_view(v@) == ps && q == e,
            None => r is None,
        },
{
    if p >= b.len() {
        None
    } else if b[p] == DASH {
        let v: Vec<SdParam> = Vec::new();
        assert(params_view(v@) =~= Seq::empty());
        Some((v, p + 1))
    } else {
        parse_elements(b, p)
    }
}

/// The index of the space that ends the header field at `p`, when the field
/// is not empty and is followed by a space.
fn field_end(b: &[u8], p: usize) -> (r: Option<usize>)
    requires
        p <= b@.len(),
    ensures
        field_ok(b@, p as int) ==> r == Some(find_from(b@, p as int, SP) as usize),
        !field_ok(b@, p as int) ==> r is None,
{
    let e = find_byte(b, p, SP);
    if e < b.len() && e > p {
        Some(e)
    } else {
        None
    }
}

/// Decodes one syslog line, given as bytes.
pub fn decode_bytes(b: &[u8]) -> (r: Result<Record, DecodeError>)
    ensures
        match spec_decode(b@) {
            Ok(m) => r matches Ok(x) && x@ == m,
            Err(e) => r == Err::<Record, DecodeError>(e),
        },
{
    if b.len() == 0 || b[0] != LT {
        return Err(DecodeError::BadPriority);
    }
    let gt = find_byte(b, 1, GT);
    if gt >= b.len() {
        return Err(DecodeError::BadPriority);
    }
    let pri = match parse_pri(b, 1, gt) {
        Some(v) => v,
        None => {
            return Err(DecodeError::BadPriority);
        },
    };
    if b.len() - gt <= 2 || b[gt + 1] != 49 || b[gt + 2] != SP {
        return Err(DecodeError::BadVersion);
    }
    let p1 = gt + 3;
    let e1 = find_byte(b, p1, SP);
    if e1 >= b.len() {
        return Err(DecodeError::BadTimestamp);
    }
    let ts = copy_range(b, p1, e1);
    if !check_ts(ts.as_slice()) {
        return Err(DecodeError::BadTimestamp);
    }
    let p2 = e1 + 1;
    let e2 = match field_end(b, p2) {
        Some(e) => e,
        None => {
            return Err(DecodeError::MissingField);
        },
    };
    let p3 = e2 + 1;
    let e3 = match field_end(b, p3) {
        Some(e) => e,
        None => {
            return Err(DecodeError::MissingField);
        },
    };
    let p4 = e3 + 1;
    let e4 = match field_end(b, p4) {
        Some(e) => e,
        None => {
            return Err(DecodeError::MissingField);
        },
    };
    let p5 = e4 + 1;
    let e5 = match field_end(b, p5) {
        Some(e) => e,
        None => {
            return Err(DecodeError::MissingField);
        },
    };
    let p6 = e5 + 1;
    let (sd, e6) = match parse_sd(b, p6) {
        Some(x) => x,
        None => {
            return Err(DecodeError::BadStructuredData);
        },
    };
    if e6 < b.len() && b[e6] != SP {
        return Err(DecodeError::BadStructuredData);
    }
    let msg = if e6 < b.len() {
        Some(copy_range(b, e6 + 1, b.len()))
    } else {
        None
    };
    let r = Record {
            facility: pri / 8,
            severity: pri % 8,
            ts,
            hostname: copy_range(b, p2, e2),
            appname: copy_nil_or(b, p3, e3),
            procid: copy_nil_or(b, p4, e4),
            msgid: copy_nil_or(b, p5, e5),
            sd,
            msg,
        };
    Ok(r)
}

/// Decodes one syslog line.
pub fn decode(line: &str) -> (r: Result<Record, DecodeError>)
    ensures
        match spec_decode(line.spec_bytes()) {
            Ok(m) => r matches Ok(x) && x@ == m,
            Err(e) => r == Err::<Record, DecodeError>(e),
        },
{
    decode_bytes(line.as_bytes())
}

/// The decoder for syslog lines in the RFC 5424 layout.
#[derive(Clone, Copy, Debug)]
pub struct RFC5424;

impl crate::Decoder for RFC5424 {
    fn decode(&self, line: &str) -> Result<Record, DecodeError> {
        decode(line)
    }
}

} // verus!
