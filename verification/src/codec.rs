//! The store's on-disk format: a compact JSON array of record objects with
//! the fields in a fixed order, text fields as unescaped printable ASCII,
//! numbers as decimal integers, and the creation time as a quoted
//! `YYYY-MM-DDTHH:MM:SSZ` stamp. The grammar is given by spec functions over
//! byte sequences; the executable parser and encoder are proved against it.

use vstd::prelude::*;

use crate::record::{text_byte, text_ok, valid_timestamp, wf_record, wf_records, views_of};
use crate::record::{Error, Record, RecordV, Timestamp};

verus! {

pub open spec fn is_digit(b: u8) -> bool {
    0x30 <= b <= 0x39
}

pub open spec fn dval(b: u8) -> int {
    b - 0x30
}

/// Greedy run of decimal digits starting at `i`, folded onto `acc`;
/// fails on a value that does not fit a `u64`.
pub open spec fn spec_digits(s: Seq<u8>, i: int, acc: u64) -> Option<(u64, int)>
    decreases s.len() - i,
{
    if 0 <= i < s.len() && is_digit(s[i]) {
        if acc * 10 + dval(s[i]) > u64::MAX {
            None
        } else {
            spec_digits(s, i + 1, (acc * 10 + dval(s[i])) as u64)
        }
    } else {
        Some((acc, i))
    }
}

/// A decimal integer: at least one digit, no leading zero.
pub open spec fn spec_number(s: Seq<u8>, i: int) -> Option<(u64, int)> {
    if 0 <= i < s.len() && is_digit(s[i]) {
        if s[i] == 0x30 && i + 1 < s.len() && is_digit(s[i + 1]) {
            None
        } else {
            spec_digits(s, i, 0)
        }
    } else {
        None
    }
}

/// The body of a quoted text field: printable unescaped bytes up to the
/// closing quote, appended onto `acc`.
pub open spec fn spec_text(s: Seq<u8>, i: int, acc: Seq<u8>) -> Option<(Seq<u8>, int)>
    decreases s.len() - i,
{
    if 0 <= i < s.len() {
        if s[i] == 0x22 {
            Some((acc, i + 1))
        } else if text_byte(s[i]) {
            spec_text(s, i + 1, acc.push(s[i]))
        } else {
            None
        }
    } else {
        None
    }
}

/// A quoted text field.
pub open spec fn spec_string(s: Seq<u8>, i: int) -> Option<(Seq<u8>, int)> {
    if 0 <= i < s.len() && s[i] == 0x22 {
        spec_text(s, i + 1, Seq::empty())
    } else {
        None
    }
}

/// The fixed byte sequence `lit`, from its position `k` on, at position `i`.
pub open spec fn spec_lit(s: Seq<u8>, i: int, lit: Seq<u8>, k: int) -> Option<int>
    decreases lit.len() - k,
{
    if k >= lit.len() {
        Some(i)
    } else if 0 <= k && 0 <= i < s.len() && s[i] == lit[k] {
        spec_lit(s, i + 1, lit, k + 1)
    } else {
        None
    }
}

/// Exactly `w` decimal digits folded onto `acc`.
pub open spec fn spec_fixed(s: Seq<u8>, i: int, w: nat, acc: u64) -> Option<(u64, int)>
    decreases w,
{
    if w == 0 {
        Some((acc, i))
    } else if 0 <= i < s.len() && is_digit(s[i]) && acc * 10 + dval(s[i]) <= u64::MAX {
        spec_fixed(s, i + 1, (w - 1) as nat, (acc * 10 + dval(s[i])) as u64)
    } else {
        None
    }
}

/// `w` digits followed by the separator byte `sep`.
pub open spec fn spec_part(s: Seq<u8>, i: int, w: nat, sep: u8) -> Option<(u64, int)> {
    match spec_fixed(s, i, w, 0) {
        Some((v, j)) => if 0 <= j < s.len() && s[j] == sep {
            Some((v, j + 1))
        } else {
            None
        },
        None => None,
    }
}

/// The first position at or after `i` that holds no digit.
pub open spec fn spec_frac_end(s: Seq<u8>, i: int) -> int
    decreases s.len() - i,
{
    if 0 <= i < s.len() && is_digit(s[i]) {
        spec_frac_end(s, i + 1)
    } else {
        i
    }
}

/// A quoted `YYYY-MM-DDTHH:MM:SSZ` stamp with calendar-shaped bounds. A
/// fractional-second part (`.` and digits before the `Z`) is accepted and
/// dropped: the store keeps whole seconds.
pub open spec fn spec_ts(s: Seq<u8>, i: int) -> Option<(Timestamp, int)> {
    if 0 <= i < s.len() && s[i] == 0x22 {
        match spec_part(s, i + 1, 4, 0x2d) {
            None => None,
            Some((y, i1)) => match spec_part(s, i1, 2, 0x2d) {
                None => None,
                Some((mo, i2)) => match spec_part(s, i2, 2, 0x54) {
                    None => None,
                    Some((d, i3)) => match spec_part(s, i3, 2, 0x3a) {
                        None => None,
                        Some((h, i4)) => match spec_part(s, i4, 2, 0x3a) {
                            None => None,
                            Some((mi, i5)) => match spec_fixed(s, i5, 2, 0) {
                                None => None,
                                Some((sec, j)) => {
                                    let j2 = if 0 <= j < s.len() && s[j] == 0x2e && j + 1 < s.len()
                                        && is_digit(s[j + 1]) {
                                        spec_frac_end(s, j + 1)
                                    } else {
                                        j
                                    };
                                    if 0 <= j2 && j2 + 1 < s.len() && s[j2] == 0x5a
                                        && s[j2 + 1] == 0x22 && y <= 9999 && 1 <= mo <= 12
                                        && 1 <= d <= 31 && h <= 23 && mi <= 59 && sec <= 59 {
                                        Some((
                                            Timestamp {
                                                year: y as u32,
                                                month: mo as u32,
                                                day: d as u32,
                                                hour: h as u32,
                                                minute: mi as u32,
                                                second: sec as u32,
                                            },
                                            j2 + 2,
                                        ))
                                    } else {
                                        None
                                    }
                                },
                            },
                        },
                    },
                },
            },
        }
    } else {
        None
    }
}

pub open spec fn lit_id() -> Seq<u8> {
    seq![0x7bu8, 0x22u8, 0x69u8, 0x64u8, 0x22u8, 0x3au8]
}

pub open spec fn lit_name() -> Seq<u8> {
    seq![0x2cu8, 0x22u8, 0x6eu8, 0x61u8, 0x6du8, 0x65u8, 0x22u8, 0x3au8]
}

pub open spec fn lit_model() -> Seq<u8> {
    seq![0x2cu8, 0x22u8, 0x6du8, 0x6fu8, 0x64u8, 0x65u8, 0x6cu8, 0x22u8, 0x3au8]
}

pub open spec fn lit_engine() -> Seq<u8> {
    seq![0x2cu8, 0x22u8, 0x65u8, 0x6eu8, 0x67u8, 0x69u8, 0x6eu8, 0x65u8, 0x22u8, 0x3au8]
}

pub open spec fn lit_category() -> Seq<u8> {
    seq![
        0x2cu8, 0x22u8, 0x63u8, 0x61u8, 0x74u8, 0x65u8, 0x67u8, 0x6fu8, 0x72u8, 0x79u8,
        0x22u8, 0x3au8,
    ]
}

pub open spec fn lit_age() -> Seq<u8> {
    seq![0x2cu8, 0x22u8, 0x61u8, 0x67u8, 0x65u8, 0x22u8, 0x3au8]
}

pub open spec fn lit_created() -> Seq<u8> {
    seq![
        0x2cu8, 0x22u8, 0x63u8, 0x72u8, 0x65u8, 0x61u8, 0x74u8, 0x65u8, 0x64u8, 0x5fu8,
        0x61u8, 0x74u8, 0x22u8, 0x3au8,
    ]
}

/// A JSON whitespace byte: space, tab, line feed or carriage return.
pub open spec fn is_ws(b: u8) -> bool {
    b == 0x20 || b == 0x09 || b == 0x0a || b == 0x0d
}

/// The first position at or after `i` that holds no whitespace byte.
pub open spec fn spec_ws_end(s: Seq<u8>, i: int) -> int
    decreases s.len() - i,
{
    if 0 <= i < s.len() && is_ws(s[i]) {
        spec_ws_end(s, i + 1)
    } else {
        i
    }
}

/// The single byte `b` as a token: whitespace before it is insignificant.
pub open spec fn spec_tok(s: Seq<u8>, i: int, b: u8) -> Option<int> {
    let j = spec_ws_end(s, i);
    if 0 <= j < s.len() && s[j] == b {
        Some(j + 1)
    } else {
        None
    }
}

pub open spec fn key_id() -> Seq<u8> {
    seq![0x22u8, 0x69u8, 0x64u8, 0x22u8]
}

pub open spec fn key_name() -> Seq<u8> {
    seq![0x22u8, 0x6eu8, 0x61u8, 0x6du8, 0x65u8, 0x22u8]
}

pub open spec fn key_model() -> Seq<u8> {
    seq![0x22u8, 0x6du8, 0x6fu8, 0x64u8, 0x65u8, 0x6cu8, 0x22u8]
}

pub open spec fn key_engine() -> Seq<u8> {
    seq![0x22u8, 0x65u8, 0x6eu8, 0x67u8, 0x69u8, 0x6eu8, 0x65u8, 0x22u8]
}

pub open spec fn key_category() -> Seq<u8> {
    seq![0x22u8, 0x63u8, 0x61u8, 0x74u8, 0x65u8, 0x67u8, 0x6fu8, 0x72u8, 0x79u8, 0x22u8]
}

pub open spec fn key_age() -> Seq<u8> {
    seq![0x22u8, 0x61u8, 0x67u8, 0x65u8, 0x22u8]
}

pub open spec fn key_created() -> Seq<u8> {
    seq![
        0x22u8, 0x63u8, 0x72u8, 0x65u8, 0x61u8, 0x74u8, 0x65u8, 0x64u8, 0x5fu8, 0x61u8,
        0x74u8, 0x22u8,
    ]
}

/// A member's quoted key followed by its colon, each a token of its own.
pub open spec fn spec_key_colon(s: Seq<u8>, i: int, key: Seq<u8>) -> Option<int> {
    match spec_lit(s, spec_ws_end(s, i), key, 0) {
        Some(j) => spec_tok(s, j, 0x3a),
        None => None,
    }
}

/// One record object, fields in the store's fixed order, with insignificant
/// whitespace allowed before every token.
#[verifier::opaque]
pub open spec fn spec_record(s: Seq<u8>, i: int) -> Option<(RecordV, int)> {
    match spec_tok(s, i, 0x7b) {
        None => None,
        Some(i1) => match spec_key_colon(s, i1, key_id()) {
            None => None,
            Some(i2) => match spec_number(s, spec_ws_end(s, i2)) {
                None => None,
                Some((id, i3)) => match spec_tok(s, i3, 0x2c) {
                    None => None,
                    Some(i4) => match spec_key_colon(s, i4, key_name()) {
                        None => None,
                        Some(i5) => match spec_string(s, spec_ws_end(s, i5)) {
                            None => None,
                            Some((name, i6)) => match spec_tok(s, i6, 0x2c) {
                                None => None,
                                Some(i7) => match spec_key_colon(s, i7, key_model()) {
                                    None => None,
                                    Some(i8) => match spec_string(s, spec_ws_end(s, i8)) {
                                        None => None,
                                        Some((model, i9)) => match spec_tok(s, i9, 0x2c) {
                                            None => None,
                                            Some(i10) => match spec_key_colon(s, i10, key_engine()) {
                                                None => None,
                                                Some(i11) => match spec_number(s, spec_ws_end(s, i11)) {
                                                    None => None,
                                                    Some((engine, i12)) => match spec_tok(s, i12, 0x2c) {
                                                        None => None,
                                                        Some(i13) => match spec_key_colon(s, i13, key_category()) {
                                                            None => None,
                                                            Some(i14) => match spec_string(s, spec_ws_end(s, i14)) {
                                                                None => None,
                                                                Some((category, i15)) => match spec_tok(s, i15, 0x2c) {
                                                                    None => None,
                                                                    Some(i16) => match spec_key_colon(s, i16, key_age()) {
                                                                        None => None,
                                                                        Some(i17) => match spec_number(s, spec_ws_end(s, i17)) {
                                                                            None => None,
                                                                            Some((age, i18)) => match spec_tok(s, i18, 0x2c) {
                                                                                None => None,
                                                                                Some(i19) => match spec_key_colon(s, i19, key_created()) {
                                                                                    None => None,
                                                                                    Some(i20) => match spec_ts(s, spec_ws_end(s, i20)) {
                                                                                        None => None,
                                                                                        Some((created_at, i21)) => match spec_tok(s, i21, 0x7d) {
                                                                                            None => None,
                                                                                            Some(i22) => Some((
                                                                                                RecordV {
                                                                                                    id,
                                                                                                    name,
                                                                                                    model,
                                                                                                    engine,
                                                                                                    category,
                                                                                                    age,
                                                                                                    created_at,
                                                                                                },
                                                                                                i22,
                                                                                            )),
                                                                                        },
                                                                                    },
                                                                                },
                                                                            },
                                                                        },
                                                                    },
                                                                },
                                                            },
                                                        },
                                                    },
                                                },
                                            },
                                        },
                                    },
                                },
                            },
                        },
                    },
                },
            },
        },
    }
}

/// After the first record of a non-empty array: `,`-separated records up to
/// the closing bracket.
pub open spec fn spec_rest(s: Seq<u8>, i: int, acc: Seq<RecordV>) -> Option<(Seq<RecordV>, int)>
    decreases s.len() - i,
{
    let k = spec_ws_end(s, i);
    if 0 <= k < s.len() && s[k] == 0x5d {
        Some((acc, k + 1))
    } else if 0 <= k < s.len() && s[k] == 0x2c {
        match spec_record(s, k + 1) {
            None => None,
            Some((r, j)) => if i < j <= s.len() {
                spec_rest(s, j, acc.push(r))
            } else {
                None
            },
        }
    } else {
        None
    }
}

/// A whole record array starting at `i`.
pub open spec fn spec_records(s: Seq<u8>, i: int) -> Option<(Seq<RecordV>, int)> {
    if 0 <= i < s.len() && s[i] == 0x5b {
        let k = spec_ws_end(s, i + 1);
        if 0 <= k < s.len() && s[k] == 0x5d {
            Some((Seq::empty(), k + 1))
        } else {
            match spec_record(s, i + 1) {
                None => None,
                Some((r, j)) => if i < j <= s.len() {
                    spec_rest(s, j, seq![r])
                } else {
                    None
                },
            }
        }
    } else {
        None
    }
}

/// What a whole store file means: a record array covering every byte, with
/// insignificant whitespace allowed around it.
pub open spec fn parsed(s: Seq<u8>) -> Option<Seq<RecordV>> {
    match spec_records(s, spec_ws_end(s, 0)) {
        Some((v, j)) => if spec_ws_end(s, j) == s.len() {
            Some(v)
        } else {
            None
        },
        None => None,
    }
}

fn parse_digits(s: &Vec<u8>, i: usize, acc: u64) -> (r: Result<(u64, usize), Error>)
    requires
        i <= s.len(),
    ensures
        (match r {
            Ok(p) => spec_digits(s@, i as int, acc) == Some((p.0, p.1 as int)) && p.1 <= s.len(),
            Err(e) => spec_digits(s@, i as int, acc) is None && e == Error::ParseFailure,
        }),
    decreases s.len() - i,
{
    if i < s.len() {
        let b = s[i];
        if 0x30 <= b && b <= 0x39 {
            let d = (b - 0x30) as u64;
            let wide: u128 = acc as u128 * 10 + d as u128;
            if wide > u64::MAX as u128 {
                return Err(Error::ParseFailure);
            }
            return parse_digits(s, i + 1, wide as u64);
        }
    }
    Ok((acc, i))
}

fn parse_number(s: &Vec<u8>, i: usize) -> (r: Result<(u64, usize), Error>)
    requires
        i <= s.len(),
    ensures
        (match r {
            Ok(p) => spec_number(s@, i as int) == Some((p.0, p.1 as int)) && p.1 <= s.len(),
            Err(e) => spec_number(s@, i as int) is None && e == Error::ParseFailure,
        }),
{
    if i < s.len() {
        let b = s[i];
        if 0x30 <= b && b <= 0x39 {
            if b == 0x30 && i + 1 < s.len() {
                let b2 = s[i + 1];
                if 0x30 <= b2 && b2 <= 0x39 {
                    return Err(Error::ParseFailure);
                }
            }
            return parse_digits(s, i, 0);
        }
    }
    Err(Error::ParseFailure)
}

fn parse_text(s: &Vec<u8>, i: usize, acc: Vec<u8>) -> (r: Result<(Vec<u8>, usize), Error>)
    requires
        i <= s.len(),
    ensures
        (match r {
            Ok(p) => spec_text(s@, i as int, acc@) == Some((p.0@, p.1 as int)) && p.1 <= s.len()
                && (text_ok(acc@) ==> text_ok(p.0@)),
            Err(e) => spec_text(s@, i as int, acc@) is None && e == Error::ParseFailure,
        }),
    decreases s.len() - i,
{
    if i < s.len() {
        let b = s[i];
        if b == 0x22 {
            return Ok((acc, i + 1));
        }
        if 0x20 <= b && b <= 0x7e && b != 0x5c {
            let mut acc2 = acc;
            acc2.push(b);
            proof {
                assert(text_ok(acc@) ==> text_ok(acc2@)) by {
                    if text_ok(acc@) {
                        assert forall|k: int| 0 <= k < acc2@.len() implies text_byte(
                            #[trigger] acc2@[k],
                        ) by {
                            if k < acc@.len() {
                                assert(text_byte(acc@[k]));
                            }
                        }
                    }
                };
            }
            return parse_text(s, i + 1, acc2);
        }
    }
    Err(Error::ParseFailure)
}

fn parse_string(s: &Vec<u8>, i: usize) -> (r: Result<(Vec<u8>, usize), Error>)
    requires
        i <= s.len(),
    ensures
        (match r {
            Ok(p) => spec_string(s@, i as int) == Some((p.0@, p.1 as int)) && p.1 <= s.len()
                && text_ok(p.0@),
            Err(e) => spec_string(s@, i as int) is None && e == Error::ParseFailure,
        }),
{
    if i < s.len() && s[i] == 0x22 {
        parse_text(s, i + 1, Vec::new())
    } else {
        Err(Error::ParseFailure)
    }
}

fn expect_lit<const N: usize>(s: &Vec<u8>, i: usize, lit: &[u8; N], k: usize) -> (r: Result<
    usize,
    Error,
>)
    requires
        i <= s.len(),
        k <= N,
    ensures
        (match r {
            Ok(j) => spec_lit(s@, i as int, lit@, k as int) == Some(j as int) && j <= s.len(),
            Err(e) => spec_lit(s@, i as int, lit@, k as int) is None && e == Error::ParseFailure,
        }),
    decreases N - k,
{
    if k == N {
        Ok(i)
    } else if i < s.len() && s[i] == lit[k] {
        expect_lit(s, i + 1, lit, k + 1)
    } else {
        Err(Error::ParseFailure)
    }
}

fn parse_fixed(s: &Vec<u8>, i: usize, w: usize, acc: u64) -> (r: Result<(u64, usize), Error>)
    requires
        i <= s.len(),
    ensures
        (match r {
            Ok(p) => spec_fixed(s@, i as int, w as nat, acc) == Some((p.0, p.1 as int)) && p.1
                <= s.len(),
            Err(e) => spec_fixed(s@, i as int, w as nat, acc) is None && e == Error::ParseFailure,
        }),
    decreases w,
{
    if w == 0 {
        return Ok((acc, i));
    }
    if i < s.len() {
        let b = s[i];
        if 0x30 <= b && b <= 0x39 {
            let d = (b - 0x30) as u64;
            let wide: u128 = acc as u128 * 10 + d as u128;
            if wide <= u64::MAX as u128 {
                return parse_fixed(s, i + 1, w - 1, wide as u64);
            }
        }
    }
    Err(Error::ParseFailure)
}

fn parse_part(s: &Vec<u8>, i: usize, w: usize, sep: u8) -> (r: Result<(u64, usize), Error>)
    requires
        i <= s.len(),
    ensures
        (match r {
            Ok(p) => spec_part(s@, i as int, w as nat, sep) == Some((p.0, p.1 as int)) && p.1
                <= s.len(),
            Err(e) => spec_part(s@, i as int, w as nat, sep) is None && e == Error::ParseFailure,
        }),
{
    let (v, j) = match parse_fixed(s, i, w, 0) {
        Ok(p) => p,
        Err(e) => {
            return Err(e);
        },
    };
    if j < s.len() && s[j] == sep {
        Ok((v, j + 1))
    } else {
        Err(Error::ParseFailure)
    }
}

fn parse_ts(s: &Vec<u8>, i: usize) -> (r: Result<(Timestamp, usize), Error>)
    requires
        i <= s.len(),
    ensures
        (match r {
            Ok(p) => spec_ts(s@, i as int) == Some((p.0, p.1 as int)) && p.1 <= s.len()
                && valid_timestamp(p.0),
            Err(e) => spec_ts(s@, i as int) is None && e == Error::ParseFailure,
        }),
{
    if !(i < s.len() && s[i] == 0x22) {
        return Err(Error::ParseFailure);
    }
    let (y, i1) = match parse_part(s, i + 1, 4, 0x2d) {
        Ok(p) => p,
        Err(e) => {
            return Err(e);
        },
    };
    let (mo, i2) = match parse_part(s, i1, 2, 0x2d) {
        Ok(p) => p,
        Err(e) => {
            return Err(e);
        },
    };
    let (d, i3) = match parse_part(s, i2, 2, 0x54) {
        Ok(p) => p,
        Err(e) => {
            return Err(e);
        },
    };
    let (h, i4) = match parse_part(s, i3, 2, 0x3a) {
        Ok(p) => p,
        Err(e) => {
            return Err(e);
        },
    };
    let (mi, i5) = match parse_part(s, i4, 2, 0x3a) {
        Ok(p) => p,
        Err(e) => {
            return Err(e);
        },
    };
    let (sec, j) = match parse_fixed(s, i5, 2, 0) {
        Ok(p) => p,
        Err(e) => {
            return Err(e);
        },
    };
    let j2: usize = if j < s.len() && s[j] == 0x2e && j + 1 < s.len() && 0x30 <= s[j + 1] && s[j
        + 1] <= 0x39 {
        frac_end(s, j + 1)
    } else {
        j
    };
    if j2 < s.len() && j2 + 1 < s.len() && s[j2] == 0x5a && s[j2 + 1] == 0x22 && y <= 9999
        && 1 <= mo && mo <= 12 && 1 <= d && d <= 31 && h <= 23 && mi <= 59 && sec <= 59 {
        Ok((
            Timestamp {
                year: y as u32,
                month: mo as u32,
                day: d as u32,
                hour: h as u32,
                minute: mi as u32,
                second: sec as u32,
            },
            j2 + 2,
        ))
    } else {
        Err(Error::ParseFailure)
    }
}

fn frac_end(s: &Vec<u8>, i: usize) -> (r: usize)
    requires
        i <= s.len(),
    ensures
        r == spec_frac_end(s@, i as int),
        i <= r <= s.len(),
    decreases s.len() - i,
{
    if i < s.len() {
        let b = s[i];
        if 0x30 <= b && b <= 0x39 {
            return frac_end(s, i + 1);
        }
    }
    i
}

fn skip_ws(s: &Vec<u8>, i: usize) -> (r: usize)
    requires
        i <= s.len(),
    ensures
        r == spec_ws_end(s@, i as int),
        i <= r <= s.len(),
    decreases s.len() - i,
{
    if i < s.len() {
        let b = s[i];
        if b == 0x20 || b == 0x09 || b == 0x0a || b == 0x0d {
            return skip_ws(s, i + 1);
        }
    }
    i
}

fn expect_tok(s: &Vec<u8>, i: usize, b: u8) -> (r: Result<usize, Error>)
    requires
        i <= s.len(),
    ensures
        (match r {
            Ok(j) => spec_tok(s@, i as int, b) == Some(j as int) && j <= s.len(),
            Err(e) => spec_tok(s@, i as int, b) is None && e == Error::ParseFailure,
        }),
{
    let j = skip_ws(s, i);
    if j < s.len() && s[j] == b {
        Ok(j + 1)
    } else {
        Err(Error::ParseFailure)
    }
}

fn expect_key_colon<const N: usize>(s: &Vec<u8>, i: usize, key: &[u8; N]) -> (r: Result<
    usize,
    Error,
>)
    requires
        i <= s.len(),
    ensures
        (match r {
            Ok(j) => spec_key_colon(s@, i as int, key@) == Some(j as int) && j <= s.len(),
            Err(e) => spec_key_colon(s@, i as int, key@) is None && e == Error::ParseFailure,
        }),
{
    let j = skip_ws(s, i);
    let k = match expect_lit(s, j, key, 0) {
        Ok(k) => k,
        Err(e) => {
            return Err(e);
        },
    };
    expect_tok(s, k, 0x3a)
}

fn arr_key_id() -> (r: [u8; 4])
    ensures
        r@ == key_id(),
{
    let r: [u8; 4] = [0x22, 0x69, 0x64, 0x22];
    proof {
        assert(r@ =~= key_id());
    }
    r
}

fn arr_key_name() -> (r: [u8; 6])
    ensures
        r@ == key_name(),
{
    let r: [u8; 6] = [0x22, 0x6e, 0x61, 0x6d, 0x65, 0x22];
    proof {
        assert(r@ =~= key_name());
    }
    r
}

fn arr_key_model() -> (r: [u8; 7])
    ensures
        r@ == key_model(),
{
    let r: [u8; 7] = [0x22, 0x6d, 0x6f, 0x64, 0x65, 0x6c, 0x22];
    proof {
        assert(r@ =~= key_model());
    }
    r
}

fn arr_key_engine() -> (r: [u8; 8])
    ensures
        r@ == key_engine(),
{
    let r: [u8; 8] = [0x22, 0x65, 0x6e, 0x67, 0x69, 0x6e, 0x65, 0x22];
    proof {
        assert(r@ =~= key_engine());
    }
    r
}

fn arr_key_category() -> (r: [u8; 10])
    ensures
        r@ == key_category(),
{
    let r: [u8; 10] = [0x22, 0x63, 0x61, 0x74, 0x65, 0x67, 0x6f, 0x72, 0x79, 0x22];
    proof {
        assert(r@ =~= key_category());
    }
    r
}

fn arr_key_age() -> (r: [u8; 5])
    ensures
        r@ == key_age(),
{
    let r: [u8; 5] = [0x22, 0x61, 0x67, 0x65, 0x22];
    proof {
        assert(r@ =~= key_age());
    }
    r
}

fn arr_key_created() -> (r: [u8; 12])
    ensures
        r@ == key_created(),
{
    let r: [u8; 12] = [0x22, 0x63, 0x72, 0x65, 0x61, 0x74, 0x65, 0x64, 0x5f, 0x61, 0x74, 0x22];
    proof {
        assert(r@ =~= key_created());
    }
    r
}

fn arr_id() -> (r: [u8; 6])
    ensures
        r@ == lit_id(),
{
    let r: [u8; 6] = [0x7b, 0x22, 0x69, 0x64, 0x22, 0x3a];
    proof {
        assert(r@ =~= lit_id());
    }
    r
}

fn arr_name() -> (r: [u8; 8])
    ensures
        r@ == lit_name(),
{
    let r: [u8; 8] = [0x2c, 0x22, 0x6e, 0x61, 0x6d, 0x65, 0x22, 0x3a];
    proof {
        assert(r@ =~= lit_name());
    }
    r
}

fn arr_model() -> (r: [u8; 9])
    ensures
        r@ == lit_model(),
{
    let r: [u8; 9] = [0x2c, 0x22, 0x6d, 0x6f, 0x64, 0x65, 0x6c, 0x22, 0x3a];
    proof {
        assert(r@ =~= lit_model());
    }
    r
}

fn arr_engine() -> (r: [u8; 10])
    ensures
        r@ == lit_engine(),
{
    let r: [u8; 10] = [0x2c, 0x22, 0x65, 0x6e, 0x67, 0x69, 0x6e, 0x65, 0x22, 0x3a];
    proof {
        assert(r@ =~= lit_engine());
    }
    r
}

fn arr_category() -> (r: [u8; 12])
    ensures
        r@ == lit_category(),
{
    let r: [u8; 12] = [0x2c, 0x22, 0x63, 0x61, 0x74, 0x65, 0x67, 0x6f, 0x72, 0x79, 0x22, 0x3a];
    proof {
        assert(r@ =~= lit_category());
    }
    r
}

fn arr_age() -> (r: [u8; 7])
    ensures
        r@ == lit_age(),
{
    let r: [u8; 7] = [0x2c, 0x22, 0x61, 0x67, 0x65, 0x22, 0x3a];
    proof {
        assert(r@ =~= lit_age());
    }
    r
}

fn arr_created() -> (r: [u8; 14])
    ensures
        r@ == lit_created(),
{
    let r: [u8; 14] = [
        0x2c,
        0x22,
        0x63,
        0x72,
        0x65,
        0x61,
        0x74,
        0x65,
        0x64,
        0x5f,
        0x61,
        0x74,
        0x22,
        0x3a,
    ];
    proof {
        assert(r@ =~= lit_created());
    }
    r
}

fn parse_record(s: &Vec<u8>, i: usize) -> (r: Result<(Record, usize), Error>)
    requires
        i <= s.len(),
    ensures
        (match r {
            Ok(p) => spec_record(s@, i as int) == Some((p.0@, p.1 as int)) && p.1 <= s.len()
                && wf_record(p.0@),
            Err(e) => spec_record(s@, i as int) is None && e == Error::ParseFailure,
        }),
{
    proof {
        reveal(spec_record);
    }
    let i1 = match expect_tok(s, i, 0x7b) {
        Ok(j) => j,
        Err(e) => {
            return Err(e);
        },
    };
    let k_id = arr_key_id();
    let i2 = match expect_key_colon(s, i1, &k_id) {
        Ok(j) => j,
        Err(e) => {
            return Err(e);
        },
    };
    let (id, i3) = match parse_number(s, skip_ws(s, i2)) {
        Ok(p) => p,
        Err(e) => {
            return Err(e);
        },
    };
    let i4 = match expect_tok(s, i3, 0x2c) {
        Ok(j) => j,
        Err(e) => {
            return Err(e);
        },
    };
    let k_name = arr_key_name();
    let i5 = match expect_key_colon(s, i4, &k_name) {
        Ok(j) => j,
        Err(e) => {
            return Err(e);
        },
    };
    let (name, i6) = match parse_string(s, skip_ws(s, i5)) {
        Ok(p) => p,
        Err(e) => {
            return Err(e);
        },
    };
    let i7 = match expect_tok(s, i6, 0x2c) {
        Ok(j) => j,
        Err(e) => {
            return Err(e);
        },
    };
    let k_model = arr_key_model();
    let i8 = match expect_key_colon(s, i7, &k_model) {
        Ok(j) => j,
        Err(e) => {
            return Err(e);
        },
    };
    let (model, i9) = match parse_string(s, skip_ws(s, i8)) {
        Ok(p) => p,
        Err(e) => {
            return Err(e);
        },
    };
    let i10 = match expect_tok(s, i9, 0x2c) {
        Ok(j) => j,
        Err(e) => {
            return Err(e);
        },
    };
    let k_engine = arr_key_engine();
    let i11 = match expect_key_colon(s, i10, &k_engine) {
        Ok(j) => j,
        Err(e) => {
            return Err(e);
        },
    };
    let (engine, i12) = match parse_number(s, skip_ws(s, i11)) {
        Ok(p) => p,
        Err(e) => {
            return Err(e);
        },
    };
    let i13 = match expect_tok(s, i12, 0x2c) {
        Ok(j) => j,
        Err(e) => {
            return Err(e);
        },
    };
    let k_category = arr_key_category();
    let i14 = match expect_key_colon(s, i13, &k_category) {
        Ok(j) => j,
        Err(e) => {
            return Err(e);
        },
    };
    let (category, i15) = match parse_string(s, skip_ws(s, i14)) {
        Ok(p) => p,
        Err(e) => {
            return Err(e);
        },
    };
    let i16 = match expect_tok(s, i15, 0x2c) {
        Ok(j) => j,
        Err(e) => {
            return Err(e);
        },
    };
    let k_age = arr_key_age();
    let i17 = match expect_key_colon(s, i16, &k_age) {
        Ok(j) => j,
        Err(e) => {
            return Err(e);
        },
    };
    let (age, i18) = match parse_number(s, skip_ws(s, i17)) {
        Ok(p) => p,
        Err(e) => {
            return Err(e);
        },
    };
    let i19 = match expect_tok(s, i18, 0x2c) {
        Ok(j) => j,
        Err(e) => {
            return Err(e);
        },
    };
    let k_created = arr_key_created();
    let i20 = match expect_key_colon(s, i19, &k_created) {
        Ok(j) => j,
        Err(e) => {
            return Err(e);
        },
    };
    let (created_at, i21) = match parse_ts(s, skip_ws(s, i20)) {
        Ok(p) => p,
        Err(e) => {
            return Err(e);
        },
    };
    let i22 = match expect_tok(s, i21, 0x7d) {
        Ok(j) => j,
        Err(e) => {
            return Err(e);
        },
    };
    let rec = Record { id, name, model, engine, category, age, created_at };
    Ok((rec, i22))
}

fn parse_rest(s: &Vec<u8>, i: usize, acc: Vec<Record>) -> (r: Result<(Vec<Record>, usize), Error>)
    requires
        i <= s.len(),
    ensures
        (match r {
            Ok(p) => spec_rest(s@, i as int, views_of(acc@)) == Some((views_of(p.0@), p.1 as int))
                && p.1 <= s.len() && (wf_records(views_of(acc@)) ==> wf_records(views_of(p.0@))),
            Err(e) => spec_rest(s@, i as int, views_of(acc@)) is None && e == Error::ParseFailure,
        }),
    decreases s.len() - i,
{
    let k = skip_ws(s, i);
    if k < s.len() && s[k] == 0x5d {
        return Ok((acc, k + 1));
    }
    if k < s.len() && s[k] == 0x2c {
        let (rec, j) = match parse_record(s, k + 1) {
            Ok(p) => p,
            Err(e) => {
                return Err(e);
            },
        };
        if j <= i {
            return Err(Error::ParseFailure);
        }
        let mut acc2 = acc;
        let ghost old_views = views_of(acc2@);
        acc2.push(rec);
        proof {
            assert(views_of(acc2@) =~= old_views.push(rec@));
            assert(wf_records(old_views) ==> wf_records(views_of(acc2@))) by {
                if wf_records(old_views) {
                    assert forall|k: int| 0 <= k < views_of(acc2@).len() implies wf_record(
                        #[trigger] views_of(acc2@)[k],
                    ) by {
                        if k < old_views.len() {
                            assert(wf_record(old_views[k]));
                        }
                    }
                }
            };
        }
        return parse_rest(s, j, acc2);
    }
    Err(Error::ParseFailure)
}

/// Reads a whole store file. Returns the record sequence exactly when the
/// content is a well-formed record array, and `ParseFailure` otherwise.
pub fn parse_records(s: &Vec<u8>) -> (r: Result<Vec<Record>, Error>)
    ensures
        (match r {
            Ok(v) => parsed(s@) == Some(views_of(v@)) && wf_records(views_of(v@)),
            Err(e) => parsed(s@) is None && e == Error::ParseFailure,
        }),
{
    let start = skip_ws(s, 0);
    if !(start < s.len() && s[start] == 0x5b) {
        return Err(Error::ParseFailure);
    }
    let inner = skip_ws(s, start + 1);
    if inner < s.len() && s[inner] == 0x5d {
        if skip_ws(s, inner + 1) == s.len() {
            let empty: Vec<Record> = Vec::new();
            proof {
                assert(views_of(empty@) =~= Seq::<RecordV>::empty());
            }
            return Ok(empty);
        }
        return Err(Error::ParseFailure);
    }
    let (rec, j) = match parse_record(s, start + 1) {
        Ok(p) => p,
        Err(e) => {
            return Err(e);
        },
    };
    if j <= start {
        return Err(Error::ParseFailure);
    }
    let mut first: Vec<Record> = Vec::new();
    first.push(rec);
    proof {
        assert(views_of(first@) =~= seq![rec@]);
    }
    let (v, end) = match parse_rest(s, j, first) {
        Ok(p) => p,
        Err(e) => {
            return Err(e);
        },
    };
    if skip_ws(s, end) == s.len() {
        Ok(v)
    } else {
        Err(Error::ParseFailure)
    }
}

} // verus!

verus! {

/// The decimal digits of `n`, most significant first.
pub open spec fn spec_u64_digits(n: u64) -> Seq<u8>
    decreases n,
{
    if n < 10 {
        seq![(0x30 + n) as u8]
    } else {
        spec_u64_digits((n / 10) as u64).push((0x30 + n % 10) as u8)
    }
}

/// `n` written as exactly `w` decimal digits, zero-padded.
pub open spec fn spec_pad(n: int, w: nat) -> Seq<u8>
    decreases w,
{
    if w == 0 {
        Seq::empty()
    } else {
        spec_pad(n / 10, (w - 1) as nat).push((0x30 + n % 10) as u8)
    }
}

pub open spec fn pow10(w: nat) -> int
    decreases w,
{
    if w == 0 {
        1
    } else {
        10 * pow10((w - 1) as nat)
    }
}

pub open spec fn quoted(t: Seq<u8>) -> Seq<u8> {
    seq![0x22u8] + t + seq![0x22u8]
}

/// The stored form of a timestamp: a quoted `YYYY-MM-DDTHH:MM:SSZ` stamp.
pub open spec fn ts_bytes(t: Timestamp) -> Seq<u8> {
    seq![0x22u8] + spec_pad(t.year as int, 4) + seq![0x2du8] + spec_pad(t.month as int, 2)
        + seq![0x2du8] + spec_pad(t.day as int, 2) + seq![0x54u8] + spec_pad(t.hour as int, 2)
        + seq![0x3au8] + spec_pad(t.minute as int, 2) + seq![0x3au8] + spec_pad(
        t.second as int,
        2,
    ) + seq![0x5au8, 0x22u8]
}

/// The stored form of one record.
pub open spec fn record_bytes(r: RecordV) -> Seq<u8> {
    lit_id() + spec_u64_digits(r.id) + lit_name() + quoted(r.name) + lit_model() + quoted(r.model)
        + lit_engine() + spec_u64_digits(r.engine) + lit_category() + quoted(r.category)
        + lit_age() + spec_u64_digits(r.age) + lit_created() + ts_bytes(r.created_at)
        + seq![0x7du8]
}

/// The stored form of everything after a non-empty array's first record.
pub open spec fn rest_bytes(s: Seq<RecordV>) -> Seq<u8>
    decreases s.len(),
{
    if s.len() == 0 {
        seq![0x5du8]
    } else {
        seq![0x2cu8] + record_bytes(s[0]) + rest_bytes(s.skip(1))
    }
}

/// The stored form of a whole record sequence.
pub open spec fn records_bytes(s: Seq<RecordV>) -> Seq<u8> {
    if s.len() == 0 {
        seq![0x5bu8, 0x5du8]
    } else {
        seq![0x5bu8] + record_bytes(s[0]) + rest_bytes(s.skip(1))
    }
}

pub(crate) fn push_u64(out: &mut Vec<u8>, n: u64)
    ensures
        final(out)@ == old(out)@ + spec_u64_digits(n),
    decreases n,
{
    if n < 10 {
        out.push(0x30 + n as u8);
        proof {
            assert(out@ =~= old(out)@ + spec_u64_digits(n));
        }
    } else {
        push_u64(out, n / 10);
        out.push(0x30 + (n % 10) as u8);
        proof {
            assert(out@ =~= old(out)@ + spec_u64_digits(n));
        }
    }
}

pub(crate) fn push_pad(out: &mut Vec<u8>, n: u64, w: usize)
    ensures
        final(out)@ == old(out)@ + spec_pad(n as int, w as nat),
    decreases w,
{
    if w == 0 {
        proof {
            assert(out@ =~= old(out)@ + spec_pad(n as int, 0));
        }
    } else {
        push_pad(out, n / 10, w - 1);
        out.push(0x30 + (n % 10) as u8);
        proof {
            assert(out@ =~= old(out)@ + spec_pad(n as int, w as nat));
        }
    }
}

fn push_lit<const N: usize>(out: &mut Vec<u8>, lit: &[u8; N])
    ensures
        final(out)@ == old(out)@ + lit@,
{
    let mut k: usize = 0;
    while k < N
        invariant
            k <= N,
            out@ == old(out)@ + lit@.take(k as int),
        decreases N - k,
    {
        out.push(lit[k]);
        proof {
            assert(out@ =~= old(out)@ + lit@.take(k + 1 as int));
        }
        k = k + 1;
    }
    proof {
        assert(lit@.take(N as int) =~= lit@);
    }
}

pub(crate) fn push_text(out: &mut Vec<u8>, t: &Vec<u8>)
    ensures
        final(out)@ == old(out)@ + t@,
{
    let mut k: usize = 0;
    while k < t.len()
        invariant
            k <= t.len(),
            out@ == old(out)@ + t@.take(k as int),
        decreases t.len() - k,
    {
        out.push(t[k]);
        proof {
            assert(out@ =~= old(out)@ + t@.take(k + 1 as int));
        }
        k = k + 1;
    }
    proof {
        assert(t@.take(t@.len() as int) =~= t@);
    }
}

fn push_string(out: &mut Vec<u8>, t: &Vec<u8>)
    ensures
        final(out)@ == old(out)@ + quoted(t@),
{
    out.push(0x22);
    push_text(out, t);
    out.push(0x22);
    proof {
        assert(out@ =~= old(out)@ + quoted(t@));
    }
}

fn push_ts(out: &mut Vec<u8>, t: &Timestamp)
    ensures
        final(out)@ == old(out)@ + ts_bytes(*t),
{
    out.push(0x22);
    push_pad(out, t.year as u64, 4);
    out.push(0x2d);
    push_pad(out, t.month as u64, 2);
    out.push(0x2d);
    push_pad(out, t.day as u64, 2);
    out.push(0x54);
    push_pad(out, t.hour as u64, 2);
    out.push(0x3a);
    push_pad(out, t.minute as u64, 2);
    out.push(0x3a);
    push_pad(out, t.second as u64, 2);
    out.push(0x5a);
    out.push(0x22);
    proof {
        assert(out@ =~= old(out)@ + ts_bytes(*t));
    }
}

fn encode_record(out: &mut Vec<u8>, r: &Record)
    ensures
        final(out)@ == old(out)@ + record_bytes(r@),
{
    let a_id = arr_id();
    push_lit(out, &a_id);
    push_u64(out, r.id);
    let a_name = arr_name();
    push_lit(out, &a_name);
    push_string(out, &r.name);
    let a_model = arr_model();
    push_lit(out, &a_model);
    push_string(out, &r.model);
    let a_engine = arr_engine();
    push_lit(out, &a_engine);
    push_u64(out, r.engine);
    let a_category = arr_category();
    push_lit(out, &a_category);
    push_string(out, &r.category);
    let a_age = arr_age();
    push_lit(out, &a_age);
    push_u64(out, r.age);
    let a_created = arr_created();
    push_lit(out, &a_created);
    push_ts(out, &r.created_at);
    out.push(0x7d);
    proof {
        assert(out@ =~= old(out)@ + record_bytes(r@));
    }
}

fn encode_rest(out: &mut Vec<u8>, rs: &Vec<Record>, k: usize)
    requires
        k <= rs.len(),
    ensures
        final(out)@ == old(out)@ + rest_bytes(views_of(rs@).skip(k as int)),
    decreases rs.len() - k,
{
    if k == rs.len() {
        out.push(0x5d);
        proof {
            assert(views_of(rs@).skip(k as int).len() == 0);
            assert(out@ =~= old(out)@ + rest_bytes(views_of(rs@).skip(k as int)));
        }
    } else {
        out.push(0x2c);
        encode_record(out, &rs[k]);
        encode_rest(out, rs, k + 1);
        proof {
            let vs = views_of(rs@);
            assert(vs.skip(k as int)[0] == rs@[k as int]@);
            assert(vs.skip(k as int).skip(1) =~= vs.skip(k + 1 as int));
            assert(out@ =~= old(out)@ + rest_bytes(vs.skip(k as int)));
        }
    }
}

/// Writes a record sequence in the store's on-disk form. The output always
/// parses back to exactly the records that were written, so a later `load`
/// of what `write` produced recovers the same sequence.
pub fn encode_records(rs: &Vec<Record>) -> (out: Vec<u8>)
    ensures
        out@ == records_bytes(views_of(rs@)),
        wf_records(views_of(rs@)) ==> parsed(out@) == Some(views_of(rs@)),
{
    let mut out: Vec<u8> = Vec::new();
    out.push(0x5b);
    if rs.len() == 0 {
        out.push(0x5d);
        proof {
            assert(out@ =~= records_bytes(views_of(rs@)));
            if wf_records(views_of(rs@)) {
                lemma_records_bytes_parse(views_of(rs@));
            }
        }
        return out;
    }
    encode_record(&mut out, &rs[0]);
    encode_rest(&mut out, rs, 1);
    proof {
        let vs = views_of(rs@);
        assert(vs[0] == rs@[0]@);
        assert(out@ =~= records_bytes(vs));
        if wf_records(vs) {
            lemma_records_bytes_parse(vs);
        }
    }
    out
}

} // verus!

verus! {

use vstd::arithmetic::div_mod::lemma_fundamental_div_mod;

spec fn spec_fold(s: Seq<u8>, i: int, j: int, acc: u64) -> Option<(u64, int)>
    decreases j - i,
{
    if i >= j {
        Some((acc, i))
    } else if acc * 10 + dval(s[i]) > u64::MAX {
        None
    } else {
        spec_fold(s, i + 1, j, (acc * 10 + dval(s[i])) as u64)
    }
}

proof fn lemma_digits_is_fold(s: Seq<u8>, i: int, j: int, acc: u64)
    requires
        0 <= i <= j <= s.len(),
        forall|k: int| i <= k < j ==> is_digit(#[trigger] s[k]),
        j == s.len() || !is_digit(s[j]),
    ensures
        spec_digits(s, i, acc) == spec_fold(s, i, j, acc),
    decreases j - i,
{
    if i >= j {
    } else {
        assert(is_digit(s[i]));
        if acc * 10 + dval(s[i]) > u64::MAX {
        } else {
            lemma_digits_is_fold(s, i + 1, j, (acc * 10 + dval(s[i])) as u64);
        }
    }
}

proof fn lemma_fold_snoc(s: Seq<u8>, i: int, j: int, acc: u64)
    requires
        0 <= i < j <= s.len(),
    ensures
        spec_fold(s, i, j, acc) == (match spec_fold(s, i, j - 1, acc) {
            Some(p) => if p.0 * 10 + dval(s[j - 1]) > u64::MAX {
                None::<(u64, int)>
            } else {
                Some(((p.0 * 10 + dval(s[j - 1])) as u64, j))
            },
            None => None::<(u64, int)>,
        }),
    decreases j - i,
{
    if i + 1 == j {
    } else {
        if acc * 10 + dval(s[i]) > u64::MAX {
        } else {
            lemma_fold_snoc(s, i + 1, j, (acc * 10 + dval(s[i])) as u64);
        }
    }
}

proof fn lemma_fold_digits_of(s: Seq<u8>, i: int, n: u64)
    requires
        0 <= i,
        i + spec_u64_digits(n).len() <= s.len(),
        forall|k: int|
            0 <= k < spec_u64_digits(n).len() ==> s[i + k] == #[trigger] spec_u64_digits(n)[k],
    ensures
        spec_fold(s, i, i + spec_u64_digits(n).len(), 0) == Some(
            (n, i + spec_u64_digits(n).len() as int),
        ),
    decreases n,
{
    let ds = spec_u64_digits(n);
    if n < 10 {
        assert(ds.len() == 1);
        assert(s[i] == ds[0]);
        assert(dval(s[i]) == n);
        assert(spec_fold(s, i + 1, i + 1, n) == Some((n, i + 1)));
    } else {
        let m = (n / 10) as u64;
        let dm = spec_u64_digits(m);
        assert(ds == dm.push((0x30 + n % 10) as u8));
        assert forall|k: int| 0 <= k < dm.len() implies s[i + k] == #[trigger] dm[k] by {
            assert(s[i + k] == ds[k]);
            assert(ds[k] == dm[k]);
        }
        lemma_fold_digits_of(s, i, m);
        lemma_fold_snoc(s, i, i + ds.len(), 0);
        assert(s[i + ds.len() - 1] == ds[ds.len() - 1]);
        assert(dval(s[i + ds.len() - 1]) == n % 10);
        lemma_fundamental_div_mod(n as int, 10);
        assert(m * 10 + n % 10 == n);
    }
}

proof fn lemma_digits_props(n: u64)
    ensures
        spec_u64_digits(n).len() >= 1,
        forall|k: int|
            0 <= k < spec_u64_digits(n).len() ==> is_digit(#[trigger] spec_u64_digits(n)[k]),
        n >= 1 ==> spec_u64_digits(n)[0] != 0x30,
        n == 0 ==> spec_u64_digits(n) == seq![0x30u8],
    decreases n,
{
    if n < 10 {
        assert(spec_u64_digits(n) == seq![(0x30 + n) as u8]);
    } else {
        let m = (n / 10) as u64;
        lemma_digits_props(m);
        let dm = spec_u64_digits(m);
        let ds = spec_u64_digits(n);
        assert(ds == dm.push((0x30 + n % 10) as u8));
        assert(m >= 1);
        assert(ds[0] == dm[0]);
        assert forall|k: int| 0 <= k < ds.len() implies is_digit(#[trigger] ds[k]) by {
            if k < dm.len() {
                assert(is_digit(dm[k]));
            }
        }
    }
}

proof fn lemma_number_at(s: Seq<u8>, i: int, n: u64)
    requires
        0 <= i,
        i + spec_u64_digits(n).len() <= s.len(),
        forall|k: int|
            0 <= k < spec_u64_digits(n).len() ==> s[i + k] == #[trigger] spec_u64_digits(n)[k],
        i + spec_u64_digits(n).len() == s.len() || !is_digit(s[i + spec_u64_digits(n).len()]),
    ensures
        spec_number(s, i) == Some((n, i + spec_u64_digits(n).len() as int)),
{
    let ds = spec_u64_digits(n);
    let j = i + ds.len();
    lemma_digits_props(n);
    assert(s[i] == ds[0]);
    assert(is_digit(s[i]));
    assert forall|k: int| i <= k < j implies is_digit(#[trigger] s[k]) by {
        assert(s[k] == ds[k - i]);
        assert(is_digit(ds[k - i]));
    }
    lemma_digits_is_fold(s, i, j, 0);
    lemma_fold_digits_of(s, i, n);
    if s[i] == 0x30 {
        assert(ds[0] == 0x30);
        assert(n == 0);
        assert(ds.len() == 1);
    }
}

pub(crate) proof fn lemma_pad_props(n: int, w: nat)
    requires
        0 <= n,
    ensures
        spec_pad(n, w).len() == w,
        forall|k: int| 0 <= k < w ==> is_digit(#[trigger] spec_pad(n, w)[k]),
    decreases w,
{
    if w == 0 {
    } else {
        lemma_fundamental_div_mod(n, 10);
        lemma_pad_props(n / 10, (w - 1) as nat);
        let pm = spec_pad(n / 10, (w - 1) as nat);
        let ps = spec_pad(n, w);
        assert(ps == pm.push((0x30 + n % 10) as u8));
        assert forall|k: int| 0 <= k < w implies is_digit(#[trigger] ps[k]) by {
            if k < pm.len() {
                assert(is_digit(pm[k]));
            }
        }
    }
}

proof fn lemma_fixed_snoc(s: Seq<u8>, i: int, w: nat, acc: u64)
    requires
        w >= 1,
        0 <= i,
        i + w <= s.len(),
        forall|k: int| i <= k < i + w ==> is_digit(#[trigger] s[k]),
    ensures
        spec_fixed(s, i, w, acc) == (match spec_fixed(s, i, (w - 1) as nat, acc) {
            Some(p) => if p.0 * 10 + dval(s[i + w - 1]) > u64::MAX {
                None::<(u64, int)>
            } else {
                Some(((p.0 * 10 + dval(s[i + w - 1])) as u64, i + w))
            },
            None => None::<(u64, int)>,
        }),
    decreases w,
{
    assert(is_digit(s[i]));
    if w == 1 {
    } else {
        if acc * 10 + dval(s[i]) > u64::MAX {
        } else {
            lemma_fixed_snoc(s, i + 1, (w - 1) as nat, (acc * 10 + dval(s[i])) as u64);
        }
    }
}

proof fn lemma_pad_parse(s: Seq<u8>, i: int, n: int, w: nat)
    requires
        0 <= i,
        i + w <= s.len(),
        0 <= n < pow10(w),
        pow10(w) <= u64::MAX,
        forall|k: int| 0 <= k < w ==> s[i + k] == #[trigger] spec_pad(n, w)[k],
    ensures
        spec_fixed(s, i, w, 0) == Some((n as u64, i + w)),
    decreases w,
{
    lemma_pad_props(n, w);
    if w == 0 {
        assert(pow10(0) == 1);
        assert(n == 0);
    } else {
        let m = n / 10;
        lemma_fundamental_div_mod(n, 10);
        assert(pow10(w) == 10 * pow10((w - 1) as nat));
        assert(0 <= m);
        assert(m < pow10((w - 1) as nat));
        let ps = spec_pad(n, w);
        let pm = spec_pad(m, (w - 1) as nat);
        assert(ps == pm.push((0x30 + n % 10) as u8));
        lemma_pad_props(m, (w - 1) as nat);
        assert forall|k: int| 0 <= k < (w - 1) implies s[i + k] == #[trigger] pm[k] by {
            assert(s[i + k] == ps[k]);
            assert(ps[k] == pm[k]);
        }
        lemma_pad_parse(s, i, m, (w - 1) as nat);
        assert forall|k: int| i <= k < i + w implies is_digit(#[trigger] s[k]) by {
            assert(s[k] == ps[k - i]);
            assert(is_digit(ps[k - i]));
        }
        lemma_fixed_snoc(s, i, w, 0);
        assert(s[i + w - 1] == ps[w - 1]);
        assert(dval(s[i + w - 1]) == n % 10);
        assert(m * 10 + n % 10 == n);
    }
}

proof fn lemma_part_at(s: Seq<u8>, i: int, n: int, w: nat, sep: u8)
    requires
        0 <= i,
        i + w + 1 <= s.len(),
        0 <= n < pow10(w),
        pow10(w) <= u64::MAX,
        forall|k: int| 0 <= k < w ==> s[i + k] == #[trigger] spec_pad(n, w)[k],
        s[i + w] == sep,
    ensures
        spec_part(s, i, w, sep) == Some((n as u64, i + w + 1)),
{
    lemma_pad_parse(s, i, n, w);
}

proof fn lemma_text_at(s: Seq<u8>, i: int, t: Seq<u8>, acc: Seq<u8>)
    requires
        0 <= i,
        i + t.len() < s.len(),
        text_ok(t),
        forall|k: int| 0 <= k < t.len() ==> s[i + k] == #[trigger] t[k],
        s[i + t.len()] == 0x22,
    ensures
        spec_text(s, i, acc) == Some((acc + t, i + t.len() + 1)),
    decreases t.len(),
{
    if t.len() == 0 {
        assert(s[i] == 0x22);
        assert(acc + t =~= acc);
    } else {
        assert(s[i] == t[0]);
        assert(text_byte(t[0]));
        let t2 = t.skip(1);
        assert forall|k: int| 0 <= k < t2.len() implies s[i + 1 + k] == #[trigger] t2[k] by {
            assert(t2[k] == t[k + 1]);
            assert(s[i + 1 + k] == t[k + 1]);
        }
        assert(text_ok(t2)) by {
            assert forall|k: int| 0 <= k < t2.len() implies text_byte(#[trigger] t2[k]) by {
                assert(t2[k] == t[k + 1]);
            }
        }
        lemma_text_at(s, i + 1, t2, acc.push(t[0]));
        assert(acc.push(t[0]) + t2 =~= acc + t);
    }
}

proof fn lemma_string_at(s: Seq<u8>, i: int, t: Seq<u8>)
    requires
        0 <= i,
        i + t.len() + 2 <= s.len(),
        text_ok(t),
        s[i] == 0x22,
        forall|k: int| 0 <= k < t.len() ==> s[i + 1 + k] == #[trigger] t[k],
        s[i + 1 + t.len()] == 0x22,
    ensures
        spec_string(s, i) == Some((t, i + t.len() + 2)),
{
    lemma_text_at(s, i + 1, t, Seq::empty());
    assert(Seq::empty() + t =~= t);
}

proof fn lemma_pow10_small()
    ensures
        pow10(0) == 1,
        pow10(1) == 10,
        pow10(2) == 100,
        pow10(3) == 1000,
        pow10(4) == 10000,
{
    assert(pow10(0) == 1);
    assert(pow10(1) == 10);
    assert(pow10(2) == 100);
    assert(pow10(3) == 1000);
    assert(pow10(4) == 10000);
}

proof fn lemma_ts_at(s: Seq<u8>, i: int, t: Timestamp)
    requires
        0 <= i,
        valid_timestamp(t),
        i + ts_bytes(t).len() <= s.len(),
        forall|k: int| 0 <= k < ts_bytes(t).len() ==> s[i + k] == #[trigger] ts_bytes(t)[k],
    ensures
        ts_bytes(t).len() == 22,
        spec_ts(s, i) == Some((t, i + 22)),
{
    let tb = ts_bytes(t);
    lemma_pow10_small();
    lemma_pad_props(t.year as int, 4);
    lemma_pad_props(t.month as int, 2);
    lemma_pad_props(t.day as int, 2);
    lemma_pad_props(t.hour as int, 2);
    lemma_pad_props(t.minute as int, 2);
    lemma_pad_props(t.second as int, 2);
    assert(tb.len() == 22);
    assert(s[i] == tb[0]);
    assert(tb[0] == 0x22);
    assert forall|k: int| 0 <= k < 4 implies s[i + 1 + k] == #[trigger] spec_pad(
        t.year as int,
        4,
    )[k] by {
        assert(tb[1 + k] == spec_pad(t.year as int, 4)[k]);
        assert(s[i + 1 + k] == tb[1 + k]);
    }
    assert(s[i + 5] == tb[5]);
    assert(tb[5] == 0x2d);
    lemma_part_at(s, i + 1, t.year as int, 4, 0x2d);
    assert forall|k: int| 0 <= k < 2 implies s[i + 6 + k] == #[trigger] spec_pad(
        t.month as int,
        2,
    )[k] by {
        assert(tb[6 + k] == spec_pad(t.month as int, 2)[k]);
        assert(s[i + 6 + k] == tb[6 + k]);
    }
    assert(s[i + 8] == tb[8]);
    assert(tb[8] == 0x2d);
    lemma_part_at(s, i + 6, t.month as int, 2, 0x2d);
    assert forall|k: int| 0 <= k < 2 implies s[i + 9 + k] == #[trigger] spec_pad(
        t.day as int,
        2,
    )[k] by {
        assert(tb[9 + k] == spec_pad(t.day as int, 2)[k]);
        assert(s[i + 9 + k] == tb[9 + k]);
    }
    assert(s[i + 11] == tb[11]);
    assert(tb[11] == 0x54);
    lemma_part_at(s, i + 9, t.day as int, 2, 0x54);
    assert forall|k: int| 0 <= k < 2 implies s[i + 12 + k] == #[trigger] spec_pad(
        t.hour as int,
        2,
    )[k] by {
        assert(tb[12 + k] == spec_pad(t.hour as int, 2)[k]);
        assert(s[i + 12 + k] == tb[12 + k]);
    }
    assert(s[i + 14] == tb[14]);
    assert(tb[14] == 0x3a);
    lemma_part_at(s, i + 12, t.hour as int, 2, 0x3a);
    assert forall|k: int| 0 <= k < 2 implies s[i + 15 + k] == #[trigger] spec_pad(
        t.minute as int,
        2,
    )[k] by {
        assert(tb[15 + k] == spec_pad(t.minute as int, 2)[k]);
        assert(s[i + 15 + k] == tb[15 + k]);
    }
    assert(s[i + 17] == tb[17]);
    assert(tb[17] == 0x3a);
    lemma_part_at(s, i + 15, t.minute as int, 2, 0x3a);
    assert forall|k: int| 0 <= k < 2 implies s[i + 18 + k] == #[trigger] spec_pad(
        t.second as int,
        2,
    )[k] by {
        assert(tb[18 + k] == spec_pad(t.second as int, 2)[k]);
        assert(s[i + 18 + k] == tb[18 + k]);
    }
    assert(s[i + 20] == tb[20]);
    assert(tb[20] == 0x5a);
    lemma_part_at(s, i + 18, t.second as int, 2, 0x5a);
    assert(s[i + 21] == tb[21]);
    assert(tb[21] == 0x22);
}

} // verus!

verus! {

proof fn lemma_lit_at(s: Seq<u8>, i: int, lit: Seq<u8>, k: int)
    requires
        0 <= k <= lit.len(),
        0 <= i,
        i + (lit.len() - k) <= s.len(),
        forall|j: int| k <= j < lit.len() ==> s[i + (j - k)] == #[trigger] lit[j],
    ensures
        spec_lit(s, i, lit, k) == Some(i + lit.len() - k),
    decreases lit.len() - k,
{
    if k >= lit.len() {
    } else {
        assert(s[i] == lit[k]);
        lemma_lit_at(s, i + 1, lit, k + 1);
    }
}

proof fn lemma_ts_len(t: Timestamp)
    ensures
        ts_bytes(t).len() == 22,
{
    lemma_pad_props(t.year as int, 4);
    lemma_pad_props(t.month as int, 2);
    lemma_pad_props(t.day as int, 2);
    lemma_pad_props(t.hour as int, 2);
    lemma_pad_props(t.minute as int, 2);
    lemma_pad_props(t.second as int, 2);
}

/// Every token- and value-level fact that holds where the stored form of `r`
/// sits at position `i` of `s`: the scrutinees of `spec_record`'s chain, each
/// with its exact result.
spec fn record_chain_facts(s: Seq<u8>, i: int, r: RecordV) -> bool {
    let o1 = 6int;
    let o2 = o1 + spec_u64_digits(r.id).len();
    let o3 = o2 + 8;
    let o4 = o3 + r.name.len() + 2;
    let o5 = o4 + 9;
    let o6 = o5 + r.model.len() + 2;
    let o7 = o6 + 10;
    let o8 = o7 + spec_u64_digits(r.engine).len();
    let o9 = o8 + 12;
    let o10 = o9 + r.category.len() + 2;
    let o11 = o10 + 7;
    let o12 = o11 + spec_u64_digits(r.age).len();
    let o13 = o12 + 14;
    let o14 = o13 + 22;
    &&& record_bytes(r).len() == o14 + 1
    &&& spec_tok(s, i, 0x7b) == Some(i + 1)
    &&& spec_key_colon(s, i + 1, key_id()) == Some(i + o1)
    &&& spec_ws_end(s, i + o1) == i + o1
    &&& spec_number(s, i + o1) == Some((r.id, i + o2))
    &&& spec_tok(s, i + o2, 0x2c) == Some(i + o2 + 1)
    &&& spec_key_colon(s, i + o2 + 1, key_name()) == Some(i + o3)
    &&& spec_ws_end(s, i + o3) == i + o3
    &&& spec_string(s, i + o3) == Some((r.name, i + o4))
    &&& spec_tok(s, i + o4, 0x2c) == Some(i + o4 + 1)
    &&& spec_key_colon(s, i + o4 + 1, key_model()) == Some(i + o5)
    &&& spec_ws_end(s, i + o5) == i + o5
    &&& spec_string(s, i + o5) == Some((r.model, i + o6))
    &&& spec_tok(s, i + o6, 0x2c) == Some(i + o6 + 1)
    &&& spec_key_colon(s, i + o6 + 1, key_engine()) == Some(i + o7)
    &&& spec_ws_end(s, i + o7) == i + o7
    &&& spec_number(s, i + o7) == Some((r.engine, i + o8))
    &&& spec_tok(s, i + o8, 0x2c) == Some(i + o8 + 1)
    &&& spec_key_colon(s, i + o8 + 1, key_category()) == Some(i + o9)
    &&& spec_ws_end(s, i + o9) == i + o9
    &&& spec_string(s, i + o9) == Some((r.category, i + o10))
    &&& spec_tok(s, i + o10, 0x2c) == Some(i + o10 + 1)
    &&& spec_key_colon(s, i + o10 + 1, key_age()) == Some(i + o11)
    &&& spec_ws_end(s, i + o11) == i + o11
    &&& spec_number(s, i + o11) == Some((r.age, i + o12))
    &&& spec_tok(s, i + o12, 0x2c) == Some(i + o12 + 1)
    &&& spec_key_colon(s, i + o12 + 1, key_created()) == Some(i + o13)
    &&& spec_ws_end(s, i + o13) == i + o13
    &&& spec_ts(s, i + o13) == Some((r.created_at, i + o14))
    &&& spec_tok(s, i + o14, 0x7d) == Some(i + o14 + 1)
}

#[verifier::rlimit(100)]
#[verifier::spinoff_prover]
proof fn lemma_record_components(s: Seq<u8>, i: int, r: RecordV)
    requires
        0 <= i,
        wf_record(r),
        i + record_bytes(r).len() <= s.len(),
        forall|k: int| 0 <= k < record_bytes(r).len() ==> s[i + k] == #[trigger] record_bytes(r)[k],
    ensures
        record_bytes(r).len() >= 1,
        record_bytes(r)[0] == 0x7b,
        record_chain_facts(s, i, r),
{
    let rb = record_bytes(r);
    let d_id = spec_u64_digits(r.id);
    let d_eng = spec_u64_digits(r.engine);
    let d_age = spec_u64_digits(r.age);
    let tb = ts_bytes(r.created_at);
    lemma_digits_props(r.id);
    lemma_digits_props(r.engine);
    lemma_digits_props(r.age);
    lemma_ts_len(r.created_at);
    assert(tb.len() == 22);
    let o1 = 6int;
    let o2 = o1 + d_id.len();
    let o3 = o2 + 8;
    let o4 = o3 + r.name.len() + 2;
    let o5 = o4 + 9;
    let o6 = o5 + r.model.len() + 2;
    let o7 = o6 + 10;
    let o8 = o7 + d_eng.len();
    let o9 = o8 + 12;
    let o10 = o9 + r.category.len() + 2;
    let o11 = o10 + 7;
    let o12 = o11 + d_age.len();
    let o13 = o12 + 14;
    let o14 = o13 + 22;
    assert(rb.len() == o14 + 1);

    let zero = 0int;

    // the opening brace and the id member's key
    assert(s[i + zero] == rb[zero]);
    assert(rb[zero] == lit_id()[0]);
    assert(spec_ws_end(s, i + zero) == i + zero);
    assert(s[i + zero + 1] == rb[zero + 1]);
    assert(rb[zero + 1] == lit_id()[1]);
    assert(spec_ws_end(s, i + zero + 1) == i + zero + 1);
    assert forall|j: int| 0 <= j < 4 implies s[i + zero + 1 + j] == #[trigger] key_id()[j] by {
        assert(rb[zero + 1 + j] == lit_id()[1 + j]);
        assert(lit_id()[1 + j] == key_id()[j]);
    }
    lemma_lit_at(s, i + zero + 1, key_id(), 0);
    assert(s[i + zero + 1 + 4] == rb[zero + 1 + 4]);
    assert(rb[zero + 1 + 4] == lit_id()[5 as int]);
    assert(spec_ws_end(s, i + zero + 1 + 4) == i + zero + 1 + 4);

    assert(is_digit(d_id[0]));
    assert forall|k: int| 0 <= k < d_id.len() implies s[i + o1 + k] == #[trigger] d_id[k] by {
        assert(rb[o1 + k] == d_id[k]);
    }
    assert(s[i + o1] == rb[o1]);
    assert(rb[o1] == d_id[0]);
    assert(spec_ws_end(s, i + o1) == i + o1);
    assert(s[i + o2] == rb[o2]);
    assert(rb[o2] == lit_name()[0]);
    assert(!is_digit(0x2c));
    assert(!is_digit(0x7d));
    lemma_number_at(s, i + o1, r.id);

    // the name member's key
    assert(s[i + o2] == rb[o2]);
    assert(rb[o2] == lit_name()[0]);
    assert(spec_ws_end(s, i + o2) == i + o2);
    assert(s[i + o2 + 1] == rb[o2 + 1]);
    assert(rb[o2 + 1] == lit_name()[1]);
    assert(spec_ws_end(s, i + o2 + 1) == i + o2 + 1);
    assert forall|j: int| 0 <= j < 6 implies s[i + o2 + 1 + j] == #[trigger] key_name()[j] by {
        assert(rb[o2 + 1 + j] == lit_name()[1 + j]);
        assert(lit_name()[1 + j] == key_name()[j]);
    }
    lemma_lit_at(s, i + o2 + 1, key_name(), 0);
    assert(s[i + o2 + 1 + 6] == rb[o2 + 1 + 6]);
    assert(rb[o2 + 1 + 6] == lit_name()[7 as int]);
    assert(spec_ws_end(s, i + o2 + 1 + 6) == i + o2 + 1 + 6);

    assert(s[i + o3] == rb[o3]);
    assert(rb[o3] == 0x22);
    assert(spec_ws_end(s, i + o3) == i + o3);
    assert forall|k: int| 0 <= k < r.name.len() implies s[i + o3 + 1 + k] == #[trigger] r.name[k] by {
        assert(rb[o3 + 1 + k] == r.name[k]);
    }
    assert(s[i + o3 + 1 + r.name.len()] == rb[o3 + 1 + r.name.len()]);
    assert(rb[o3 + 1 + r.name.len()] == 0x22);
    lemma_string_at(s, i + o3, r.name);

    // the model member's key
    assert(s[i + o4] == rb[o4]);
    assert(rb[o4] == lit_model()[0]);
    assert(spec_ws_end(s, i + o4) == i + o4);
    assert(s[i + o4 + 1] == rb[o4 + 1]);
    assert(rb[o4 + 1] == lit_model()[1]);
    assert(spec_ws_end(s, i + o4 + 1) == i + o4 + 1);
    assert forall|j: int| 0 <= j < 7 implies s[i + o4 + 1 + j] == #[trigger] key_model()[j] by {
        assert(rb[o4 + 1 + j] == lit_model()[1 + j]);
        assert(lit_model()[1 + j] == key_model()[j]);
    }
    lemma_lit_at(s, i + o4 + 1, key_model(), 0);
    assert(s[i + o4 + 1 + 7] == rb[o4 + 1 + 7]);
    assert(rb[o4 + 1 + 7] == lit_model()[8 as int]);
    assert(spec_ws_end(s, i + o4 + 1 + 7) == i + o4 + 1 + 7);

    assert(s[i + o5] == rb[o5]);
    assert(rb[o5] == 0x22);
    assert(spec_ws_end(s, i + o5) == i + o5);
    assert forall|k: int| 0 <= k < r.model.len() implies s[i + o5 + 1 + k] == #[trigger] r.model[k] by {
        assert(rb[o5 + 1 + k] == r.model[k]);
    }
    assert(s[i + o5 + 1 + r.model.len()] == rb[o5 + 1 + r.model.len()]);
    assert(rb[o5 + 1 + r.model.len()] == 0x22);
    lemma_string_at(s, i + o5, r.model);

    // the engine member's key
    assert(s[i + o6] == rb[o6]);
    assert(rb[o6] == lit_engine()[0]);
    assert(spec_ws_end(s, i + o6) == i + o6);
    assert(s[i + o6 + 1] == rb[o6 + 1]);
    assert(rb[o6 + 1] == lit_engine()[1]);
    assert(spec_ws_end(s, i + o6 + 1) == i + o6 + 1);
    assert forall|j: int| 0 <= j < 8 implies s[i + o6 + 1 + j] == #[trigger] key_engine()[j] by {
        assert(rb[o6 + 1 + j] == lit_engine()[1 + j]);
        assert(lit_engine()[1 + j] == key_engine()[j]);
    }
    lemma_lit_at(s, i + o6 + 1, key_engine(), 0);
    assert(s[i + o6 + 1 + 8] == rb[o6 + 1 + 8]);
    assert(rb[o6 + 1 + 8] == lit_engine()[9 as int]);
    assert(spec_ws_end(s, i + o6 + 1 + 8) == i + o6 + 1 + 8);

    assert(is_digit(d_eng[0]));
    assert forall|k: int| 0 <= k < d_eng.len() implies s[i + o7 + k] == #[trigger] d_eng[k] by {
        assert(rb[o7 + k] == d_eng[k]);
    }
    assert(s[i + o7] == rb[o7]);
    assert(rb[o7] == d_eng[0]);
    assert(spec_ws_end(s, i + o7) == i + o7);
    assert(s[i + o8] == rb[o8]);
    assert(rb[o8] == lit_category()[0]);
    assert(!is_digit(0x2c));
    assert(!is_digit(0x7d));
    lemma_number_at(s, i + o7, r.engine);

    // the category member's key
    assert(s[i + o8] == rb[o8]);
    assert(rb[o8] == lit_category()[0]);
    assert(spec_ws_end(s, i + o8) == i + o8);
    assert(s[i + o8 + 1] == rb[o8 + 1]);
    assert(rb[o8 + 1] == lit_category()[1]);
    assert(spec_ws_end(s, i + o8 + 1) == i + o8 + 1);
    assert forall|j: int| 0 <= j < 10 implies s[i + o8 + 1 + j] == #[trigger] key_category()[j] by {
        assert(rb[o8 + 1 + j] == lit_category()[1 + j]);
        assert(lit_category()[1 + j] == key_category()[j]);
    }
    lemma_lit_at(s, i + o8 + 1, key_category(), 0);
    assert(s[i + o8 + 1 + 10] == rb[o8 + 1 + 10]);
    assert(rb[o8 + 1 + 10] == lit_category()[11 as int]);
    assert(spec_ws_end(s, i + o8 + 1 + 10) == i + o8 + 1 + 10);

    assert(s[i + o9] == rb[o9]);
    assert(rb[o9] == 0x22);
    assert(spec_ws_end(s, i + o9) == i + o9);
    assert forall|k: int| 0 <= k < r.category.len() implies s[i + o9 + 1 + k] == #[trigger] r.category[k] by {
        assert(rb[o9 + 1 + k] == r.category[k]);
    }
    assert(s[i + o9 + 1 + r.category.len()] == rb[o9 + 1 + r.category.len()]);
    assert(rb[o9 + 1 + r.category.len()] == 0x22);
    lemma_string_at(s, i + o9, r.category);

    // the age member's key
    assert(s[i + o10] == rb[o10]);
    assert(rb[o10] == lit_age()[0]);
    assert(spec_ws_end(s, i + o10) == i + o10);
    assert(s[i + o10 + 1] == rb[o10 + 1]);
    assert(rb[o10 + 1] == lit_age()[1]);
    assert(spec_ws_end(s, i + o10 + 1) == i + o10 + 1);
    assert forall|j: int| 0 <= j < 5 implies s[i + o10 + 1 + j] == #[trigger] key_age()[j] by {
        assert(rb[o10 + 1 + j] == lit_age()[1 + j]);
        assert(lit_age()[1 + j] == key_age()[j]);
    }
    lemma_lit_at(s, i + o10 + 1, key_age(), 0);
    assert(s[i + o10 + 1 + 5] == rb[o10 + 1 + 5]);
    assert(rb[o10 + 1 + 5] == lit_age()[6 as int]);
    assert(spec_ws_end(s, i + o10 + 1 + 5) == i + o10 + 1 + 5);

    assert(is_digit(d_age[0]));
    assert forall|k: int| 0 <= k < d_age.len() implies s[i + o11 + k] == #[trigger] d_age[k] by {
        assert(rb[o11 + k] == d_age[k]);
    }
    assert(s[i + o11] == rb[o11]);
    assert(rb[o11] == d_age[0]);
    assert(spec_ws_end(s, i + o11) == i + o11);
    assert(s[i + o12] == rb[o12]);
    assert(rb[o12] == lit_created()[0]);
    assert(!is_digit(0x2c));
    assert(!is_digit(0x7d));
    lemma_number_at(s, i + o11, r.age);

    // the created_at member's key
    assert(s[i + o12] == rb[o12]);
    assert(rb[o12] == lit_created()[0]);
    assert(spec_ws_end(s, i + o12) == i + o12);
    assert(s[i + o12 + 1] == rb[o12 + 1]);
    assert(rb[o12 + 1] == lit_created()[1]);
    assert(spec_ws_end(s, i + o12 + 1) == i + o12 + 1);
    assert forall|j: int| 0 <= j < 12 implies s[i + o12 + 1 + j] == #[trigger] key_created()[j] by {
        assert(rb[o12 + 1 + j] == lit_created()[1 + j]);
        assert(lit_created()[1 + j] == key_created()[j]);
    }
    lemma_lit_at(s, i + o12 + 1, key_created(), 0);
    assert(s[i + o12 + 1 + 12] == rb[o12 + 1 + 12]);
    assert(rb[o12 + 1 + 12] == lit_created()[13 as int]);
    assert(spec_ws_end(s, i + o12 + 1 + 12) == i + o12 + 1 + 12);

    assert(s[i + o13] == rb[o13]);
    assert(rb[o13] == tb[0]);
    assert(tb[0] == 0x22);
    assert(spec_ws_end(s, i + o13) == i + o13);
    assert forall|k: int| 0 <= k < 22 implies s[i + o13 + k] == #[trigger] tb[k] by {
        assert(rb[o13 + k] == tb[k]);
    }
    lemma_ts_at(s, i + o13, r.created_at);

    assert(s[i + o14] == rb[o14]);
    assert(rb[o14] == 0x7d);
    assert(spec_ws_end(s, i + o14) == i + o14);
    assert(rb[0] == lit_id()[0]);
}

#[verifier::rlimit(100)]
#[verifier::spinoff_prover]
proof fn lemma_record_at(s: Seq<u8>, i: int, r: RecordV)
    requires
        0 <= i,
        wf_record(r),
        i + record_bytes(r).len() <= s.len(),
        forall|k: int| 0 <= k < record_bytes(r).len() ==> s[i + k] == #[trigger] record_bytes(r)[k],
    ensures
        record_bytes(r).len() >= 1,
        record_bytes(r)[0] == 0x7b,
        spec_record(s, i) == Some((r, i + record_bytes(r).len())),
{
    lemma_record_components(s, i, r);
    reveal(spec_record);
    assert(spec_record(s, i) == Some((r, i + record_bytes(r).len())));
}

#[verifier::rlimit(100)]
#[verifier::spinoff_prover]
proof fn lemma_rest_at(s: Seq<u8>, i: int, rs: Seq<RecordV>, acc: Seq<RecordV>)
    requires
        0 <= i,
        wf_records(rs),
        i + rest_bytes(rs).len() <= s.len(),
        forall|k: int| 0 <= k < rest_bytes(rs).len() ==> s[i + k] == #[trigger] rest_bytes(rs)[k],
    ensures
        rest_bytes(rs).len() >= 1,
        spec_rest(s, i, acc) == Some((acc + rs, i + rest_bytes(rs).len())),
    decreases rs.len(),
{
    let eb = rest_bytes(rs);
    if rs.len() == 0 {
        assert(s[i] == eb[0]);
        assert(eb[0] == 0x5d);
        assert(spec_ws_end(s, i) == i);
        assert(acc + rs =~= acc);
    } else {
        let rb = record_bytes(rs[0]);
        let tail = rest_bytes(rs.skip(1));
        assert(eb == seq![0x2cu8] + rb + tail);
        assert(s[i] == eb[0]);
        assert(eb[0] == 0x2c);
        assert(spec_ws_end(s, i) == i);
        assert(wf_record(rs[0]));
        assert forall|k: int| 0 <= k < rb.len() implies s[i + 1 + k] == #[trigger] rb[k] by {
            assert(eb[1 + k] == rb[k]);
            assert(s[i + 1 + k] == eb[1 + k]);
        }
        lemma_record_at(s, i + 1, rs[0]);
        let j = i + 1 + rb.len();
        assert(wf_records(rs.skip(1))) by {
            assert forall|k: int| 0 <= k < rs.skip(1).len() implies wf_record(
                #[trigger] rs.skip(1)[k],
            ) by {
                assert(rs.skip(1)[k] == rs[k + 1]);
            }
        }
        assert forall|k: int| 0 <= k < tail.len() implies s[j + k] == #[trigger] tail[k] by {
            assert(eb[1 + rb.len() + k] == tail[k]);
            assert(s[i + (1 + rb.len() + k)] == eb[1 + rb.len() + k]);
        }
        lemma_rest_at(s, j, rs.skip(1), acc.push(rs[0]));
        assert(acc.push(rs[0]) + rs.skip(1) =~= acc + rs);
    }
}

/// What `write` produces, `load` reads back unchanged: the stored form of any
/// well-formed record sequence parses to exactly that sequence.
pub proof fn lemma_records_bytes_parse(rs: Seq<RecordV>)
    requires
        wf_records(rs),
    ensures
        parsed(records_bytes(rs)) == Some(rs),
{
    if rs.len() == 0 {
        lemma_records_bytes_parse_empty(rs);
    } else {
        lemma_records_bytes_parse_nonempty(rs);
    }
}

#[verifier::spinoff_prover]
proof fn lemma_records_bytes_parse_empty(rs: Seq<RecordV>)
    requires
        rs.len() == 0,
    ensures
        parsed(records_bytes(rs)) == Some(rs),
{
    let s = records_bytes(rs);
    assert(s == seq![0x5bu8, 0x5du8]);
    assert(s[0] == 0x5b && s[1] == 0x5d);
    assert(spec_ws_end(s, 0) == 0);
    assert(spec_ws_end(s, 1) == 1);
    assert(spec_ws_end(s, 2) == 2);
    assert(Seq::<RecordV>::empty() =~= rs);
}

#[verifier::spinoff_prover]
#[verifier::rlimit(100)]
proof fn lemma_records_bytes_parse_nonempty(rs: Seq<RecordV>)
    requires
        wf_records(rs),
        rs.len() >= 1,
    ensures
        parsed(records_bytes(rs)) == Some(rs),
{
    let s = records_bytes(rs);
    let rb = record_bytes(rs[0]);
    let tail = rest_bytes(rs.skip(1));
    assert(s == seq![0x5bu8] + rb + tail);
    assert(s[0] == 0x5b);
    assert(wf_record(rs[0]));
    assert forall|k: int| 0 <= k < rb.len() implies s[1 + k] == #[trigger] rb[k] by {
        assert(s[1 + k] == (seq![0x5bu8] + rb + tail)[1 + k]);
    }
    lemma_record_at(s, 1, rs[0]);
    assert(s[1] == rb[0]);
    let j: int = 1 + rb.len() as int;
    assert(wf_records(rs.skip(1))) by {
        assert forall|k: int| 0 <= k < rs.skip(1).len() implies wf_record(
            #[trigger] rs.skip(1)[k],
        ) by {
            assert(rs.skip(1)[k] == rs[k + 1]);
        }
    }
    assert forall|k: int| 0 <= k < tail.len() implies s[j + k] == #[trigger] tail[k] by {
        assert(s[1 + rb.len() + k] == (seq![0x5bu8] + rb + tail)[1 + rb.len() + k]);
    }
    lemma_rest_at(s, j, rs.skip(1), seq![rs[0]]);
    assert(seq![rs[0]] + rs.skip(1) =~= rs);
    assert(j + tail.len() == s.len());
    assert(rb[0] == 0x7b);
    lemma_parsed_shape(s, rs, rb.len() as int, tail.len() as int);
}

#[verifier::spinoff_prover]
proof fn lemma_parsed_shape(s: Seq<u8>, rs: Seq<RecordV>, rb_len: int, tail_len: int)
    requires
        rs.len() >= 1,
        rb_len >= 1,
        tail_len >= 1,
        s.len() == 1 + rb_len + tail_len,
        s[0] == 0x5b,
        s[1] == 0x7b,
        spec_record(s, 1) == Some((rs[0], 1 + rb_len)),
        spec_rest(s, 1 + rb_len, seq![rs[0]]) == Some((rs, s.len() as int)),
    ensures
        parsed(s) == Some(rs),
{
    assert(spec_ws_end(s, 0) == 0);
    assert(spec_ws_end(s, 1) == 1);
    assert(spec_ws_end(s, s.len() as int) == s.len());
    assert(spec_records(s, 0) == Some((rs, s.len() as int)));
}

} // verus!
