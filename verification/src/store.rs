//! The record store's operations: each works on a whole store content
//! (the bytes of the backing file), parses it, mutates the record sequence,
//! and produces the bytes to write back. Reading and writing the file itself
//! stays with the caller.

use vstd::prelude::*;

use crate::codec::{encode_records, parse_records, parsed};
use crate::record::{
    text_byte, text_ok, valid_timestamp, views_of, wf_record, wf_records, Error, Record, RecordV,
    Timestamp,
};

verus! {

/// The category label for an even pick.
pub open spec fn spec_coupe() -> Seq<u8> {
    seq![0x63u8, 0x6fu8, 0x75u8, 0x70u8, 0x65u8]
}

/// The category label for an odd pick.
pub open spec fn spec_sedan() -> Seq<u8> {
    seq![0x73u8, 0x65u8, 0x64u8, 0x61u8, 0x6eu8]
}

/// An ASCII letter or digit.
pub open spec fn alnum_byte(b: u8) -> bool {
    (0x30 <= b <= 0x39) || (0x41 <= b <= 0x5a) || (0x61 <= b <= 0x7a)
}

/// Relies on `rand::Rng::gen_range` on `rand::thread_rng()`: a uniform draw
/// from `0..n`, which panics only on an empty range.
#[verifier::external_body]
fn rand_below(n: u64) -> (r: u64)
    requires
        n >= 1,
    ensures
        r < n,
{
    rand::Rng::gen_range(&mut rand::thread_rng(), 0..n)
}

/// Relies on `rand::Rng::sample_iter` with `rand::distributions::Alphanumeric`,
/// which samples uniformly over the ASCII letters and digits.
#[verifier::external_body]
fn rand_alphanumeric(len: usize) -> (r: Vec<u8>)
    ensures
        r@.len() == len,
        forall|i: int| 0 <= i < r@.len() ==> alnum_byte(#[trigger] r@[i]),
{
    rand::Rng::sample_iter(rand::thread_rng(), &rand::distributions::Alphanumeric).take(
        len,
    ).collect()
}

/// Relies on `chrono::Utc::now` and the `Datelike`/`Timelike` accessors
/// (`year`, `month`, `day`, `hour`, `minute`, `second`), whose documented
/// ranges are 1..=12, 1..=31, 0..=23, 0..=59 and 0..=59; the year carries no
/// documented bound. `Utc::now` itself aborts if the system clock reads
/// before the Unix epoch.
#[verifier::external_body]
fn now_parts() -> (r: (i32, u32, u32, u32, u32, u32))
    ensures
        1 <= r.1 <= 12,
        1 <= r.2 <= 31,
        r.3 <= 23,
        r.4 <= 59,
        r.5 <= 59,
{
    let t = chrono::Utc::now();
    (
        chrono::Datelike::year(&t),
        chrono::Datelike::month(&t),
        chrono::Datelike::day(&t),
        chrono::Timelike::hour(&t),
        chrono::Timelike::minute(&t),
        chrono::Timelike::second(&t),
    )
}

/// Builds a storable timestamp from raw clock parts, clamping every
/// component into its stored range; parts already in range pass unchanged.
pub fn timestamp_from_parts(y: i32, mo: u32, d: u32, h: u32, mi: u32, sec: u32) -> (r: Timestamp)
    ensures
        valid_timestamp(r),
        r.year == if y < 0 {
            0u32
        } else if y > 9999 {
            9999u32
        } else {
            y as u32
        },
        r.month == if mo < 1 {
            1u32
        } else if mo > 12 {
            12u32
        } else {
            mo
        },
        r.day == if d < 1 {
            1u32
        } else if d > 31 {
            31u32
        } else {
            d
        },
        r.hour == if h > 23 {
            23u32
        } else {
            h
        },
        r.minute == if mi > 59 {
            59u32
        } else {
            mi
        },
        r.second == if sec > 59 {
            59u32
        } else {
            sec
        },
{
    let year: u32 = if y < 0 {
        0
    } else if y > 9999 {
        9999
    } else {
        y as u32
    };
    let month: u32 = if mo < 1 {
        1
    } else if mo > 12 {
        12
    } else {
        mo
    };
    let day: u32 = if d < 1 {
        1
    } else if d > 31 {
        31
    } else {
        d
    };
    let hour: u32 = if h > 23 {
        23
    } else {
        h
    };
    let minute: u32 = if mi > 59 {
        59
    } else {
        mi
    };
    let second: u32 = if sec > 59 {
        59
    } else {
        sec
    };
    Timestamp { year, month, day, hour, minute, second }
}

/// The current moment as a storable timestamp.
pub fn current_timestamp() -> (r: Timestamp)
    ensures
        valid_timestamp(r),
{
    let (y, mo, d, h, mi, sec) = now_parts();
    timestamp_from_parts(y, mo, d, h, mi, sec)
}

/// The fixed two-label category set a generated record draws from.
pub fn category_label(pick: u64) -> (r: Vec<u8>)
    ensures
        r@ == if pick == 0 {
            spec_coupe()
        } else {
            spec_sedan()
        },
{
    let mut v: Vec<u8> = Vec::new();
    if pick == 0 {
        v.push(0x63);
        v.push(0x6f);
        v.push(0x75);
        v.push(0x70);
        v.push(0x65);
        proof {
            assert(v@ =~= spec_coupe());
        }
    } else {
        v.push(0x73);
        v.push(0x65);
        v.push(0x64);
        v.push(0x61);
        v.push(0x6e);
        proof {
            assert(v@ =~= spec_sedan());
        }
    }
    v
}

/// Builds one record from already-drawn plain values, so that a caller can
/// supply a deterministic draw: the same inputs give the same record, with
/// the category picked from the fixed two-label set.
pub fn make_record(
    id: u64,
    name: Vec<u8>,
    model: Vec<u8>,
    engine: u64,
    category_pick: u64,
    age: u64,
    created_at: Timestamp,
) -> (r: Record)
    requires
        text_ok(name@),
        text_ok(model@),
        valid_timestamp(created_at),
    ensures
        r@ == (RecordV {
            id,
            name: name@,
            model: model@,
            engine,
            category: if category_pick == 0 {
                spec_coupe()
            } else {
                spec_sedan()
            },
            age,
            created_at,
        }),
        wf_record(r@),
{
    let category = category_label(category_pick);
    proof {
        assert(text_ok(spec_coupe()));
        assert(text_ok(spec_sedan()));
    }
    Record { id, name, model, engine, category, age, created_at }
}

/// Synthesizes one record: random id, ten-character alphanumeric name and
/// model, random engine code and age from their small fixed ranges, a
/// category from the fixed two-label set, and the given creation time.
pub fn generated_record(now: Timestamp) -> (r: Record)
    requires
        valid_timestamp(now),
    ensures
        wf_record(r@),
        r.id < 100,
        r.engine < 5,
        1 <= r.age < 30,
        r.name@.len() == 10,
        r.model@.len() == 10,
        forall|i: int| 0 <= i < r.name@.len() ==> alnum_byte(#[trigger] r.name@[i]),
        forall|i: int| 0 <= i < r.model@.len() ==> alnum_byte(#[trigger] r.model@[i]),
        r.category@ == spec_coupe() || r.category@ == spec_sedan(),
        r.created_at == now,
{
    let id = rand_below(100);
    let name = rand_alphanumeric(10);
    let model = rand_alphanumeric(10);
    let engine = rand_below(5);
    let pick = rand_below(2);
    let age = 1 + rand_below(29);
    proof {
        assert(text_ok(name@)) by {
            assert forall|i: int| 0 <= i < name@.len() implies text_byte(#[trigger] name@[i]) by {
                assert(alnum_byte(name@[i]));
            }
        }
        assert(text_ok(model@)) by {
            assert forall|i: int| 0 <= i < model@.len() implies text_byte(#[trigger] model@[i]) by {
                assert(alnum_byte(model@[i]));
            }
        }
    }
    make_record(id, name, model, engine, pick, age, now)
}

/// Removes the record at `index` from an in-memory sequence; the remainder
/// keeps its relative order. An out-of-range index leaves it untouched.
pub fn remove_at(records: &mut Vec<Record>, index: usize) -> (r: Result<(), Error>)
    ensures
        index < old(records)@.len() ==> r is Ok
            && final(records)@ == old(records)@.remove(index as int),
        index >= old(records)@.len() ==> r == Err::<(), Error>(Error::IndexOutOfRange)
            && final(records)@ == old(records)@,
{
    if index < records.len() {
        let _removed = records.remove(index);
        Ok(())
    } else {
        Err(Error::IndexOutOfRange)
    }
}

/// One whole remove operation on a store content: parse, excise the record
/// at `index`, and produce the bytes to write back. The result parses to the
/// original sequence with exactly that index gone, order kept.
pub fn remove_at_content(content: &Vec<u8>, index: usize) -> (r: Result<Vec<u8>, Error>)
    ensures
        (match r {
            Ok(out) => (match parsed(content@) {
                Some(s) => index < s.len() && parsed(out@) == Some(s.remove(index as int)),
                None => false,
            }),
            Err(e) => (match parsed(content@) {
                Some(s) => e == Error::IndexOutOfRange && index >= s.len(),
                None => e == Error::ParseFailure,
            }),
        }),
{
    let mut records = match parse_records(content) {
        Ok(v) => v,
        Err(e) => {
            return Err(e);
        },
    };
    let ghost s = views_of(records@);
    if index >= records.len() {
        return Err(Error::IndexOutOfRange);
    }
    let _removed = records.remove(index);
    proof {
        assert(views_of(records@) =~= s.remove(index as int));
        assert(wf_records(views_of(records@))) by {
            assert forall|k: int| 0 <= k < views_of(records@).len() implies wf_record(
                #[trigger] views_of(records@)[k],
            ) by {
                assert(views_of(records@)[k] == s.remove(index as int)[k]);
                if k < index {
                    assert(s.remove(index as int)[k] == s[k]);
                } else {
                    assert(s.remove(index as int)[k] == s[k + 1]);
                }
            }
        }
    }
    Ok(encode_records(&records))
}

/// One whole append operation on a store content: parse, push the given
/// record, and produce the bytes to write back. The result parses to the
/// original sequence with the record appended at the end.
pub fn append_record_content(content: &Vec<u8>, rec: Record) -> (r: Result<Vec<u8>, Error>)
    requires
        wf_record(rec@),
    ensures
        (match r {
            Ok(out) => (match parsed(content@) {
                Some(s) => parsed(out@) == Some(s.push(rec@)),
                None => false,
            }),
            Err(e) => parsed(content@) is None && e == Error::ParseFailure,
        }),
{
    let mut records = match parse_records(content) {
        Ok(v) => v,
        Err(e) => {
            return Err(e);
        },
    };
    let ghost s = views_of(records@);
    let ghost rv = rec@;
    records.push(rec);
    proof {
        assert(views_of(records@) =~= s.push(rv));
        assert(wf_records(views_of(records@))) by {
            assert forall|k: int| 0 <= k < views_of(records@).len() implies wf_record(
                #[trigger] views_of(records@)[k],
            ) by {
                if k < s.len() {
                    assert(views_of(records@)[k] == s[k]);
                } else {
                    assert(views_of(records@)[k] == rv);
                }
            }
        }
    }
    Ok(encode_records(&records))
}

/// One whole add-generated operation on a store content: parse, synthesize a
/// record stamped with the current time, append it, and produce the bytes to
/// write back together with the new record.
pub fn append_generated_content(content: &Vec<u8>) -> (r: Result<(Vec<u8>, Record), Error>)
    ensures
        (match r {
            Ok(p) => (match parsed(content@) {
                Some(s) => parsed(p.0@) == Some(s.push(p.1@)) && wf_record(p.1@) && p.1.id < 100
                    && p.1.engine < 5 && 1 <= p.1.age < 30 && p.1@.name.len() == 10
                    && p.1@.model.len() == 10 && (forall|i: int|
                        0 <= i < p.1@.name.len() ==> alnum_byte(#[trigger] p.1@.name[i]))
                    && (forall|i: int|
                        0 <= i < p.1@.model.len() ==> alnum_byte(#[trigger] p.1@.model[i]))
                    && (p.1@.category == spec_coupe() || p.1@.category == spec_sedan())
                    && valid_timestamp(p.1.created_at),
                None => false,
            }),
            Err(e) => parsed(content@) is None && e == Error::ParseFailure,
        }),
{
    let now = current_timestamp();
    let rec = generated_record(now);
    let rec2 = Record {
        id: rec.id,
        name: copy_bytes(&rec.name),
        model: copy_bytes(&rec.model),
        engine: rec.engine,
        category: copy_bytes(&rec.category),
        age: rec.age,
        created_at: rec.created_at,
    };
    let out = match append_record_content(content, rec2) {
        Ok(o) => o,
        Err(e) => {
            return Err(e);
        },
    };
    Ok((out, rec))
}

/// A fresh byte string with the same contents.
pub fn copy_bytes(v: &Vec<u8>) -> (r: Vec<u8>)
    ensures
        r@ == v@,
{
    let mut r: Vec<u8> = Vec::new();
    let mut k: usize = 0;
    while k < v.len()
        invariant
            k <= v.len(),
            r@ == v@.take(k as int),
        decreases v.len() - k,
    {
        r.push(v[k]);
        proof {
            assert(r@ =~= v@.take(k + 1 as int));
        }
        k = k + 1;
    }
    proof {
        assert(v@.take(v@.len() as int) =~= v@);
    }
    r
}

} // verus!
