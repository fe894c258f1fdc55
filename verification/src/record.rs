use vstd::prelude::*;

verus! {

/// Why a store operation failed: the backing content could not be read,
/// could not be parsed as a record array, or an index missed the store.
#[derive(Clone, Copy, Debug, PartialEq, Eq, Structural)]
pub enum Error {
    ReadFailure,
    ParseFailure,
    IndexOutOfRange,
}

/// A calendar timestamp (UTC) held as plain fields, so that contracts can
/// speak of each component directly.
#[derive(Clone, Copy, Debug, PartialEq, Eq, Structural)]
pub struct Timestamp {
    pub year: u32,
    pub month: u32,
    pub day: u32,
    pub hour: u32,
    pub minute: u32,
    pub second: u32,
}

/// The component ranges every stored timestamp keeps: four digits for the
/// year, two for each other field, with calendar-shaped bounds. The bounds
/// are deliberately shallow: the day may run to 31 in any month, and a leap
/// second (`:60`) is not representable.
pub open spec fn valid_timestamp(t: Timestamp) -> bool {
    &&& t.year <= 9999
    &&& 1 <= t.month <= 12
    &&& 1 <= t.day <= 31
    &&& t.hour <= 23
    &&& t.minute <= 59
    &&& t.second <= 59
}

/// One vehicle record. Text fields are byte strings of printable ASCII;
/// `engine` is held as a numeric code, not a label.
#[derive(Clone, Debug, PartialEq)]
pub struct Record {
    pub id: u64,
    pub name: Vec<u8>,
    pub model: Vec<u8>,
    pub engine: u64,
    pub category: Vec<u8>,
    pub age: u64,
    pub created_at: Timestamp,
}

/// The mathematical shape of a record: what contracts quantify over.
pub ghost struct RecordV {
    pub id: u64,
    pub name: Seq<u8>,
    pub model: Seq<u8>,
    pub engine: u64,
    pub category: Seq<u8>,
    pub age: u64,
    pub created_at: Timestamp,
}

impl View for Record {
    type V = RecordV;

    open spec fn view(&self) -> RecordV {
        RecordV {
            id: self.id,
            name: self.name@,
            model: self.model@,
            engine: self.engine,
            category: self.category@,
            age: self.age,
            created_at: self.created_at,
        }
    }
}

/// A byte a stored text field may hold: printable ASCII that needs no
/// escaping inside a quoted string.
pub open spec fn text_byte(b: u8) -> bool {
    0x20 <= b <= 0x7e && b != 0x22 && b != 0x5c
}

pub open spec fn text_ok(s: Seq<u8>) -> bool {
    forall|i: int| 0 <= i < s.len() ==> text_byte(#[trigger] s[i])
}

/// A record the store can persist and read back unchanged.
pub open spec fn wf_record(r: RecordV) -> bool {
    &&& text_ok(r.name)
    &&& text_ok(r.model)
    &&& text_ok(r.category)
    &&& valid_timestamp(r.created_at)
}

/// The views of a sequence of records.
pub open spec fn views_of(s: Seq<Record>) -> Seq<RecordV> {
    s.map_values(|r: Record| r@)
}

pub open spec fn wf_records(s: Seq<RecordV>) -> bool {
    forall|i: int| 0 <= i < s.len() ==> wf_record(#[trigger] s[i])
}

} // verus!
