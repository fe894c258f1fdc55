use car_cli::codec::{encode_records, parse_records};
use car_cli::record::{Error, Record, Timestamp};
use car_cli::store::{
    append_generated_content, append_record_content, category_label, current_timestamp,
    generated_record, make_record, remove_at, remove_at_content, timestamp_from_parts,
};

fn ts(year: u32, month: u32, day: u32, hour: u32, minute: u32, second: u32) -> Timestamp {
    Timestamp { year, month, day, hour, minute, second }
}

fn rec(id: u64, name: &str, t: Timestamp) -> Record {
    Record {
        id,
        name: name.as_bytes().to_vec(),
        model: b"M".to_vec(),
        engine: 1,
        category: b"coupe".to_vec(),
        age: 5,
        created_at: t,
    }
}

#[test]
fn remove_excises_one_index_and_keeps_order() {
    let a = rec(1, "A", ts(2020, 1, 1, 0, 0, 0));
    let b = rec(2, "B", ts(2020, 1, 2, 0, 0, 0));
    let c = rec(3, "C", ts(2020, 1, 3, 0, 0, 0));
    let content = encode_records(&vec![a.clone(), b.clone(), c.clone()]);
    let out = remove_at_content(&content, 1).expect("index 1 is valid");
    let back = parse_records(&out).expect("the written store parses");
    assert_eq!(back, vec![a, c]);
}

#[test]
fn remove_at_invalid_index_is_rejected() {
    let a = rec(1, "A", ts(2020, 1, 1, 0, 0, 0));
    let content = encode_records(&vec![a]);
    assert_eq!(remove_at_content(&content, 1), Err(Error::IndexOutOfRange));
    assert_eq!(remove_at_content(&content, 7), Err(Error::IndexOutOfRange));
}

#[test]
fn remove_on_malformed_content_is_a_parse_failure() {
    assert_eq!(remove_at_content(&b"garbage".to_vec(), 0), Err(Error::ParseFailure));
}

#[test]
fn remove_at_in_memory() {
    let a = rec(1, "A", ts(2020, 1, 1, 0, 0, 0));
    let b = rec(2, "B", ts(2020, 1, 2, 0, 0, 0));
    let mut v = vec![a.clone(), b.clone()];
    assert_eq!(remove_at(&mut v, 5), Err(Error::IndexOutOfRange));
    assert_eq!(v, vec![a.clone(), b.clone()]);
    assert!(remove_at(&mut v, 0).is_ok());
    assert_eq!(v, vec![b]);
}

#[test]
fn append_adds_the_record_at_the_end() {
    let a = rec(1, "A", ts(2020, 1, 1, 0, 0, 0));
    let b = rec(2, "B", ts(2020, 1, 2, 0, 0, 0));
    let content = encode_records(&vec![a.clone()]);
    let out = append_record_content(&content, b.clone()).expect("the content parses");
    let back = parse_records(&out).expect("the written store parses");
    assert_eq!(back, vec![a, b]);
}

#[test]
fn append_generated_grows_the_store_by_one() {
    let a = rec(1, "A", ts(2020, 1, 1, 0, 0, 0));
    let content = encode_records(&vec![a.clone()]);
    let (out, new_rec) = append_generated_content(&content).expect("the content parses");
    let back = parse_records(&out).expect("the written store parses");
    assert_eq!(back.len(), 2);
    assert_eq!(back[0], a);
    assert_eq!(back[1], new_rec);
    assert!(new_rec.category == b"coupe".to_vec() || new_rec.category == b"sedan".to_vec());
    assert!(new_rec.name.iter().all(|b| b.is_ascii_alphanumeric()));
    assert!(new_rec.model.iter().all(|b| b.is_ascii_alphanumeric()));
}

#[test]
fn append_generated_on_malformed_content_fails() {
    assert_eq!(append_generated_content(&b"[oops".to_vec()).unwrap_err(), Error::ParseFailure);
}

#[test]
fn generated_record_stays_in_its_ranges() {
    let now = ts(2024, 6, 15, 12, 30, 45);
    for _ in 0..50 {
        let r = generated_record(now);
        assert!(r.id < 100);
        assert!(r.engine < 5);
        assert!(r.age >= 1 && r.age < 30);
        assert_eq!(r.name.len(), 10);
        assert_eq!(r.model.len(), 10);
        assert!(r.name.iter().all(|b| b.is_ascii_alphanumeric()));
        assert!(r.model.iter().all(|b| b.is_ascii_alphanumeric()));
        assert!(r.category == b"coupe".to_vec() || r.category == b"sedan".to_vec());
        assert_eq!(r.created_at, now);
    }
}

#[test]
fn generated_record_created_at_is_the_supplied_clock_reading() {
    let before = current_timestamp();
    let r = generated_record(before);
    assert_eq!(r.created_at, before);
}

#[test]
fn current_timestamp_is_calendar_shaped() {
    let t = current_timestamp();
    assert!(t.year <= 9999);
    assert!((1..=12).contains(&t.month));
    assert!((1..=31).contains(&t.day));
    assert!(t.hour <= 23);
    assert!(t.minute <= 59);
    assert!(t.second <= 59);
    // The clock reads a present-day year, not a clamped edge.
    assert!(t.year >= 2020);
}

#[test]
fn timestamp_parts_in_range_pass_unchanged() {
    let t = timestamp_from_parts(2021, 3, 7, 9, 5, 30);
    assert_eq!(t, ts(2021, 3, 7, 9, 5, 30));
}

#[test]
fn timestamp_parts_out_of_range_are_clamped() {
    let t = timestamp_from_parts(-5, 0, 99, 99, 99, 99);
    assert_eq!(t, ts(0, 1, 31, 23, 59, 59));
    let t2 = timestamp_from_parts(123456, 13, 0, 0, 0, 0);
    assert_eq!(t2, ts(9999, 12, 1, 0, 0, 0));
}

#[test]
fn category_labels_are_the_fixed_pair() {
    assert_eq!(category_label(0), b"coupe".to_vec());
    assert_eq!(category_label(1), b"sedan".to_vec());
}

#[test]
fn make_record_is_deterministic_in_its_draws() {
    let now = ts(2024, 6, 15, 12, 30, 45);
    let a = make_record(9, b"Alpha".to_vec(), b"GT".to_vec(), 2, 0, 7, now);
    let b = make_record(9, b"Alpha".to_vec(), b"GT".to_vec(), 2, 0, 7, now);
    assert_eq!(a, b);
    assert_eq!(a.category, b"coupe".to_vec());
    let c = make_record(9, b"Alpha".to_vec(), b"GT".to_vec(), 2, 1, 7, now);
    assert_eq!(c.category, b"sedan".to_vec());
    assert_eq!(a.created_at, now);
}
