use phone_type::phone_number::{random_phone_number, PhoneNumber, PhoneNumberParseError};
use std::cmp::Ordering;
use std::collections::hash_map::DefaultHasher;
use std::hash::{Hash, Hasher};

fn parse(s: &str) -> Result<PhoneNumber, PhoneNumberParseError> {
    PhoneNumber::parse(s)
}

fn fields(p: &PhoneNumber) -> (u16, u16, u16) {
    (p.area_code(), p.exchange(), p.number())
}

fn hash_of(p: &PhoneNumber) -> u64 {
    let mut h = DefaultHasher::new();
    p.hash(&mut h);
    h.finish()
}

#[test]
fn round_trip_of_random_values() {
    for _ in 0..1000 {
        let v = random_phone_number();
        let text = v.to_string();
        assert_eq!(parse(&text), Ok(v));
    }
}

#[test]
fn random_values_stay_in_their_ranges() {
    let mut seen_nonzero_number = false;
    for _ in 0..1000 {
        let (a, e, n) = fields(&random_phone_number());
        assert!(1 <= a && a <= 999);
        assert!(e <= 999);
        assert!(n <= 9999);
        if n > 0 {
            seen_nonzero_number = true;
        }
    }
    assert!(seen_nonzero_number);
}

#[test]
fn canonical_padding() {
    let p = parse("+07-055-1212").unwrap();
    assert_eq!(fields(&p), (7, 55, 1212));
    assert_eq!(p.to_string(), "007-055-1212");
    let q = parse("007-055-1212").unwrap();
    assert_eq!(fields(&q), (7, 55, 1212));
    assert_eq!(q.to_string(), "007-055-1212");
}

#[test]
fn exact_valid_case() {
    let p = parse("800-555-1212").unwrap();
    assert_eq!(fields(&p), (800, 555, 1212));
    assert_eq!(p.to_string(), "800-555-1212");
}

#[test]
fn from_str_parses_too() {
    let p: PhoneNumber = "800-555-1212".parse().unwrap();
    assert_eq!(fields(&p), (800, 555, 1212));
    let e: Result<PhoneNumber, PhoneNumberParseError> = "800-555".parse();
    assert_eq!(e, Err(PhoneNumberParseError::InvalidFormat));
}

#[test]
fn wrong_group_width_rejected() {
    assert_eq!(parse("1-555-1212"), Err(PhoneNumberParseError::InvalidAreaCode));
    assert_eq!(parse("8000-555-1212"), Err(PhoneNumberParseError::InvalidAreaCode));
    assert_eq!(parse("800-55-1212"), Err(PhoneNumberParseError::InvalidExchange));
    assert_eq!(parse("800-555-121"), Err(PhoneNumberParseError::InvalidNumber));
    assert_eq!(parse("800-555-12123"), Err(PhoneNumberParseError::InvalidNumber));
}

#[test]
fn missing_group_rejected() {
    assert_eq!(parse("800-555"), Err(PhoneNumberParseError::InvalidFormat));
    assert_eq!(parse("800"), Err(PhoneNumberParseError::InvalidFormat));
}

#[test]
fn extra_group_rejected() {
    assert_eq!(parse("800-555-1212-99"), Err(PhoneNumberParseError::InvalidFormat));
    assert_eq!(parse("800-555-1212-"), Err(PhoneNumberParseError::InvalidFormat));
}

#[test]
fn non_numeric_group_rejected() {
    assert_eq!(parse("80x-555-1212"), Err(PhoneNumberParseError::InvalidAreaCode));
    assert_eq!(parse("800-5 5-1212"), Err(PhoneNumberParseError::InvalidExchange));
    assert_eq!(parse("800-555-12é"), Err(PhoneNumberParseError::InvalidNumber));
    assert_eq!(parse("+++-555-1212"), Err(PhoneNumberParseError::InvalidAreaCode));
    assert_eq!(parse("-12-555-1212"), Err(PhoneNumberParseError::InvalidAreaCode));
}

#[test]
fn empty_input_rejected() {
    assert_eq!(parse(""), Err(PhoneNumberParseError::InvalidAreaCode));
    assert_eq!(parse("---"), Err(PhoneNumberParseError::InvalidAreaCode));
}

#[test]
fn first_failure_wins() {
    assert_eq!(parse("8-5-1"), Err(PhoneNumberParseError::InvalidAreaCode));
    assert_eq!(parse("800-5-1"), Err(PhoneNumberParseError::InvalidExchange));
    assert_eq!(parse("800-555-1-2-3"), Err(PhoneNumberParseError::InvalidNumber));
}

#[test]
fn zero_and_largest_values() {
    let z = parse("000-000-0000").unwrap();
    assert_eq!(fields(&z), (0, 0, 0));
    assert_eq!(z.to_string(), "000-000-0000");
    let m = parse("999-999-9999").unwrap();
    assert_eq!(fields(&m), (999, 999, 9999));
    assert_eq!(m.to_string(), "999-999-9999");
}

#[test]
fn ordering_and_hash_consistency() {
    let a = parse("800-555-1212").unwrap();
    let b = parse("800-555-1212").unwrap();
    let c = parse("800-555-1213").unwrap();
    let d = parse("799-999-9999").unwrap();
    let e = parse("800-554-9999").unwrap();
    assert_eq!(a, b);
    assert_eq!(hash_of(&a), hash_of(&b));
    assert!(!(a < b) && !(b < a));
    assert_eq!(a.partial_cmp(&b), Some(Ordering::Equal));
    assert_eq!(a.cmp(&b), Ordering::Equal);
    assert!(a < c && c > a);
    assert!(d < a);
    assert!(e < a);
    assert_ne!(a, c);
    assert_eq!(a.cmp(&c), Ordering::Less);
    assert_eq!(d.cmp(&e), Ordering::Less);
    let mut all = vec![c, a, e, d];
    all.sort();
    assert_eq!(all, vec![d, e, a, c]);
}

#[test]
fn new_keeps_its_fields() {
    let p = PhoneNumber::new(800, 555, 1212);
    assert_eq!(fields(&p), (800, 555, 1212));
    assert_eq!(p.to_string(), "800-555-1212");
}

#[test]
fn padding_from_field_values() {
    let p = PhoneNumber::from_fields(7, 55, 1212).unwrap();
    assert_eq!(p.to_string(), "007-055-1212");
    assert_eq!(parse("007-055-1212"), Ok(p));
}

#[test]
fn fields_out_of_range_rejected() {
    assert!(PhoneNumber::from_fields(1000, 0, 0).is_none());
    assert!(PhoneNumber::from_fields(0, 1000, 0).is_none());
    assert!(PhoneNumber::from_fields(0, 0, 10000).is_none());
    let m = PhoneNumber::from_fields(999, 999, 9999).unwrap();
    assert_eq!(fields(&m), (999, 999, 9999));
}

#[test]
fn from_str_scenarios() {
    let v = random_phone_number();
    let back: Result<PhoneNumber, PhoneNumberParseError> = v.to_string().parse();
    assert_eq!(back, Ok(v));
    let p: Result<PhoneNumber, PhoneNumberParseError> = "800-555-1212".parse();
    assert_eq!(p.map(|p| fields(&p)), Ok((800, 555, 1212)));
    let cases = [
        ("1-555-1212", PhoneNumberParseError::InvalidAreaCode),
        ("80x-555-1212", PhoneNumberParseError::InvalidAreaCode),
        ("800-555", PhoneNumberParseError::InvalidFormat),
        ("800-555-1212-99", PhoneNumberParseError::InvalidFormat),
        ("800-5x5-1212", PhoneNumberParseError::InvalidExchange),
        ("800-555-12x2", PhoneNumberParseError::InvalidNumber),
    ];
    for (text, err) in cases {
        let r: Result<PhoneNumber, PhoneNumberParseError> = text.parse();
        assert_eq!(r, Err(err));
    }
}
