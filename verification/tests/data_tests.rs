use s3plot::data::{select_primary, DataEntry, EntryKind, LogStream, Version};
use s3plot::num::Num;
use s3plot::sanity::sanity_check;

fn num(v: f64) -> Num {
    Num::from_text(format!("{}", v).as_bytes()).expect("valid float text")
}

fn entry(name: &str, kind: EntryKind) -> DataEntry {
    DataEntry { name: name.to_string(), kind }
}

#[test]
fn sanity_accepts_plausible_channels() {
    let entries = vec![
        entry("a", EntryKind::U8(vec![1, 2, 254])),
        entry("b", EntryKind::I16(vec![-100, 100])),
        entry("c", EntryKind::F64(vec![num(0.5), num(-3.25)])),
        entry("d", EntryKind::Bool(vec![true, false])),
    ];
    assert!(sanity_check(&entries).is_ok());
}

#[test]
fn sanity_reports_integer_extremes() {
    let entries = vec![entry("amps", EntryKind::I16(vec![5, i16::MAX]))];
    let err = sanity_check(&entries).err().expect("must fail");
    assert_eq!(err.0, "'amps' is max");

    let entries = vec![entry("amps", EntryKind::U8(vec![3, 0]))];
    let err = sanity_check(&entries).err().expect("must fail");
    assert_eq!(err.0, "'amps' is min");
}

#[test]
fn sanity_reports_nan_and_infinity() {
    let entries = vec![entry("p", EntryKind::F64(vec![num(1.0), num(f64::NAN)]))];
    let err = sanity_check(&entries).err().expect("must fail");
    assert_eq!(err.0, "'p' is nan");

    let entries = vec![entry("p", EntryKind::F32(vec![num(f64::INFINITY)]))];
    let err = sanity_check(&entries).err().expect("must fail");
    assert_eq!(err.0, "'p' is infinite");

    let entries = vec![entry("p", EntryKind::F64(vec![num(f64::NEG_INFINITY)]))];
    let err = sanity_check(&entries).err().expect("must fail");
    assert_eq!(err.0, "'p' is infinite");
}

#[test]
fn sanity_reports_first_faulting_channel() {
    let entries = vec![
        entry("ok", EntryKind::U16(vec![5])),
        entry("bad1", EntryKind::U16(vec![u16::MAX])),
        entry("bad2", EntryKind::U16(vec![0])),
    ];
    let err = sanity_check(&entries).err().expect("must fail");
    assert_eq!(err.0, "'bad1' is max");
}

#[test]
fn header_match_and_extend() {
    let mut a = LogStream {
        version: Version::V1,
        start: None,
        time: vec![0, 20],
        entries: vec![
            entry("u", EntryKind::U8(vec![1, 2])),
            entry("f", EntryKind::F64(vec![num(1.0), num(2.0)])),
        ],
    };
    let b = LogStream {
        version: Version::V1,
        start: None,
        time: vec![40, 60],
        entries: vec![
            entry("u", EntryKind::U8(vec![3, 4])),
            entry("f", EntryKind::F64(vec![num(3.0), num(4.0)])),
        ],
    };
    let c = LogStream {
        version: Version::V1,
        start: None,
        time: vec![0],
        entries: vec![entry("u", EntryKind::I8(vec![1]))],
    };
    assert!(a.header_matches(&b));
    assert!(!a.header_matches(&c));

    a.reserve(2);
    a.extend(&b);
    assert_eq!(a.time, vec![0, 20, 40, 60]);
    match &a.entries[0].kind {
        EntryKind::U8(v) => assert_eq!(v, &vec![1, 2, 3, 4]),
        _ => panic!("type changed"),
    }
    assert_eq!(a.len(), 4);
}

#[test]
fn entry_kind_matches_is_by_type_only() {
    let x = EntryKind::F32(vec![]);
    let y = EntryKind::F32(vec![num(1.0)]);
    let z = EntryKind::F64(vec![]);
    assert!(x.matches(&y));
    assert!(!x.matches(&z));
}

#[test]
fn primary_stream_has_densest_sampling() {
    let sparse = LogStream {
        version: Version::V1,
        start: None,
        time: vec![0, 100, 200, 300],
        entries: vec![],
    };
    let dense = LogStream {
        version: Version::V1,
        start: None,
        time: vec![0, 10, 20, 30],
        entries: vec![],
    };
    let streams = vec![sparse, dense];
    assert_eq!(select_primary(&streams), 1);

    let single = LogStream { version: Version::V1, start: None, time: vec![5], entries: vec![] };
    let streams = vec![single];
    assert_eq!(select_primary(&streams), 0);
}

#[test]
fn version_labels() {
    assert_eq!(Version::V1.label(), "v1");
    assert_eq!(Version::V2.label(), "v2");
}

#[test]
fn entry_kind_codes_round_trip() {
    for code in 0u8..=10 {
        let kind = EntryKind::from_code(code).expect("known code");
        assert_eq!(kind.len(), 0);
        let expected_size = match code {
            0 | 1 | 5 => 1,
            2 | 6 => 2,
            3 | 7 | 9 => 4,
            _ => 8,
        };
        assert_eq!(kind.size(), expected_size, "code {code}");
    }
    match EntryKind::from_code(11) {
        Err(s3plot::data::Error::UnknownDatatype(c)) => assert_eq!(c, 11),
        _ => panic!("code 11 must be rejected"),
    }
}

#[test]
fn reserve_changes_nothing_observable() {
    let mut s = LogStream {
        version: Version::V2,
        start: Some(1_700_000_000),
        time: vec![0, 20],
        entries: vec![entry("u", EntryKind::U8(vec![1, 2]))],
    };
    s.reserve(1000);
    assert_eq!(s.version, Version::V2);
    assert_eq!(s.start, Some(1_700_000_000));
    assert_eq!(s.time, vec![0, 20]);
    match &s.entries[0].kind {
        EntryKind::U8(v) => assert_eq!(v, &vec![1, 2]),
        _ => panic!("type changed"),
    }
}
