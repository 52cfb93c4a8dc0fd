use xlsx_link_scrub::ctx::Context;
use xlsx_link_scrub::enumerate::effective_size_cap;
use xlsx_link_scrub::enumerate::keep_candidate;
use xlsx_link_scrub::enumerate::render_report;
use xlsx_link_scrub::meta::apply_snapshot;
use xlsx_link_scrub::meta::to_filetime;
use xlsx_link_scrub::meta::FileTimes;
use xlsx_link_scrub::meta::MetaApply;
use xlsx_link_scrub::meta::TimeSpec;

#[test]
fn test_default_values() {
    assert_eq!(Context::new().remove, None);
}

#[test]
fn size_cap_boundary() {
    // Exactly at the cap: excluded.  One byte smaller: kept.
    assert!(!keep_candidate("a.xlsx", 1024, 1024, None, None));
    assert!(keep_candidate("a.xlsx", 1023, 1024, None, None));
}

#[test]
fn default_cap_is_one_gibibyte() {
    assert_eq!(effective_size_cap(None), 1073741824);
    assert_eq!(effective_size_cap(Some(2048)), 2048);
}

#[test]
fn exclude_wins_over_inclusion() {
    let inc = Some("foo");
    let exc = Some("bar");
    assert!(!keep_candidate("dir/foo_bar.xlsx", 1, 100, inc, exc));
    assert!(keep_candidate("dir/foo.xlsx", 1, 100, inc, exc));
    assert!(!keep_candidate("dir/bar.xlsx", 1, 100, inc, exc));
    assert!(!keep_candidate("dir/plain.xlsx", 1, 100, inc, exc));
}

#[test]
fn patterns_are_case_insensitive() {
    assert!(keep_candidate("DIR/FOO.XLSX", 1, 100, Some("foo"), None));
    assert!(!keep_candidate("DIR/BAR.XLSX", 1, 100, None, Some("Bar")));
}

#[test]
fn report_layout() {
    let list = vec![String::from("C:/data/a.xlsx"), String::from("C:/data/b.xlsx")];
    let report = render_report(&list);
    assert_eq!(report, b"path\nC:/data/a.xlsx\nC:/data/b.xlsx\n".to_vec());
    let empty: Vec<String> = Vec::new();
    assert_eq!(render_report(&empty), b"path\n".to_vec());
}

#[test]
fn snapshot_fields_are_independent() {
    let mut snap = MetaApply::new();
    assert!(snap.created_time.is_none());
    assert!(snap.last_accessed.is_none());
    assert!(snap.last_modified.is_none());
    snap.add_last_modified(TimeSpec { seconds: 7, nanos: 0 });
    assert!(snap.created_time.is_none());
    assert!(snap.last_accessed.is_none());
    assert_eq!(snap.last_modified, Some(TimeSpec { seconds: 7, nanos: 0 }));

    let current = FileTimes {
        created: TimeSpec { seconds: 1, nanos: 2 },
        accessed: TimeSpec { seconds: 3, nanos: 4 },
        modified: TimeSpec { seconds: 5, nanos: 6 },
    };
    let after = apply_snapshot(current, snap);
    // The present field reads back as snapshotted; absent fields are untouched.
    assert_eq!(after.modified, TimeSpec { seconds: 7, nanos: 0 });
    assert_eq!(after.created, current.created);
    assert_eq!(after.accessed, current.accessed);
}

#[test]
fn filetime_split() {
    let parts = to_filetime(TimeSpec { seconds: 1, nanos: 0 });
    assert_eq!(parts.low, 10_000_000);
    assert_eq!(parts.high, 0);
    // 430 s is 4_300_000_000 intervals, which crosses the 32-bit boundary.
    let parts = to_filetime(TimeSpec { seconds: 430, nanos: 150 });
    assert_eq!(parts.low, 5_032_705);
    assert_eq!(parts.high, 1);
    // One second before the epoch wraps into the unsigned 64-bit record:
    // the halves are those of -10_000_000 in two's complement.
    let parts = to_filetime(TimeSpec { seconds: -1, nanos: 0 });
    assert_eq!(parts.low, 4_284_967_296);
    assert_eq!(parts.high, 4_294_967_295);
    assert_eq!(parts.low, (-10_000_000i64) as u32);
    assert_eq!(parts.high, ((-10_000_000i64) >> 32) as u32);
}

#[test]
fn describe_of_empty_snapshot() {
    let snap = MetaApply::new();
    let text = snap.describe().unwrap();
    assert_eq!(
        String::from_utf8(text).unwrap(),
        "created_time: None\nlast_accessed: None\nlast_modified: None\n"
    );
}

#[test]
fn describe_refuses_uncalendared_timestamp() {
    let mut snap = MetaApply::new();
    snap.add_created_time(TimeSpec { seconds: i64::MAX, nanos: 0 });
    assert!(snap.describe().is_none());
}

#[test]
fn describe_shows_days_and_absent_fields() {
    let mut snap = MetaApply::new();
    snap.add_created_time(TimeSpec { seconds: 0, nanos: 0 });
    let text = snap.describe().unwrap();
    assert_eq!(
        String::from_utf8(text).unwrap(),
        "created_time: 1970-01-01\nlast_accessed: None\nlast_modified: None\n"
    );
}
