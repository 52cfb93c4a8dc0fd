use xlsx_link_scrub::rewrite::read_entries;
use xlsx_link_scrub::rewrite::repack_entries;
use xlsx_link_scrub::rewrite::rewrite_container;
use xlsx_link_scrub::rewrite::is_safe_entry_name;
use xlsx_link_scrub::rewrite::validate_compression_level;
use xlsx_link_scrub::rewrite::ArchiveEntry;
use xlsx_link_scrub::search::check_file;
use xlsx_link_scrub::search::is_xlsx_path;

fn entry(name: &str, data: &[u8]) -> ArchiveEntry {
    ArchiveEntry { name: name.as_bytes().to_vec(), data: data.to_vec() }
}

#[test]
fn detect_rejects_non_container() {
    let bytes = b"this is not a zip container at all".to_vec();
    assert!(!check_file(&bytes));
    let empty: Vec<u8> = Vec::new();
    assert!(!check_file(&empty));
}

#[test]
fn detect_finds_links_entry() {
    let with_links = vec![
        entry("xl/workbook.xml", b"<workbook/>"),
        entry("xl/externalLinks/externalLink1.xml", b"<externalLink/>"),
    ];
    let packed = repack_entries(&with_links, 3).unwrap();
    assert!(check_file(&packed));

    let without_links = vec![
        entry("xl/workbook.xml", b"<workbook/>"),
        entry("xl/worksheets/sheet1.xml", b"<sheet/>"),
    ];
    let packed = repack_entries(&without_links, 3).unwrap();
    assert!(!check_file(&packed));
}

#[test]
fn round_trip_keeps_entries() {
    let entries = vec![
        entry("xl/workbook.xml", b"<workbook><definedName name=\"b\">#N/A</definedName></workbook>"),
        entry("xl/worksheets/sheet1.xml", b"<sheet>data</sheet>"),
        entry("docProps/app.xml", b"<app/>"),
    ];
    let packed = repack_entries(&entries, 6).unwrap();
    let back = read_entries(&packed).unwrap();
    assert_eq!(back.len(), entries.len());
    for (a, b) in back.iter().zip(entries.iter()) {
        assert_eq!(a.name, b.name);
        assert_eq!(a.data, b.data);
    }
    // A rewrite of a container with nothing to remove keeps it equivalent.
    let rewritten = rewrite_container(&packed, 3).unwrap();
    let back = read_entries(&rewritten).unwrap();
    assert_eq!(back.len(), entries.len());
    for (a, b) in back.iter().zip(entries.iter()) {
        assert_eq!(a.name, b.name);
        assert_eq!(a.data, b.data);
    }
}

#[test]
fn rewrite_scrubs_links() {
    let descriptor = "<workbook><definedName name=\"a\">[3]Book!$C:$C</definedName><definedName name=\"b\">#N/A</definedName><externalReferences><externalReference r=\"1\"/></externalReferences></workbook>";
    let entries = vec![
        entry("xl/workbook.xml", descriptor.as_bytes()),
        entry("xl/externalLinks/externalLink1.xml", b"<externalLink/>"),
        entry("xl/externalLinks/_rels/externalLink1.xml.rels", b"<rels/>"),
        entry("xl/worksheets/sheet1.xml", b"<sheet/>"),
    ];
    let packed = repack_entries(&entries, 3).unwrap();
    assert!(check_file(&packed));

    let rewritten = rewrite_container(&packed, 3).unwrap();
    let back = read_entries(&rewritten).unwrap();
    assert_eq!(back.len(), 2);
    assert_eq!(back[0].name, b"xl/workbook.xml".to_vec());
    assert_eq!(
        back[0].data,
        b"<workbook><definedName name=\"b\">#N/A</definedName></workbook>".to_vec()
    );
    assert_eq!(back[1].name, b"xl/worksheets/sheet1.xml".to_vec());
    assert_eq!(back[1].data, b"<sheet/>".to_vec());
    for e in back.iter() {
        let name = String::from_utf8(e.name.clone()).unwrap();
        assert!(!name.contains("externalLinks"));
    }
    // The rewritten container no longer matches.
    assert!(!check_file(&rewritten));
}

#[test]
fn rewrite_drops_links_even_when_descriptor_is_clean() {
    let entries = vec![
        entry("xl/workbook.xml", b"<workbook/>"),
        entry("xl/externalLinks/externalLink1.xml", b"<externalLink/>"),
    ];
    let packed = repack_entries(&entries, 3).unwrap();
    let rewritten = rewrite_container(&packed, 3).unwrap();
    let back = read_entries(&rewritten).unwrap();
    assert_eq!(back.len(), 1);
    assert_eq!(back[0].name, b"xl/workbook.xml".to_vec());
    assert_eq!(back[0].data, b"<workbook/>".to_vec());
}

#[test]
fn rewrite_refuses_non_container() {
    let bytes = b"garbage".to_vec();
    assert!(rewrite_container(&bytes, 3).is_none());
}

#[test]
fn traversal_unsafe_names_are_skipped() {
    assert!(is_safe_entry_name(b"xl/workbook.xml"));
    assert!(is_safe_entry_name(b"a..b/c"));
    assert!(!is_safe_entry_name(b""));
    assert!(!is_safe_entry_name(b"/absolute"));
    assert!(!is_safe_entry_name(b".."));
    assert!(!is_safe_entry_name(b"../evil"));
    assert!(!is_safe_entry_name(b"xl/../../evil"));
    assert!(!is_safe_entry_name(b"xl\\evil"));
    assert!(!is_safe_entry_name(b"c:evil"));

    let entries = vec![
        entry("xl/workbook.xml", b"<workbook/>"),
        entry("../escape.txt", b"evil"),
    ];
    let packed = repack_entries(&entries, 3).unwrap();
    let rewritten = rewrite_container(&packed, 3).unwrap();
    let back = read_entries(&rewritten).unwrap();
    assert_eq!(back.len(), 1);
    assert_eq!(back[0].name, b"xl/workbook.xml".to_vec());
}

#[test]
fn repack_refuses_duplicate_names() {
    let entries = vec![
        entry("xl/workbook.xml", b"<workbook/>"),
        entry("xl/workbook.xml", b"<workbook again/>"),
    ];
    assert!(repack_entries(&entries, 3).is_none());
}

#[test]
fn repack_refuses_non_utf8_name() {
    let entries = vec![ArchiveEntry { name: vec![0xFF, 0xFE], data: b"x".to_vec() }];
    assert!(repack_entries(&entries, 3).is_none());
}

#[test]
fn compression_level_range_is_validated() {
    assert!(validate_compression_level(0).is_err());
    assert_eq!(validate_compression_level(1), Ok(1));
    assert_eq!(validate_compression_level(3), Ok(3));
    assert_eq!(validate_compression_level(9), Ok(9));
    assert!(validate_compression_level(10).is_err());
    assert!(validate_compression_level(-1).is_err());
}

#[test]
fn extension_gate() {
    assert!(is_xlsx_path("dir/book.xlsx"));
    assert!(is_xlsx_path("a.xlsx"));
    assert!(is_xlsx_path("dir/report.v2.xlsx"));
    assert!(!is_xlsx_path("book.XLSX"));
    assert!(!is_xlsx_path(".xlsx"));
    assert!(!is_xlsx_path("dir/.xlsx"));
    assert!(!is_xlsx_path("book.xls"));
    assert!(!is_xlsx_path("book.xlsx.bak"));
}
