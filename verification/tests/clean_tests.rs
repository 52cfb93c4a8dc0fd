use xlsx_link_scrub::clean::clean_workbook_xml;
use xlsx_link_scrub::clean::is_fully_cleaned;

#[test]
fn regex() {
    let s = r#"<definedName name="SomeName">[3]SomeWorkbook!$C:$C</definedName><definedName name="SomeOtherName">#N/A</definedName><definedName name="DontForgetMe">[3]AnotherWorkbook!$C$9</definedName> <definedName name="SomeOtherOtherName">#N/A</definedName>"#;
    let cleaned = clean_workbook_xml(s.as_bytes());
    assert_eq!(
        String::from_utf8(cleaned).unwrap(),
        String::from_utf8_lossy(
            r#"<definedName name="SomeOtherName">#N/A</definedName> <definedName name="SomeOtherOtherName">#N/A</definedName>"#.as_bytes()
        )
    );
}

#[test]
fn four_elements_two_removed() {
    // Four declared-name elements; the two holding a bracketed index go,
    // the other two and the text around them stay byte-identical.
    let s = "<definedName name=\"a\">[1]Ext!$A$1</definedName> <definedName name=\"b\">local</definedName>\n<definedName name=\"c\">pre [9]Ext!$B$2 post</definedName><definedName name=\"d\">#N/A</definedName> tail";
    let expected = " <definedName name=\"b\">local</definedName>\n<definedName name=\"d\">#N/A</definedName> tail";
    let cleaned = clean_workbook_xml(s.as_bytes());
    assert_eq!(cleaned, expected.as_bytes().to_vec());
}

#[test]
fn external_reference_block_removed() {
    let s = "<workbook><externalReferences><externalReference r=\"1\"/></externalReferences><x/></workbook>";
    let cleaned = clean_workbook_xml(s.as_bytes());
    assert_eq!(cleaned, "<workbook><x/></workbook>".as_bytes().to_vec());
}

#[test]
fn bracket_zero_is_kept() {
    // Only indices 1 through 9 count as external-workbook brackets.
    let s = "<definedName name=\"a\">[0]NotExternal</definedName>";
    let cleaned = clean_workbook_xml(s.as_bytes());
    assert_eq!(cleaned, s.as_bytes().to_vec());
}

#[test]
fn clean_twice_equals_clean_once() {
    let s = "<workbook><definedName name=\"a\">[2]Ext!$A$1</definedName><definedName name=\"b\">#N/A</definedName><externalReferences><externalReference/></externalReferences></workbook>";
    let once = clean_workbook_xml(s.as_bytes());
    assert!(is_fully_cleaned(&once));
    let twice = clean_workbook_xml(&once);
    assert_eq!(once, twice);
}

#[test]
fn nested_elements_defeat_idempotence() {
    // Removing an inner element can splice its neighbours into a fresh
    // pattern, so a second pass can remove more; the idempotence law
    // therefore asks that the first pass leave no pattern behind.
    let s = "<definedName a>[1]<definedName b>[2]</definedName></definedName>";
    let once = clean_workbook_xml(s.as_bytes());
    assert!(!is_fully_cleaned(&once));
    let twice = clean_workbook_xml(&once);
    assert_ne!(once, twice);
    assert!(is_fully_cleaned(&twice));
}

#[test]
fn malformed_text_passes_through() {
    let s = "<definedName never closed [3] ...";
    let cleaned = clean_workbook_xml(s.as_bytes());
    assert_eq!(cleaned, s.as_bytes().to_vec());
}
