use zro::load::{load_dataset, make_entry, replace_underscores};

#[test]
fn underscores_become_spaces() {
    assert_eq!(replace_underscores("a_b_c"), "a b c");
    assert_eq!(replace_underscores("__x__"), "  x  ");
    assert_eq!(replace_underscores("plain"), "plain");
    assert_eq!(replace_underscores(""), "");
    assert_eq!(replace_underscores("\u{65e5}_\u{672c}"), "\u{65e5} \u{672c}");
}

#[test]
fn entries_normalize_only_the_key() {
    let e = make_entry("some_key", "some_value");
    assert_eq!(e.0, "some key");
    assert_eq!(e.1, "some_value");
}

#[test]
fn loads_records_after_the_header() {
    let data = b"key,value\na_b,hello\nc,d\n";
    let out = load_dataset(data);
    assert!(out.last_error.is_none());
    assert_eq!(out.entries.len(), 2);
    assert_eq!(out.entries[0], ("a b".to_string(), "hello".to_string()));
    assert_eq!(out.entries[1], ("c".to_string(), "d".to_string()));
}

#[test]
fn empty_source_yields_no_entries() {
    let out = load_dataset(b"");
    assert!(out.last_error.is_none());
    assert_eq!(out.entries.len(), 0);
}

#[test]
fn malformed_record_is_reported_and_skipped() {
    let data = b"key,value\na,b\nonly-one-field\nc,d\n";
    let out = load_dataset(data);
    assert!(out.last_error.is_some());
    assert_eq!(out.entries.len(), 2);
    assert_eq!(out.entries[0], ("a".to_string(), "b".to_string()));
    assert_eq!(out.entries[1], ("c".to_string(), "d".to_string()));
}

#[test]
fn single_column_records_report_short_records() {
    // A one-column header makes one-field records well-formed for the
    // parser, so they reach the loader's own two-field check.
    let data = b"key\na\nb\n";
    let out = load_dataset(data);
    assert_eq!(out.entries.len(), 0);
    assert_eq!(
        out.last_error,
        Some("record has fewer than two fields".to_string())
    );
}

#[test]
fn malformed_record_message_comes_from_the_parser() {
    let data: &[u8] = b"key,value\na,b\nbad\nc,d\ne\n";
    let out = load_dataset(data);

    let mut expected: Option<String> = None;
    let mut rdr = csv::Reader::from_reader(data);
    for rec in rdr.records() {
        if let Err(e) = rec {
            expected = Some(e.to_string());
        }
    }
    assert!(expected.is_some());
    assert_eq!(out.last_error, expected);
    assert_eq!(out.entries.len(), 2);
    assert_eq!(out.entries[0], ("a".to_string(), "b".to_string()));
    assert_eq!(out.entries[1], ("c".to_string(), "d".to_string()));
}

#[test]
fn quoted_fields_keep_their_delimiters() {
    let data = b"key,value\n\"a_b\",\"x,y\"\n";
    let out = load_dataset(data);
    assert!(out.last_error.is_none());
    assert_eq!(out.entries.len(), 1);
    assert_eq!(out.entries[0], ("a b".to_string(), "x,y".to_string()));
}
