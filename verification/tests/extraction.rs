//! Extraction through the real structural parser.

use docuforce::parser::extract_function_data;
use docuforce::parser::record_from_match;
use docuforce::parser::records_from_matches;
use docuforce::parser::Command;
use docuforce::parser::CommentParser;
use docuforce::parser::RawCapture;
use docuforce::parser::RawMatch;
use docuforce::Point;

fn extract(source: &str) -> Vec<docuforce::FunctionData> {
    let mut parser = CommentParser::maybe_new_rust_parser().expect("rust parser should load");
    extract_function_data(source, &mut parser).expect("source should parse")
}

#[test]
fn scenario_two_comment_lines() {
    let records = extract("/// line one\n/// line two\nfn f() { 1 }");
    assert_eq!(records.len(), 1);
    assert_eq!(records[0].name, "f");
    assert_eq!(records[0].doc_string, "/// line one\n/// line two\n");
    assert_eq!(records[0].body, "fn f() { 1 }");
    assert_eq!(records[0].position, Point { row: 0, column: 0 });
}

#[test]
fn scenario_no_comments() {
    let records = extract("fn g() { 2 }");
    assert_eq!(records.len(), 1);
    assert_eq!(records[0].name, "g");
    assert_eq!(records[0].doc_string, "");
    assert_eq!(records[0].position, Point::default());
}

#[test]
fn single_comment_borrowed_text() {
    let records = extract("/// only line\nfn h() {}");
    assert_eq!(records.len(), 1);
    assert_eq!(records[0].doc_string, "/// only line\n");
    assert_eq!(records[0].position, Point { row: 0, column: 0 });
}

#[test]
fn one_record_per_function() {
    let source = "/// doc a\nfn a() {}\n\nfn b() {}\n\n/// doc c\nfn c() {}\n";
    let records = extract(source);
    assert_eq!(records.len(), 3);
    assert_eq!(records[0].name, "a");
    assert_eq!(records[1].name, "b");
    assert_eq!(records[2].name, "c");
    assert_eq!(records[1].doc_string, "");
    assert_eq!(records[2].doc_string, "/// doc c\n");
}

#[test]
fn comment_position_tracks_first_comment() {
    let records = extract("fn a() {}\n/// later doc\nfn b() {}\n");
    assert_eq!(records.len(), 2);
    assert_eq!(records[1].name, "b");
    assert_eq!(records[1].position, Point { row: 1, column: 0 });
}

#[test]
fn interrupted_comment_run_does_not_attach() {
    let records = extract("/// stray\nstruct S;\nfn f() {}\n");
    assert_eq!(records.len(), 1);
    assert_eq!(records[0].name, "f");
    assert_eq!(records[0].doc_string, "");
    assert_eq!(records[0].position, Point::default());
}

#[test]
fn record_building_from_plain_captures() {
    let cap = |index: u32, text: &str, row: usize, column: usize| RawCapture {
        index,
        text: text.to_string(),
        row,
        column,
    };
    // capture groups: 0 = comment, 1 = identifier, 2 = body
    let documented = RawMatch {
        captures: vec![
            cap(0, "/// one\n", 3, 4),
            cap(0, "/// two\n", 4, 4),
            cap(2, "fn f() {}", 5, 0),
            cap(1, "f", 5, 3),
        ],
    };
    let bare = RawMatch {
        captures: vec![cap(2, "fn g() {}", 9, 0), cap(1, "g", 9, 3)],
    };
    let incomplete = RawMatch { captures: vec![cap(0, "/// stray\n", 0, 0)] };

    let r = record_from_match(&documented, 0, 1, 2).expect("documented match yields a record");
    assert_eq!(r.name, "f");
    assert_eq!(r.doc_string, "/// one\n/// two\n");
    assert_eq!(r.body, "fn f() {}");
    assert_eq!(r.position, docuforce::Point { row: 3, column: 4 });

    // a match without identifier or body captures yields no record
    assert!(record_from_match(&incomplete, 0, 1, 2).is_none());

    let records = records_from_matches(&vec![documented, bare, incomplete], 0, 1, 2);
    assert_eq!(records.len(), 2);
    assert_eq!(records[0].name, "f");
    assert_eq!(records[1].name, "g");
    assert_eq!(records[1].doc_string, "");
    assert_eq!(records[1].position, docuforce::Point::default());
}

#[test]
fn command_capture_names() {
    assert_eq!(Command::CodeBody.as_str(), "code.body");
    assert_eq!(Command::CodeIdentifier.as_str(), "code.identifier");
    assert_eq!(Command::Comment.as_str(), "comment");
}

#[test]
fn body_is_exact_span() {
    let source = "/// d\nfn spaced( x : u8 )  ->  u8 { x }";
    let records = extract(source);
    assert_eq!(records.len(), 1);
    assert_eq!(records[0].body, "fn spaced( x : u8 )  ->  u8 { x }");
    assert_eq!(records[0].doc_string, "/// d\n");
}
