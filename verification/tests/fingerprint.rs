//! The content fingerprint: SHA-256 over doc-string bytes then body bytes.

use sha2::Digest;

use docuforce::FunctionData;
use docuforce::Point;

fn record(name: &str, doc: &str, body: &str, row: usize, column: usize) -> FunctionData {
    FunctionData {
        position: Point { row, column },
        name: name.to_string(),
        doc_string: doc.to_string(),
        body: body.to_string(),
    }
}

#[test]
fn empty_content_gives_known_digest() {
    let r = record("f", "", "", 0, 0);
    assert_eq!(
        r.compute_hash(),
        "e3b0c44298fc1c149afbf4c8996fb92427ae41e4649b934ca495991b7852b855"
    );
}

#[test]
fn hash_matches_direct_sha256_of_concatenation() {
    let r = record("f", "/// d\n", "fn f() {}", 3, 7);
    let expected = hex::encode(sha2::Sha256::digest(b"/// d\nfn f() {}"));
    assert_eq!(r.compute_hash(), expected);
    assert_eq!(r.compute_hash().len(), 64);
}

#[test]
fn name_and_position_do_not_matter() {
    let a = record("first", "/// doc\n", "fn first() { 1 }", 0, 0);
    let b = record("renamed", "/// doc\n", "fn first() { 1 }", 9, 4);
    assert_eq!(a.compute_hash(), b.compute_hash());
}

#[test]
fn content_change_changes_hash() {
    let a = record("f", "/// doc\n", "fn f() { 1 }", 0, 0);
    let b = record("f", "/// doc\n", "fn f() { 2 }", 0, 0);
    let c = record("f", "/// doc!\n", "fn f() { 1 }", 0, 0);
    assert_ne!(a.compute_hash(), b.compute_hash());
    assert_ne!(a.compute_hash(), c.compute_hash());
}

#[test]
fn fingerprint_reads_the_concatenation() {
    // The hash is taken over doc-string bytes followed by body bytes, so
    // moving characters across that boundary preserves it.
    let a = record("f", "ab", "c", 0, 0);
    let b = record("g", "a", "bc", 1, 1);
    assert_eq!(a.compute_hash(), b.compute_hash());
}
