//! Core data model: source positions, extracted function records, the content
//! fingerprint that keys the verdict cache, and the assessor persona.

use sha2::Digest;
use vstd::prelude::*;
use vstd::utf8::encode_utf8;

verus! {

/// A line/column position in the source text.
///
/// `(0, 0)` doubles as the sentinel for "no comment present"; callers must not
/// read the sentinel as "documented at the start of the file".
#[derive(Debug, Clone, Copy, PartialEq, Eq, Structural)]
pub struct Point {
    pub row: usize,
    pub column: usize,
}

impl Point {
    /// The sentinel position used when a record has no leading comment.
    pub open spec fn sentinel() -> Point {
        Point { row: 0, column: 0 }
    }
}

impl Default for Point {
    fn default() -> (r: Point)
        ensures
            r == Point::sentinel(),
    {
        Point { row: 0, column: 0 }
    }
}

/// Mathematical content of a [`FunctionData`] record.
pub ghost struct FunctionDataView {
    pub position: Point,
    pub name: Seq<char>,
    pub doc_string: Seq<char>,
    pub body: Seq<char>,
}

/// One documented-or-undocumented function found in source text.
///
/// `doc_string` and `body` are byte-exact substrings of the original source;
/// no normalization is applied before fingerprinting.
#[derive(Debug, Clone)]
pub struct FunctionData {
    /// Position of the first associated comment, or the sentinel if none.
    pub position: Point,
    /// The function identifier.
    pub name: String,
    /// Concatenation of all consecutive leading doc-comment lines, in source
    /// order; empty if none exist.
    pub doc_string: String,
    /// The full textual span of the function definition.
    pub body: String,
}

impl View for FunctionData {
    type V = FunctionDataView;

    open spec fn view(&self) -> FunctionDataView {
        FunctionDataView {
            position: self.position,
            name: self.name@,
            doc_string: self.doc_string@,
            body: self.body@,
        }
    }
}

impl DeepView for FunctionData {
    type V = FunctionDataView;

    open spec fn deep_view(&self) -> FunctionDataView {
        self.view()
    }
}

/// The lowercase hex digest that SHA-256 assigns to a byte sequence.
///
/// The digest is a pure function of the bytes alone; its value is stated
/// nowhere in this crate, only its length (32 bytes, two hex digits each).
pub uninterp spec fn sha256_hex_of(data: Seq<u8>) -> Seq<char>;

/// The content fingerprint of a record: the SHA-256 hex digest of the
/// doc-string bytes followed by the body bytes. The record's name and
/// position are deliberately excluded.
pub open spec fn fingerprint_of(doc_string: Seq<char>, body: Seq<char>) -> Seq<char> {
    sha256_hex_of(encode_utf8(doc_string) + encode_utf8(body))
}

/// Relies on sha2's `Sha256` (through the `Digest` trait) for the digest of
/// the given bytes, and on `hex::encode` for its lowercase hex form: two
/// digits per digest byte, and a SHA-256 digest is 32 bytes.
#[verifier::external_body]
fn sha256_hex(data: &[u8]) -> (r: String)
    ensures
        r@ == sha256_hex_of(data@),
        r@.len() == 64,
{
    hex::encode(sha2::Sha256::digest(data))
}

impl FunctionData {
    /// The stable content hash of this record: SHA-256 over the
    /// concatenation of `doc_string` bytes and `body` bytes, as a lowercase
    /// hex string. Ignores `name` and `position`.
    pub fn compute_hash(&self) -> (r: String)
        ensures
            r@ == fingerprint_of(self.doc_string@, self.body@),
            r@.len() == 64,
    {
        let mut data: Vec<u8> = self.doc_string.as_str().as_bytes_vec();
        let mut tail: Vec<u8> = self.body.as_str().as_bytes_vec();
        data.append(&mut tail);
        sha256_hex(data.as_slice())
    }
}

/// Two records with the same documentation text and the same body text get
/// the same fingerprint, whatever their names and positions: the fingerprint
/// tracks content only. (The converse does not hold in general: the
/// fingerprint reads the concatenation of the two fields, so moving
/// characters across the doc/body boundary preserves it, as does any hash
/// collision.)
pub proof fn lemma_fingerprint_content_only(a: FunctionDataView, b: FunctionDataView)
    requires
        a.doc_string == b.doc_string,
        a.body == b.body,
    ensures
        fingerprint_of(a.doc_string, a.body) == fingerprint_of(b.doc_string, b.body),
{
}

/// Immutable assessor-persona configuration: how a remote conversation
/// session is initialized. Constructed once with static defaults; never
/// persisted.
#[derive(Debug, Clone)]
pub struct DocumentationAssistant {
    pub name: String,
    pub instructions: String,
    pub model: String,
}

} // verus!
