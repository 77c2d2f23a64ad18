//! Extraction: runs a structural query over parsed Rust source and turns
//! each match into a [`FunctionData`] record, associating a function with the
//! run of doc comments immediately preceding it.
//!
//! The structural parsing itself is delegated to tree-sitter; everything the
//! library reads of a match — capture indices, capture text, start positions
//! — comes back as plain values, and the record-building logic over those
//! values is verified.

use streaming_iterator::StreamingIterator;
use vstd::prelude::*;

use crate::types::FunctionData;
use crate::types::FunctionDataView;
use crate::types::Point;

verus! {

#[verifier::external_type_specification]
#[verifier::external_body]
pub struct ExTsParser(tree_sitter::Parser);

#[verifier::external_type_specification]
#[verifier::external_body]
pub struct ExTsQuery(tree_sitter::Query);

#[verifier::external_type_specification]
#[verifier::external_body]
pub struct ExTsLanguage(tree_sitter::Language);

/// The three named capture groups a structural query must expose.
#[derive(Debug, Clone, Copy, PartialEq, Eq, Structural)]
pub enum Command {
    CodeBody,
    CodeIdentifier,
    Comment,
}

impl Command {
    /// The capture name this command stands for in the query.
    pub open spec fn spec_str(self) -> Seq<char> {
        match self {
            Command::CodeBody => "code.body"@,
            Command::CodeIdentifier => "code.identifier"@,
            Command::Comment => "comment"@,
        }
    }

    /// The capture name this command stands for in the query.
    pub fn as_str(&self) -> (r: &'static str)
        ensures
            r@ == self.spec_str(),
    {
        match self {
            Command::CodeBody => "code.body",
            Command::CodeIdentifier => "code.identifier",
            Command::Comment => "comment",
        }
    }
}

/// The text of the library's structural query for Rust: a function
/// definition together with the run of line comments immediately preceding
/// it (anchored, so an unrelated node between comments and function breaks
/// the association).
pub open spec fn rust_query_spec() -> Seq<char> {
    "((line_comment)* @comment . (function_item name: (identifier) @code.identifier) @code.body)"@
}

/// The structural query for Rust, as source text.
fn rust_query_text() -> (r: &'static str)
    ensures
        r@ == rust_query_spec(),
{
    "((line_comment)* @comment . (function_item name: (identifier) @code.identifier) @code.body)"
}

/// One capture of a structural-query match, as plain values: which capture
/// group it belongs to, the captured node's text, and the node's start
/// position.
#[derive(Debug)]
pub struct RawCapture {
    pub index: u32,
    pub text: String,
    pub row: usize,
    pub column: usize,
}

/// One structural-query match: its captures, in query order.
#[derive(Debug)]
pub struct RawMatch {
    pub captures: Vec<RawCapture>,
}

/// What evaluating the library's fixed Rust query against a source text
/// yields: `None` if the text cannot be parsed at all, else the matches in
/// document order. Parsing and query evaluation are deterministic, so this
/// is a function of the source text alone.
pub uninterp spec fn rust_query_matches(source: Seq<char>) -> Option<Seq<RawMatch>>;

/// What setting up the fixed Rust grammar with a query text yields: `None`
/// if the grammar cannot be loaded or the text does not compile against it
/// or any of the capture groups `comment`, `code.identifier` and `code.body`
/// is missing; otherwise the indices of exactly those three groups, in that
/// order. The grammar and the group names are fixed, and tree-sitter query
/// compilation is deterministic, so the outcome is a function of the query
/// text alone.
pub uninterp spec fn rust_query_setup(text: Seq<char>) -> Option<(u32, u32, u32)>;

/// Relies on `tree_sitter_rust::LANGUAGE` with `tree_sitter::Language::new`,
/// `tree_sitter::Parser::new` and `Parser::set_language`,
/// `tree_sitter::Query::new`, and `Query::capture_index_for_name` for the
/// groups `comment`, `code.identifier` and `code.body`: the whole setup
/// succeeds or fails as one step, which `rust_query_setup` names — the
/// parser, the compiled query, and the three capture indices. The calls
/// stand together because the parser and query must be built against the
/// same `Language` value, which cannot outlive the call on its own.
#[verifier::external_body]
fn build_rust_parser_parts(text: &str) -> (r: Option<
    (tree_sitter::Parser, tree_sitter::Query, u32, u32, u32),
>)
    ensures
        match rust_query_setup(text@) {
            Some(t) => r matches Some(p) && p.2 == t.0 && p.3 == t.1 && p.4 == t.2,
            None => r is None,
        },
{
    let language = tree_sitter::Language::new(tree_sitter_rust::LANGUAGE);
    let mut ts_parser = tree_sitter::Parser::new();
    ts_parser.set_language(&language).ok()?;
    let query = tree_sitter::Query::new(&language, text).ok()?;
    let comment = query.capture_index_for_name("comment")?;
    let identifier = query.capture_index_for_name("code.identifier")?;
    let body = query.capture_index_for_name("code.body")?;
    Some((ts_parser, query, comment, identifier, body))
}

/// A parser holding a validated structural query: the query compiled and all
/// three capture groups present, with their indices recorded.
pub struct CommentParser {
    ts_parser: tree_sitter::Parser,
    query: tree_sitter::Query,
    comment_index: u32,
    identifier_index: u32,
    body_index: u32,
}

impl CommentParser {
    /// The capture index of the `comment` group.
    pub closed spec fn comment_capture(self) -> u32 {
        self.comment_index
    }

    /// The capture index of the `code.identifier` group.
    pub closed spec fn identifier_capture(self) -> u32 {
        self.identifier_index
    }

    /// The capture index of the `code.body` group.
    pub closed spec fn body_capture(self) -> u32 {
        self.body_index
    }

    /// A Rust parser with the library's structural query: `Some` exactly
    /// when the grammar loads, the fixed query compiles, and the three
    /// required capture groups are present, and then the held capture
    /// indices are those of `comment`, `code.identifier` and `code.body`.
    /// `None` otherwise — extraction is then unavailable as a whole.
    pub fn maybe_new_rust_parser() -> (r: Option<CommentParser>)
        ensures
            match rust_query_setup(rust_query_spec()) {
                Some(t) => r matches Some(p) && p.comment_capture() == t.0
                    && p.identifier_capture() == t.1 && p.body_capture() == t.2,
                None => r is None,
            },
    {
        match build_rust_parser_parts(rust_query_text()) {
            Some((ts_parser, query, comment_index, identifier_index, body_index)) => Some(
                CommentParser {
                    ts_parser,
                    query,
                    comment_index,
                    identifier_index,
                    body_index,
                },
            ),
            None => None,
        }
    }

    /// Relies on `tree_sitter::Parser::parse` and
    /// `tree_sitter::QueryCursor::matches`: evaluates the held query over the
    /// parsed source and hands each match's captures out as plain values.
    /// Every `CommentParser` holds the same fixed Rust query (the type's one
    /// constructor builds it), and tree-sitter parses and matches
    /// deterministically, so the outcome is a function of the source text
    /// alone, which `rust_query_matches` names. The identifier and body
    /// captures stand unquantified in the pattern, so every match binds
    /// both; only the comment capture may repeat or be absent.
    #[verifier::external_body]
    fn raw_matches(&mut self, source_code: &str) -> (r: Option<Vec<RawMatch>>)
        ensures
            final(self).comment_capture() == old(self).comment_capture(),
            final(self).identifier_capture() == old(self).identifier_capture(),
            final(self).body_capture() == old(self).body_capture(),
            match rust_query_matches(source_code@) {
                Some(ms) => r matches Some(v) && v@ == ms && forall|k: int|
                    0 <= k < ms.len() ==> find_cap(
                        (#[trigger] ms[k]).captures@,
                        old(self).identifier_capture(),
                    ) is Some && find_cap(ms[k].captures@, old(self).body_capture()) is Some,
                None => r is None,
            },
    {
        let tree = self.ts_parser.parse(source_code, None)?;
        let mut cursor = tree_sitter::QueryCursor::new();
        let mut ms = cursor.matches(&self.query, tree.root_node(), source_code.as_bytes());
        let mut out: Vec<RawMatch> = Vec::new();
        while let Some(m) = ms.next() {
            let captures = m.captures().iter().map(|c| RawCapture {
                index: c.index,
                text: source_code[c.node.byte_range()].to_string(),
                row: c.node.start_position().row,
                column: c.node.start_position().column,
            }).collect();
            out.push(RawMatch { captures });
        }
        Some(out)
    }
}

// ---------------------------------------------------------------------------
// Record building over plain capture values, as spec functions
// ---------------------------------------------------------------------------
/// The first capture belonging to group `idx`, if any.
pub open spec fn find_cap(caps: Seq<RawCapture>, idx: u32) -> Option<RawCapture>
    decreases caps.len(),
{
    if caps.len() == 0 {
        None
    } else {
        match find_cap(caps.drop_last(), idx) {
            Some(c) => Some(c),
            None => if caps.last().index == idx {
                Some(caps.last())
            } else {
                None
            },
        }
    }
}

/// All captures belonging to group `idx`, in order.
pub open spec fn caps_with(caps: Seq<RawCapture>, idx: u32) -> Seq<RawCapture>
    decreases caps.len(),
{
    if caps.len() == 0 {
        Seq::empty()
    } else {
        caps_with(caps.drop_last(), idx) + (if caps.last().index == idx {
            seq![caps.last()]
        } else {
            Seq::empty()
        })
    }
}

/// The concatenation of the captures' text, in order.
pub open spec fn concat_texts(cs: Seq<RawCapture>) -> Seq<char>
    decreases cs.len(),
{
    if cs.len() == 0 {
        Seq::empty()
    } else {
        concat_texts(cs.drop_last()) + cs.last().text@
    }
}

/// The record a single match denotes: its identifier text as the name, its
/// body text as the body, the ordered concatenation of its comment captures
/// as the doc string, and the first comment's start position — or the
/// sentinel if it has no comments. A match without an identifier or body
/// capture denotes no record.
pub open spec fn record_of(m: RawMatch, ci: u32, ii: u32, bi: u32) -> Option<FunctionDataView> {
    match (find_cap(m.captures@, ii), find_cap(m.captures@, bi)) {
        (Some(id), Some(b)) => {
            let comments = caps_with(m.captures@, ci);
            Some(
                FunctionDataView {
                    position: if comments.len() > 0 {
                        Point { row: comments[0].row, column: comments[0].column }
                    } else {
                        Point::sentinel()
                    },
                    name: id.text@,
                    doc_string: concat_texts(comments),
                    body: b.text@,
                },
            )
        },
        _ => None,
    }
}

/// The records a match sequence denotes, in document order.
pub open spec fn records_of(ms: Seq<RawMatch>, ci: u32, ii: u32, bi: u32) -> Seq<FunctionDataView>
    decreases ms.len(),
{
    if ms.len() == 0 {
        Seq::empty()
    } else {
        records_of(ms.drop_last(), ci, ii, bi) + (match record_of(ms.last(), ci, ii, bi) {
            Some(r) => seq![r],
            None => Seq::empty(),
        })
    }
}

// ---------------------------------------------------------------------------
// Record building, executable
// ---------------------------------------------------------------------------
proof fn lemma_find_cap_extend(caps: Seq<RawCapture>, idx: u32, k: int)
    requires
        0 <= k <= caps.len(),
        find_cap(caps.take(k), idx) is Some,
    ensures
        find_cap(caps, idx) == find_cap(caps.take(k), idx),
    decreases caps.len() - k,
{
    if k < caps.len() {
        assert(caps.take(k + 1).drop_last() =~= caps.take(k));
        assert(caps.take(k + 1).last() == caps[k]);
        lemma_find_cap_extend(caps, idx, k + 1);
    } else {
        assert(caps.take(k) =~= caps);
    }
}

fn find_capture<'a>(caps: &'a Vec<RawCapture>, idx: u32) -> (r: Option<&'a RawCapture>)
    ensures
        match find_cap(caps@, idx) {
            Some(c) => r matches Some(rc) && *rc == c,
            None => r is None,
        },
{
    let n = caps.len();
    let mut i: usize = 0;
    while i < n
        invariant
            0 <= i <= n,
            n == caps.len(),
            find_cap(caps@.take(i as int), idx) is None,
        decreases n - i,
    {
        proof {
            assert(caps@.take(i + 1 as int).drop_last() =~= caps@.take(i as int));
            assert(caps@.take(i + 1 as int).last() == caps@[i as int]);
        }
        if caps[i].index == idx {
            proof {
                lemma_find_cap_extend(caps@, idx, i + 1 as int);
            }
            return Some(&caps[i]);
        }
        i = i + 1;
    }
    proof {
        assert(caps@.take(n as int) =~= caps@);
    }
    None
}

/// The record a single match yields, built from its captures.
pub fn record_from_match(m: &RawMatch, ci: u32, ii: u32, bi: u32) -> (r: Option<FunctionData>)
    ensures
        match record_of(*m, ci, ii, bi) {
            Some(v) => r matches Some(d) && d@ == v,
            None => r is None,
        },
{
    let id = match find_capture(&m.captures, ii) {
        Some(c) => c,
        None => {
            return None;
        },
    };
    let body = match find_capture(&m.captures, bi) {
        Some(c) => c,
        None => {
            return None;
        },
    };
    let n = m.captures.len();
    let mut doc = String::new();
    let mut position = Point { row: 0, column: 0 };
    let mut seen = false;
    let mut i: usize = 0;
    while i < n
        invariant
            0 <= i <= n,
            n == m.captures.len(),
            doc@ == concat_texts(caps_with(m.captures@.take(i as int), ci)),
            seen == (caps_with(m.captures@.take(i as int), ci).len() > 0),
            seen ==> position == (Point {
                row: caps_with(m.captures@.take(i as int), ci)[0].row,
                column: caps_with(m.captures@.take(i as int), ci)[0].column,
            }),
            !seen ==> position == Point::sentinel(),
        decreases n - i,
    {
        let ghost cw = caps_with(m.captures@.take(i as int), ci);
        proof {
            assert(m.captures@.take(i + 1 as int).drop_last() =~= m.captures@.take(i as int));
            assert(m.captures@.take(i + 1 as int).last() == m.captures@[i as int]);
        }
        let cap = &m.captures[i];
        if cap.index == ci {
            if !seen {
                position = Point { row: cap.row, column: cap.column };
                seen = true;
            }
            doc.append(cap.text.as_str());
            proof {
                let cw1 = caps_with(m.captures@.take(i + 1 as int), ci);
                assert(cw1 =~= cw + seq![m.captures@[i as int]]);
                assert(cw1.drop_last() =~= cw);
                assert(cw1.last() == m.captures@[i as int]);
                assert(concat_texts(cw1) == concat_texts(cw) + m.captures@[i as int].text@);
                assert(cw1[0] == if cw.len() > 0 {
                    cw[0]
                } else {
                    m.captures@[i as int]
                });
            }
        } else {
            proof {
                let cw1 = caps_with(m.captures@.take(i + 1 as int), ci);
                assert(cw1 =~= cw);
            }
        }
        i = i + 1;
    }
    proof {
        assert(m.captures@.take(n as int) =~= m.captures@);
    }
    Some(
        FunctionData {
            position,
            name: id.text.clone(),
            doc_string: doc,
            body: body.text.clone(),
        },
    )
}

/// The records a match sequence yields, in document order: one per match
/// that carries an identifier and a body capture.
pub fn records_from_matches(matches: &Vec<RawMatch>, ci: u32, ii: u32, bi: u32) -> (r: Vec<
    FunctionData,
>)
    ensures
        r.deep_view() == records_of(matches@, ci, ii, bi),
{
    let n = matches.len();
    let mut out: Vec<FunctionData> = Vec::new();
    let mut i: usize = 0;
    while i < n
        invariant
            0 <= i <= n,
            n == matches.len(),
            out.deep_view() == records_of(matches@.take(i as int), ci, ii, bi),
        decreases n - i,
    {
        let ghost pre = records_of(matches@.take(i as int), ci, ii, bi);
        proof {
            assert(matches@.take(i + 1 as int).drop_last() =~= matches@.take(i as int));
            assert(matches@.take(i + 1 as int).last() == matches@[i as int]);
        }
        match record_from_match(&matches[i], ci, ii, bi) {
            Some(d) => {
                out.push(d);
                proof {
                    let v = record_of(matches@[i as int], ci, ii, bi)->Some_0;
                    assert(out.deep_view() =~= pre + seq![v]);
                    assert(records_of(matches@.take(i + 1 as int), ci, ii, bi) =~= pre + seq![v]);
                }
            },
            None => {
                proof {
                    assert(records_of(matches@.take(i + 1 as int), ci, ii, bi) =~= pre);
                }
            },
        }
        i = i + 1;
    }
    proof {
        assert(matches@.take(n as int) =~= matches@);
    }
    out
}

/// Extracts one record per structural-query match from the source text, in
/// document order — every matched function definition yields exactly one
/// record, documented or not. `None` when the source cannot be parsed at
/// all: extraction then fails closed, with no partial result.
pub fn extract_function_data(source_code: &str, parser: &mut CommentParser) -> (r: Option<
    Vec<FunctionData>,
>)
    ensures
        final(parser).comment_capture() == old(parser).comment_capture(),
        final(parser).identifier_capture() == old(parser).identifier_capture(),
        final(parser).body_capture() == old(parser).body_capture(),
        match rust_query_matches(source_code@) {
            Some(ms) => r matches Some(v) && v@.len() == ms.len() && v.deep_view() == records_of(
                ms,
                old(parser).comment_capture(),
                old(parser).identifier_capture(),
                old(parser).body_capture(),
            ),
            None => r is None,
        },
{
    let ci = parser.comment_index;
    let ii = parser.identifier_index;
    let bi = parser.body_index;
    match parser.raw_matches(source_code) {
        Some(ms) => {
            proof {
                if rust_query_matches(source_code@) is Some {
                    let specms = rust_query_matches(source_code@)->Some_0;
                    assert forall|k: int| 0 <= k < specms.len() implies record_of(
                        #[trigger] specms[k],
                        ci,
                        ii,
                        bi,
                    ) is Some by {
                        assert(find_cap(specms[k].captures@, ii) is Some);
                        assert(find_cap(specms[k].captures@, bi) is Some);
                    }
                    lemma_one_record_per_match(specms, ci, ii, bi);
                }
            }
            Some(records_from_matches(&ms, ci, ii, bi))
        },
        None => None,
    }
}

// ---------------------------------------------------------------------------
// Laws of record building
// ---------------------------------------------------------------------------
/// Every match that carries an identifier and a body capture — every
/// function definition the query matches — yields exactly one record, in
/// document order, whether or not it has comments.
pub proof fn lemma_one_record_per_match(ms: Seq<RawMatch>, ci: u32, ii: u32, bi: u32)
    requires
        forall|k: int| 0 <= k < ms.len() ==> record_of(#[trigger] ms[k], ci, ii, bi) is Some,
    ensures
        records_of(ms, ci, ii, bi).len() == ms.len(),
        forall|k: int|
            0 <= k < ms.len() ==> records_of(ms, ci, ii, bi)[k] == record_of(
                #[trigger] ms[k],
                ci,
                ii,
                bi,
            )->Some_0,
    decreases ms.len(),
{
    if ms.len() > 0 {
        assert(forall|k: int|
            0 <= k < ms.drop_last().len() ==> ms.drop_last()[k] == #[trigger] ms[k]);
        lemma_one_record_per_match(ms.drop_last(), ci, ii, bi);
        assert(ms[ms.len() - 1] == ms.last());
    }
}

/// A match with no comment captures still yields a record: its doc string is
/// empty and its position is the sentinel.
pub proof fn lemma_undocumented_match(m: RawMatch, ci: u32, ii: u32, bi: u32)
    requires
        find_cap(m.captures@, ii) is Some,
        find_cap(m.captures@, bi) is Some,
        caps_with(m.captures@, ci).len() == 0,
    ensures
        record_of(m, ci, ii, bi) matches Some(r) && r.doc_string == Seq::<char>::empty()
            && r.position == Point::sentinel(),
{
}

} // verus!
