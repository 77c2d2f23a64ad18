//! The verdict wire format: a single JSON object with exactly the fields
//! `name`, `confidence`, `hash`, `errors` and `warnings`, in that order —
//! the shape the assessor is instructed to return. The encoder produces the
//! compact form; the parser also accepts whitespace between tokens, as JSON
//! allows, and the standard single-character escapes, and rejects everything
//! else — reordered or missing fields, surrounding prose, an out-of-range
//! confidence — so a malformed assessor payload fails the round rather than
//! corrupting the cache. The two list fields round-trip: parsing an encoded
//! list yields the same ordered list back.

use vstd::prelude::*;

use crate::cache::CacheEntry;
use crate::cache::CacheEntryView;

verus! {

// ---------------------------------------------------------------------------
// Character classes and the confidence token
// ---------------------------------------------------------------------------
pub open spec fn is_digit(c: char) -> bool {
    '0' <= c && c <= '9'
}

pub open spec fn is_ws(c: char) -> bool {
    c == ' ' || c == '\n' || c == '\t' || c == '\r'
}

pub open spec fn is_num_char(c: char) -> bool {
    is_digit(c) || c == '.'
}

pub open spec fn all_digits(s: Seq<char>) -> bool {
    forall|i: int| 0 <= i < s.len() ==> is_digit(#[trigger] s[i])
}

pub open spec fn all_zeros(s: Seq<char>) -> bool {
    forall|i: int| 0 <= i < s.len() ==> #[trigger] s[i] == '0'
}

/// The accepted text of a confidence value: a plain decimal in `[0.0, 1.0]`
/// — `0`, `1`, `0.` followed by digits, or `1.` followed by zeros.
pub open spec fn conf_wf(s: Seq<char>) -> bool {
    (s.len() == 1 && (s[0] == '0' || s[0] == '1')) || (s.len() >= 3 && (s[0] == '0' || s[0]
        == '1') && s[1] == '.' && all_digits(s.skip(2)) && (s[0] == '1' ==> all_zeros(s.skip(2))))
}

/// A well-formed entry: one whose confidence field holds the text of a
/// decimal number in `[0.0, 1.0]`.
pub open spec fn entry_wf(v: CacheEntryView) -> bool {
    conf_wf(v.confidence)
}

// ---------------------------------------------------------------------------
// The encoding, as spec functions
// ---------------------------------------------------------------------------
/// How one character appears inside a JSON string: quote, backslash and the
/// three control characters that can occur in source text are escaped, all
/// other characters stand for themselves.
pub open spec fn escape_char(c: char) -> Seq<char> {
    if c == '"' {
        seq!['\\', '"']
    } else if c == '\\' {
        seq!['\\', '\\']
    } else if c == '\n' {
        seq!['\\', 'n']
    } else if c == '\t' {
        seq!['\\', 't']
    } else if c == '\r' {
        seq!['\\', 'r']
    } else {
        seq![c]
    }
}

pub open spec fn escape_str(s: Seq<char>) -> Seq<char>
    decreases s.len(),
{
    if s.len() == 0 {
        Seq::empty()
    } else {
        escape_char(s[0]) + escape_str(s.drop_first())
    }
}

/// A JSON string literal: the escaped text between double quotes.
pub open spec fn json_string(s: Seq<char>) -> Seq<char> {
    seq!['"'] + escape_str(s) + seq!['"']
}

/// The comma-separated items of a non-empty JSON array of strings.
pub open spec fn json_items(v: Seq<Seq<char>>) -> Seq<char>
    decreases v.len(),
{
    if v.len() == 0 {
        Seq::empty()
    } else if v.len() == 1 {
        json_string(v[0])
    } else {
        json_string(v[0]) + seq![','] + json_items(v.drop_first())
    }
}

/// A JSON array of strings.
pub open spec fn json_string_list(v: Seq<Seq<char>>) -> Seq<char> {
    seq!['['] + json_items(v) + seq![']']
}

pub open spec fn lit_name() -> Seq<char> {
    "{\"name\":"@
}

pub open spec fn lit_confidence() -> Seq<char> {
    ",\"confidence\":"@
}

pub open spec fn lit_hash() -> Seq<char> {
    ",\"hash\":"@
}

pub open spec fn lit_errors() -> Seq<char> {
    ",\"errors\":"@
}

pub open spec fn lit_warnings() -> Seq<char> {
    ",\"warnings\":"@
}

pub open spec fn lit_close() -> Seq<char> {
    "}"@
}

/// The canonical wire text of an entry — the five fields in fixed order,
/// compact.
pub open spec fn verdict_json(e: CacheEntryView) -> Seq<char> {
    lit_name() + json_string(e.name) + lit_confidence() + e.confidence + lit_hash() + json_string(
        e.hash,
    ) + lit_errors() + json_string_list(e.errors) + lit_warnings() + json_string_list(e.warnings)
        + lit_close()
}

// ---------------------------------------------------------------------------
// Exec helpers on characters
// ---------------------------------------------------------------------------
/// Relies on `String: FromIterator<char>` (via `Iterator::collect`): the
/// collected string holds exactly the iterated characters, in order.
#[verifier::external_body]
pub fn string_from_chars(v: &Vec<char>) -> (r: String)
    ensures
        r@ == v@,
{
    v.iter().collect()
}

/// The characters of a string slice, as a vector.
pub fn chars_of(s: &str) -> (v: Vec<char>)
    ensures
        v@ == s@,
{
    let n = s.unicode_len();
    let mut v: Vec<char> = Vec::new();
    let mut i: usize = 0;
    while i < n
        invariant
            n == s@.len(),
            0 <= i <= n,
            v@ == s@.take(i as int),
        decreases n - i,
    {
        let c = s.get_char(i);
        v.push(c);
        proof {
            assert(s@.take(i as int).push(s@[i as int]) =~= s@.take(i + 1 as int));
        }
        i = i + 1;
    }
    proof {
        assert(s@.take(n as int) =~= s@);
    }
    v
}

/// Appends the characters of `s` to `out`.
fn push_str_chars(out: &mut Vec<char>, s: &str)
    ensures
        final(out)@ == old(out)@ + s@,
{
    let ghost out0 = out@;
    let n = s.unicode_len();
    let mut i: usize = 0;
    while i < n
        invariant
            n == s@.len(),
            0 <= i <= n,
            out@ == out0 + s@.take(i as int),
        decreases n - i,
    {
        let c = s.get_char(i);
        out.push(c);
        proof {
            assert(s@.take(i as int).push(s@[i as int]) =~= s@.take(i + 1 as int));
            assert(out0 + s@.take(i as int).push(s@[i as int]) =~= (out0 + s@.take(i as int)).push(
                s@[i as int],
            ));
        }
        i = i + 1;
    }
    proof {
        assert(s@.take(n as int) =~= s@);
    }
}

// ---------------------------------------------------------------------------
// The encoder
// ---------------------------------------------------------------------------
proof fn lemma_escape_snoc(s: Seq<char>, c: char)
    ensures
        escape_str(s.push(c)) == escape_str(s) + escape_char(c),
    decreases s.len(),
{
    if s.len() == 0 {
        assert(s.push(c)[0] == c);
        assert(s.push(c).drop_first() =~= Seq::<char>::empty());
        assert(escape_str(Seq::<char>::empty()) == Seq::<char>::empty());
        assert(escape_str(s.push(c)) =~= escape_str(s) + escape_char(c));
    } else {
        assert(s.push(c)[0] == s[0]);
        assert(s.push(c).drop_first() =~= s.drop_first().push(c));
        lemma_escape_snoc(s.drop_first(), c);
        assert(escape_str(s.push(c)) =~= escape_str(s) + escape_char(c));
    }
}

/// Appends the JSON string literal for `s` to `out`.
fn push_json_string(out: &mut Vec<char>, s: &str)
    ensures
        final(out)@ == old(out)@ + json_string(s@),
{
    let ghost out0 = out@;
    out.push('"');
    let n = s.unicode_len();
    let mut i: usize = 0;
    while i < n
        invariant
            n == s@.len(),
            0 <= i <= n,
            out@ == out0 + seq!['"'] + escape_str(s@.take(i as int)),
        decreases n - i,
    {
        let c = s.get_char(i);
        if c == '"' {
            out.push('\\');
            out.push('"');
        } else if c == '\\' {
            out.push('\\');
            out.push('\\');
        } else if c == '\n' {
            out.push('\\');
            out.push('n');
        } else if c == '\t' {
            out.push('\\');
            out.push('t');
        } else if c == '\r' {
            out.push('\\');
            out.push('r');
        } else {
            out.push(c);
        }
        proof {
            lemma_escape_snoc(s@.take(i as int), c);
            assert(s@.take(i as int).push(c) =~= s@.take(i + 1 as int));
            assert((out0 + seq!['"'] + escape_str(s@.take(i as int))) + escape_char(c) =~= out0
                + seq!['"'] + (escape_str(s@.take(i as int)) + escape_char(c)));
            assert(out@ == out0 + seq!['"'] + escape_str(s@.take(i + 1 as int)));
        }
        i = i + 1;
    }
    out.push('"');
    proof {
        assert(s@.take(n as int) =~= s@);
        assert((out0 + seq!['"'] + escape_str(s@)).push('"') =~= out0 + (seq!['"'] + escape_str(s@)
            + seq!['"']));
    }
}

proof fn lemma_json_items_snoc(v: Seq<Seq<char>>, s: Seq<char>)
    ensures
        v.len() == 0 ==> json_items(v.push(s)) == json_string(s),
        v.len() > 0 ==> json_items(v.push(s)) == json_items(v) + seq![','] + json_string(s),
    decreases v.len(),
{
    if v.len() == 0 {
        assert(v.push(s)[0] == s);
        assert(json_items(v.push(s)) =~= json_string(s));
    } else {
        assert(v.push(s)[0] == v[0]);
        assert(v.push(s).drop_first() =~= v.drop_first().push(s));
        lemma_json_items_snoc(v.drop_first(), s);
        if v.len() == 1 {
            assert(v.drop_first().len() == 0);
            assert(json_items(v.push(s)) =~= json_items(v) + seq![','] + json_string(s));
        } else {
            assert(json_items(v.push(s)) =~= json_items(v) + seq![','] + json_string(s));
        }
    }
}

/// Appends the JSON array for `items` to `out`.
fn push_json_list(out: &mut Vec<char>, items: &Vec<String>)
    ensures
        final(out)@ == old(out)@ + json_string_list(items.deep_view()),
{
    let ghost out0 = out@;
    out.push('[');
    let n = items.len();
    let mut i: usize = 0;
    while i < n
        invariant
            n == items.len(),
            0 <= i <= n,
            out@ == out0 + seq!['['] + json_items(items.deep_view().take(i as int)),
        decreases n - i,
    {
        if i > 0 {
            out.push(',');
        }
        push_json_string(out, items[i].as_str());
        proof {
            let dv = items.deep_view();
            assert(dv[i as int] == items@[i as int]@);
            assert(dv.take(i as int).push(dv[i as int]) =~= dv.take(i + 1 as int));
            lemma_json_items_snoc(dv.take(i as int), dv[i as int]);
            if i == 0 {
                assert(out@ =~= out0 + seq!['['] + json_items(dv.take(i + 1 as int)));
            } else {
                assert((out0 + seq!['['] + json_items(dv.take(i as int))).push(',') + json_string(
                    dv[i as int],
                ) =~= out0 + seq!['['] + (json_items(dv.take(i as int)) + seq![','] + json_string(
                    dv[i as int],
                )));
            }
        }
        i = i + 1;
    }
    out.push(']');
    proof {
        assert(items.deep_view().take(n as int) =~= items.deep_view());
        assert((out0 + seq!['['] + json_items(items.deep_view())).push(']') =~= out0 + (seq!['[']
            + json_items(items.deep_view()) + seq![']']));
    }
}

/// Decodes a JSON array of strings: `Some` exactly when the whole text is
/// such an array, whitespace between tokens allowed, and then that ordered
/// list. This is the form the store's `errors` and `warnings` columns are
/// read back in.
pub fn parse_string_list(text: &str) -> (r: Option<Vec<String>>)
    ensures
        match parse_list(text@) {
            Some(p) => if p.1.len() == 0 {
                r matches Some(v) && v.deep_view() == p.0
            } else {
                r is None
            },
            None => r is None,
        },
{
    let cs = chars_of(text);
    proof {
        assert(cs@.skip(0) =~= cs@);
    }
    match parse_list_at(&cs, 0) {
        Some((v, j)) => {
            if j == cs.len() {
                proof {
                    assert(cs@.skip(j as int).len() == 0);
                }
                Some(v)
            } else {
                proof {
                    assert(cs@.skip(j as int).len() != 0);
                }
                None
            }
        },
        None => None,
    }
}

/// Serializes an ordered list of strings as a JSON array, the form in which
/// the store's `errors` and `warnings` columns are written.
pub fn encode_string_list(items: &Vec<String>) -> (r: String)
    ensures
        r@ == json_string_list(items.deep_view()),
{
    let mut out: Vec<char> = Vec::new();
    push_json_list(&mut out, items);
    string_from_chars(&out)
}

// ---------------------------------------------------------------------------
// The parser, as spec functions (suffix-passing: each returns the parsed
// value and the unconsumed remainder)
// ---------------------------------------------------------------------------
/// The character an escape code stands for, if it is one of the accepted
/// codes: the five the encoder emits, plus solidus, backspace and form feed.
pub open spec fn unescape_code(c: char) -> Option<char> {
    if c == '"' {
        Some('"')
    } else if c == '\\' {
        Some('\\')
    } else if c == 'n' {
        Some('\n')
    } else if c == 't' {
        Some('\t')
    } else if c == 'r' {
        Some('\r')
    } else if c == '/' {
        Some('/')
    } else if c == 'b' {
        Some('\u{0008}')
    } else if c == 'f' {
        Some('\u{000C}')
    } else {
        None
    }
}

/// A character that may stand unescaped inside a string literal.
pub open spec fn is_raw_char(c: char) -> bool {
    c != '"' && c != '\\' && c != '\n' && c != '\t' && c != '\r'
}

/// Decodes the characters after an opening quote, up to and including the
/// closing quote; yields the decoded text and the remainder after the quote.
pub open spec fn parse_string_body(s: Seq<char>) -> Option<(Seq<char>, Seq<char>)>
    decreases s.len(),
{
    if s.len() == 0 {
        None
    } else if s[0] == '"' {
        Some((Seq::empty(), s.drop_first()))
    } else if s[0] == '\\' {
        if s.len() >= 2 {
            match unescape_code(s[1]) {
                Some(u) => match parse_string_body(s.skip(2)) {
                    Some(p) => Some((seq![u] + p.0, p.1)),
                    None => None,
                },
                None => None,
            }
        } else {
            None
        }
    } else if is_raw_char(s[0]) {
        match parse_string_body(s.drop_first()) {
            Some(p) => Some((seq![s[0]] + p.0, p.1)),
            None => None,
        }
    } else {
        None
    }
}

/// A whole JSON string literal, quotes included.
pub open spec fn parse_string(s: Seq<char>) -> Option<(Seq<char>, Seq<char>)> {
    if s.len() >= 1 && s[0] == '"' {
        parse_string_body(s.drop_first())
    } else {
        None
    }
}

/// The longest prefix made of digits and dots.
pub open spec fn num_prefix(s: Seq<char>) -> Seq<char>
    decreases s.len(),
{
    if s.len() > 0 && is_num_char(s[0]) {
        seq![s[0]] + num_prefix(s.drop_first())
    } else {
        Seq::empty()
    }
}

/// A confidence token: the maximal run of number characters, which must be a
/// well-formed confidence text.
pub open spec fn parse_conf(s: Seq<char>) -> Option<(Seq<char>, Seq<char>)> {
    let t = num_prefix(s);
    if conf_wf(t) {
        Some((t, s.skip(t.len() as int)))
    } else {
        None
    }
}

proof fn lemma_parse_string_body_consumes(s: Seq<char>)
    ensures
        parse_string_body(s) matches Some(p) ==> p.1.len() < s.len(),
    decreases s.len(),
{
    if s.len() == 0 {
    } else if s[0] == '"' {
    } else if s[0] == '\\' {
        if s.len() >= 2 {
            lemma_parse_string_body_consumes(s.skip(2));
        }
    } else if is_raw_char(s[0]) {
        lemma_parse_string_body_consumes(s.drop_first());
    }
}

proof fn lemma_parse_string_consumes(s: Seq<char>)
    ensures
        parse_string(s) matches Some(p) ==> p.1.len() < s.len(),
{
    if s.len() >= 1 && s[0] == '"' {
        lemma_parse_string_body_consumes(s.drop_first());
    }
}

/// The items of a non-empty array, from the first string to just after
/// `]`, with whitespace allowed around the separators.
pub open spec fn parse_list_items(s: Seq<char>) -> Option<(Seq<Seq<char>>, Seq<char>)>
    decreases s.len(),
    via parse_list_items_decreases
{
    match parse_string(s) {
        Some(p) => {
            let rest = trim_front(p.1);
            if rest.len() >= 1 && rest[0] == ',' {
                match parse_list_items(trim_front(rest.drop_first())) {
                    Some(q) => Some((seq![p.0] + q.0, q.1)),
                    None => None,
                }
            } else if rest.len() >= 1 && rest[0] == ']' {
                Some((seq![p.0], rest.drop_first()))
            } else {
                None
            }
        },
        None => None,
    }
}

#[via_fn]
proof fn parse_list_items_decreases(s: Seq<char>) {
    lemma_parse_string_consumes(s);
    if parse_string(s) is Some {
        let p = parse_string(s)->Some_0;
        lemma_trim_front_len(p.1);
        let rest = trim_front(p.1);
        if rest.len() >= 1 {
            lemma_trim_front_len(rest.drop_first());
        }
    }
}

/// A whole JSON array of strings, with whitespace allowed between tokens.
pub open spec fn parse_list(s: Seq<char>) -> Option<(Seq<Seq<char>>, Seq<char>)> {
    if s.len() >= 1 && s[0] == '[' {
        let t = trim_front(s.drop_first());
        if t.len() >= 1 && t[0] == ']' {
            Some((Seq::empty(), t.drop_first()))
        } else {
            parse_list_items(t)
        }
    } else {
        None
    }
}

/// The remainder of `s` after the literal `lit`, if `s` starts with it.
pub open spec fn spec_expect(s: Seq<char>, lit: Seq<char>) -> Option<Seq<char>> {
    if s.len() >= lit.len() && s.take(lit.len() as int) == lit {
        Some(s.skip(lit.len() as int))
    } else {
        None
    }
}

/// The remainder of `s` after optional whitespace and the token `lit`.
pub open spec fn tok(s: Seq<char>, lit: Seq<char>) -> Option<Seq<char>> {
    spec_expect(trim_front(s), lit)
}

/// The verdict denoted by a text: a JSON object with exactly the fields
/// `name`, `confidence`, `hash`, `errors` and `warnings`, in that order,
/// with whitespace allowed between tokens and nothing else around them.
pub open spec fn parse_verdict_text(s: Seq<char>) -> Option<CacheEntryView> {
    match tok(s, "{"@) {
        None => None,
        Some(s1) => match tok(s1, "\"name\""@) {
            None => None,
            Some(s2) => match tok(s2, ":"@) {
                None => None,
                Some(s3) => match parse_string(trim_front(s3)) {
                    None => None,
                    Some((name, s4)) => match tok(s4, ","@) {
                        None => None,
                        Some(s5) => match tok(s5, "\"confidence\""@) {
                            None => None,
                            Some(s6) => match tok(s6, ":"@) {
                                None => None,
                                Some(s7) => match parse_conf(trim_front(s7)) {
                                    None => None,
                                    Some((conf, s8)) => match tok(s8, ","@) {
                                        None => None,
                                        Some(s9) => match tok(s9, "\"hash\""@) {
                                            None => None,
                                            Some(s10) => match tok(s10, ":"@) {
                                                None => None,
                                                Some(s11) => match parse_string(trim_front(s11)) {
                                                    None => None,
                                                    Some((hash, s12)) => parse_verdict_lists(
                                                        s12,
                                                        name,
                                                        conf,
                                                        hash,
                                                    ),
                                                },
                                            },
                                        },
                                    },
                                },
                            },
                        },
                    },
                },
            },
        },
    }
}

/// The tail of the verdict grammar, from after the hash string: the two list
/// fields and the closing brace.
pub open spec fn parse_verdict_lists(
    s12: Seq<char>,
    name: Seq<char>,
    conf: Seq<char>,
    hash: Seq<char>,
) -> Option<CacheEntryView> {
    match tok(s12, ","@) {
        None => None,
        Some(s13) => match tok(s13, "\"errors\""@) {
            None => None,
            Some(s14) => match tok(s14, ":"@) {
                None => None,
                Some(s15) => match parse_list(trim_front(s15)) {
                    None => None,
                    Some((errors, s16)) => match tok(s16, ","@) {
                        None => None,
                        Some(s17) => match tok(s17, "\"warnings\""@) {
                            None => None,
                            Some(s18) => match tok(s18, ":"@) {
                                None => None,
                                Some(s19) => match parse_list(trim_front(s19)) {
                                    None => None,
                                    Some((warnings, s20)) => match tok(s20, "}"@) {
                                        None => None,
                                        Some(s21) => if s21.len() == 0 {
                                            Some(
                                                CacheEntryView {
                                                    name,
                                                    confidence: conf,
                                                    hash,
                                                    errors,
                                                    warnings,
                                                },
                                            )
                                        } else {
                                            None
                                        },
                                    },
                                },
                            },
                        },
                    },
                },
            },
        },
    }
}

/// `s` without leading whitespace.
pub open spec fn trim_front(s: Seq<char>) -> Seq<char>
    decreases s.len(),
{
    if s.len() > 0 && is_ws(s[0]) {
        trim_front(s.drop_first())
    } else {
        s
    }
}

proof fn lemma_trim_front_len(s: Seq<char>)
    ensures
        trim_front(s).len() <= s.len(),
    decreases s.len(),
{
    if s.len() > 0 && is_ws(s[0]) {
        lemma_trim_front_len(s.drop_first());
    }
}

/// `s` without trailing whitespace.
pub open spec fn trim_back(s: Seq<char>) -> Seq<char>
    decreases s.len(),
{
    if s.len() > 0 && is_ws(s.last()) {
        trim_back(s.drop_last())
    } else {
        s
    }
}

/// `s` without surrounding whitespace.
pub open spec fn trim_ws(s: Seq<char>) -> Seq<char> {
    trim_back(trim_front(s))
}

// ---------------------------------------------------------------------------
// The parser, executable
// ---------------------------------------------------------------------------
fn parse_string_body_at(s: &Vec<char>, i: usize, out: &mut Vec<char>) -> (r: Option<usize>)
    requires
        i <= s.len(),
    ensures
        match parse_string_body(s@.skip(i as int)) {
            Some(p) => r matches Some(j) && i < j <= s.len() && final(out)@ == old(out)@ + p.0
                && s@.skip(j as int) == p.1,
            None => r is None,
        },
    decreases s.len() - i,
{
    let ghost suf = s@.skip(i as int);
    if i == s.len() {
        return None;
    }
    let c = s[i];
    proof {
        assert(suf[0] == s@[i as int]);
        assert(suf.drop_first() =~= s@.skip(i + 1 as int));
    }
    if c == '"' {
        proof {
            assert(out@ =~= out@ + Seq::<char>::empty());
        }
        Some(i + 1)
    } else if c == '\\' {
        if i + 1 == s.len() {
            return None;
        }
        let e = s[i + 1];
        proof {
            assert(suf[1] == s@[i + 1]);
        }
        let u: char = if e == '"' {
            '"'
        } else if e == '\\' {
            '\\'
        } else if e == 'n' {
            '\n'
        } else if e == 't' {
            '\t'
        } else if e == 'r' {
            '\r'
        } else if e == '/' {
            '/'
        } else if e == 'b' {
            '\u{0008}'
        } else if e == 'f' {
            '\u{000C}'
        } else {
            return None;
        };
        out.push(u);
        proof {
            assert(suf.skip(2) =~= s@.skip(i + 2 as int));
        }
        let ghost out1 = out@;
        let r = parse_string_body_at(s, i + 2, out);
        proof {
            if parse_string_body(suf.skip(2)) is Some {
                let p = parse_string_body(suf.skip(2))->Some_0;
                assert(out@ =~= (out1 + p.0));
                assert(out1 + p.0 =~= old(out)@ + (seq![u] + p.0));
            }
        }
        r
    } else if c == '\n' || c == '\t' || c == '\r' {
        None
    } else {
        out.push(c);
        let ghost out1 = out@;
        let r = parse_string_body_at(s, i + 1, out);
        proof {
            if parse_string_body(suf.drop_first()) is Some {
                let p = parse_string_body(suf.drop_first())->Some_0;
                assert(out1 + p.0 =~= old(out)@ + (seq![c] + p.0));
            }
        }
        r
    }
}

fn parse_string_at(s: &Vec<char>, i: usize) -> (r: Option<(Vec<char>, usize)>)
    requires
        i <= s.len(),
    ensures
        match parse_string(s@.skip(i as int)) {
            Some(p) => r matches Some(q) && i < q.1 <= s.len() && q.0@ == p.0 && s@.skip(
                q.1 as int,
            ) == p.1,
            None => r is None,
        },
{
    let ghost suf = s@.skip(i as int);
    if i < s.len() && s[i] == '"' {
        proof {
            assert(suf[0] == s@[i as int]);
            assert(suf.drop_first() =~= s@.skip(i + 1 as int));
        }
        let mut out: Vec<char> = Vec::new();
        match parse_string_body_at(s, i + 1, &mut out) {
            Some(j) => Some((out, j)),
            None => None,
        }
    } else {
        None
    }
}

/// Whether `t` is a well-formed confidence token.
fn conf_wf_exec(t: &Vec<char>) -> (r: bool)
    ensures
        r == conf_wf(t@),
{
    let n = t.len();
    if n == 1 {
        return t[0] == '0' || t[0] == '1';
    }
    if n < 3 || (t[0] != '0' && t[0] != '1') || t[1] != '.' {
        return false;
    }
    let one = t[0] == '1';
    let mut i: usize = 2;
    while i < n
        invariant
            2 <= i <= n,
            n == t.len(),
            n >= 3,
            t@[0] == '0' || t@[0] == '1',
            one == (t@[0] == '1'),
            t@[1] == '.',
            forall|k: int| 2 <= k < i ==> is_digit(#[trigger] t@[k]),
            one ==> forall|k: int| 2 <= k < i ==> t@[k] == '0',
        decreases n - i,
    {
        let c = t[i];
        if !(('0' <= c && c <= '9') && (!one || c == '0')) {
            proof {
                if conf_wf(t@) {
                    assert(t@.skip(2)[i - 2] == t@[i as int]);
                }
            }
            return false;
        }
        i = i + 1;
    }
    proof {
        assert forall|k: int| 0 <= k < t@.skip(2).len() implies is_digit(#[trigger] t@.skip(2)[k])
            by {
            assert(t@.skip(2)[k] == t@[k + 2]);
        }
        if one {
            assert forall|k: int| 0 <= k < t@.skip(2).len() implies #[trigger] t@.skip(2)[k]
                == '0' by {
                assert(t@.skip(2)[k] == t@[k + 2]);
            }
        }
    }
    true
}

/// Whether the character at `k` is a digit or a dot.
fn num_char_at(s: &Vec<char>, k: usize) -> (r: bool)
    requires
        k < s.len(),
    ensures
        r == is_num_char(s@[k as int]),
{
    let c = s[k];
    ('0' <= c && c <= '9') || c == '.'
}

/// Whether the character at `k` is whitespace.
fn ws_at(s: &Vec<char>, k: usize) -> (r: bool)
    requires
        k < s.len(),
    ensures
        r == is_ws(s@[k as int]),
{
    let c = s[k];
    c == ' ' || c == '\n' || c == '\t' || c == '\r'
}

fn parse_conf_at(s: &Vec<char>, i: usize) -> (r: Option<(Vec<char>, usize)>)
    requires
        i <= s.len(),
    ensures
        match parse_conf(s@.skip(i as int)) {
            Some(p) => r matches Some(q) && i <= q.1 <= s.len() && q.0@ == p.0 && s@.skip(
                q.1 as int,
            ) == p.1,
            None => r is None,
        },
{
    let ghost suf = s@.skip(i as int);
    let n = s.len();
    let mut k: usize = i;
    let mut t: Vec<char> = Vec::new();
    while k < n && num_char_at(s, k)
        invariant
            i <= k <= n,
            n == s.len(),
            t@ =~= s@.subrange(i as int, k as int),
            num_prefix(s@.skip(i as int)) =~= s@.subrange(i as int, k as int) + num_prefix(
                s@.skip(k as int),
            ),
        decreases n - k,
    {
        let c = s[k];
        t.push(c);
        proof {
            assert(s@.skip(k as int)[0] == s@[k as int]);
            assert(is_num_char(s@[k as int]));
            assert(s@.skip(k as int).drop_first() =~= s@.skip(k + 1 as int));
            assert(s@.subrange(i as int, k as int).push(s@[k as int]) =~= s@.subrange(
                i as int,
                k + 1 as int,
            ));
            assert(s@.subrange(i as int, k as int) + (seq![s@[k as int]] + num_prefix(
                s@.skip(k + 1 as int),
            )) =~= s@.subrange(i as int, k + 1 as int) + num_prefix(s@.skip(k + 1 as int)));
        }
        k = k + 1;
    }
    proof {
        if k < n {
            assert(s@.skip(k as int)[0] == s@[k as int]);
            assert(!is_num_char(s@[k as int]));
        }
        assert(num_prefix(s@.skip(k as int)) =~= Seq::<char>::empty());
        assert(num_prefix(suf) =~= t@);
        assert(suf.skip(t@.len() as int) =~= s@.skip(k as int));
    }
    if conf_wf_exec(&t) {
        Some((t, k))
    } else {
        None
    }
}

/// The first position at or after `i` whose character is not whitespace.
fn skip_ws_at(s: &Vec<char>, i: usize) -> (j: usize)
    requires
        i <= s.len(),
    ensures
        i <= j <= s.len(),
        s@.skip(j as int) == trim_front(s@.skip(i as int)),
{
    let n = s.len();
    let mut j: usize = i;
    while j < n && ws_at(s, j)
        invariant
            i <= j <= n,
            n == s.len(),
            trim_front(s@.skip(i as int)) =~= trim_front(s@.skip(j as int)),
        decreases n - j,
    {
        proof {
            assert(s@.skip(j as int)[0] == s@[j as int]);
            assert(s@.skip(j as int).drop_first() =~= s@.skip(j + 1 as int));
        }
        j = j + 1;
    }
    proof {
        if j < n {
            assert(s@.skip(j as int)[0] == s@[j as int]);
        }
        assert(trim_front(s@.skip(j as int)) =~= s@.skip(j as int));
    }
    j
}

fn parse_list_items_at(s: &Vec<char>, i: usize, out: &mut Vec<String>) -> (r: Option<usize>)
    requires
        i <= s.len(),
    ensures
        match parse_list_items(s@.skip(i as int)) {
            Some(p) => r matches Some(j) && i < j <= s.len() && final(out).deep_view() == old(
                out,
            ).deep_view() + p.0 && s@.skip(j as int) == p.1,
            None => r is None,
        },
    decreases s.len() - i,
{
    let ghost suf = s@.skip(i as int);
    proof {
        lemma_parse_string_consumes(suf);
    }
    match parse_string_at(s, i) {
        Some((v, j)) => {
            let sv = string_from_chars(&v);
            out.push(sv);
            proof {
                if parse_string(suf) is Some {
                    let p = parse_string(suf)->Some_0;
                    assert(out.deep_view() =~= old(out).deep_view().push(p.0));
                }
            }
            let ghost out1 = out.deep_view();
            let k = skip_ws_at(s, j);
            if k < s.len() && s[k] == ',' {
                proof {
                    assert(s@.skip(k as int)[0] == s@[k as int]);
                    assert(s@.skip(k as int).drop_first() =~= s@.skip(k + 1 as int));
                }
                let k2 = skip_ws_at(s, k + 1);
                let r = parse_list_items_at(s, k2, out);
                proof {
                    let p = parse_string(suf)->Some_0;
                    let rest = trim_front(p.1);
                    if parse_list_items(trim_front(rest.drop_first())) is Some {
                        let q = parse_list_items(trim_front(rest.drop_first()))->Some_0;
                        assert(out.deep_view() =~= out1 + q.0);
                        assert(out1 + q.0 =~= old(out).deep_view() + (seq![p.0] + q.0));
                    }
                }
                r
            } else if k < s.len() && s[k] == ']' {
                proof {
                    let p = parse_string(suf)->Some_0;
                    assert(s@.skip(k as int)[0] == s@[k as int]);
                    assert(s@.skip(k as int).drop_first() =~= s@.skip(k + 1 as int));
                    assert(out1 =~= old(out).deep_view() + seq![p.0]);
                }
                Some(k + 1)
            } else {
                proof {
                    if k < s.len() {
                        assert(s@.skip(k as int)[0] == s@[k as int]);
                    }
                }
                None
            }
        },
        None => None,
    }
}

fn parse_list_at(s: &Vec<char>, i: usize) -> (r: Option<(Vec<String>, usize)>)
    requires
        i <= s.len(),
    ensures
        match parse_list(s@.skip(i as int)) {
            Some(p) => r matches Some(q) && i <= q.1 <= s.len() && q.0.deep_view() == p.0
                && s@.skip(q.1 as int) == p.1,
            None => r is None,
        },
{
    let ghost suf = s@.skip(i as int);
    if i < s.len() && s[i] == '[' {
        proof {
            assert(suf[0] == s@[i as int]);
            assert(suf.drop_first() =~= s@.skip(i + 1 as int));
        }
        let k = skip_ws_at(s, i + 1);
        if k < s.len() && s[k] == ']' {
            proof {
                assert(s@.skip(k as int)[0] == s@[k as int]);
                assert(s@.skip(k as int).drop_first() =~= s@.skip(k + 1 as int));
            }
            let out: Vec<String> = Vec::new();
            proof {
                assert(out.deep_view() =~= Seq::<Seq<char>>::empty());
            }
            Some((out, k + 1))
        } else {
            proof {
                if k < s.len() {
                    assert(s@.skip(k as int)[0] == s@[k as int]);
                }
            }
            let mut out: Vec<String> = Vec::new();
            let ghost out0 = out.deep_view();
            match parse_list_items_at(s, k, &mut out) {
                Some(j) => {
                    proof {
                        let t = trim_front(suf.drop_first());
                        if parse_list_items(t) is Some {
                            let p = parse_list_items(t)->Some_0;
                            assert(out0 =~= Seq::<Seq<char>>::empty());
                            assert(out.deep_view() =~= p.0);
                        }
                    }
                    Some((out, j))
                },
                None => None,
            }
        }
    } else {
        None
    }
}

fn expect_str_at(s: &Vec<char>, i: usize, lit: &str) -> (r: Option<usize>)
    requires
        i <= s.len(),
    ensures
        match spec_expect(s@.skip(i as int), lit@) {
            Some(rest) => r matches Some(j) && i <= j <= s.len() && s@.skip(j as int) == rest,
            None => r is None,
        },
{
    let ghost suf = s@.skip(i as int);
    let n = lit.unicode_len();
    if s.len() - i < n {
        return None;
    }
    let mut k: usize = 0;
    while k < n
        invariant
            0 <= k <= n,
            n == lit@.len(),
            i + n <= s.len(),
            forall|m: int| 0 <= m < k ==> s@.skip(i as int)[m] == lit@[m],
        decreases n - k,
    {
        let c = s[i + k];
        let l = lit.get_char(k);
        proof {
            assert(s@.skip(i as int)[k as int] == s@[i + k]);
        }
        if c != l {
            proof {
                if suf.len() >= lit@.len() && suf.take(lit@.len() as int) == lit@ {
                    assert(suf.take(lit@.len() as int)[k as int] == suf[k as int]);
                }
            }
            return None;
        }
        k = k + 1;
    }
    proof {
        assert(suf.take(lit@.len() as int) =~= lit@);
        assert(suf.skip(lit@.len() as int) =~= s@.skip(i + n as int));
    }
    Some(i + n)
}

/// Consumes optional whitespace and then the token `lit`.
fn tok_at(s: &Vec<char>, i: usize, lit: &str) -> (r: Option<usize>)
    requires
        i <= s.len(),
    ensures
        match tok(s@.skip(i as int), lit@) {
            Some(rest) => r matches Some(j) && i <= j <= s.len() && s@.skip(j as int) == rest,
            None => r is None,
        },
{
    let k = skip_ws_at(s, i);
    expect_str_at(s, k, lit)
}

/// `s` with surrounding whitespace removed.
fn trim_chars(s: &Vec<char>) -> (r: Vec<char>)
    ensures
        r@ == trim_ws(s@),
{
    let n = s.len();
    let mut lo: usize = 0;
    proof {
        assert(s@.skip(0) =~= s@);
    }
    while lo < n && ws_at(s, lo)
        invariant
            0 <= lo <= n,
            n == s.len(),
            trim_front(s@) =~= trim_front(s@.skip(lo as int)),
        decreases n - lo,
    {
        proof {
            assert(s@.skip(lo as int)[0] == s@[lo as int]);
            assert(s@.skip(lo as int).drop_first() =~= s@.skip(lo + 1 as int));
        }
        lo = lo + 1;
    }
    proof {
        if lo < n {
            assert(s@.skip(lo as int)[0] == s@[lo as int]);
        }
        assert(trim_front(s@) =~= s@.skip(lo as int));
    }
    let ghost t = s@.skip(lo as int);
    let mut hi: usize = n;
    while hi > lo && ws_at(s, hi - 1)
        invariant
            lo <= hi <= n,
            n == s.len(),
            trim_front(s@) == t,
            t == s@.skip(lo as int),
            trim_back(t) =~= trim_back(s@.subrange(lo as int, hi as int)),
        decreases hi,
    {
        proof {
            let cur = s@.subrange(lo as int, hi as int);
            assert(cur.last() == s@[hi - 1]);
            assert(cur.drop_last() =~= s@.subrange(lo as int, hi - 1 as int));
        }
        hi = hi - 1;
    }
    proof {
        let cur = s@.subrange(lo as int, hi as int);
        if hi > lo {
            assert(cur.last() == s@[hi - 1]);
        }
        assert(trim_back(cur) =~= cur);
        assert(trim_ws(s@) =~= s@.subrange(lo as int, hi as int));
    }
    let mut out: Vec<char> = Vec::new();
    let mut i: usize = lo;
    while i < hi
        invariant
            lo <= i <= hi <= n,
            n == s.len(),
            out@ =~= s@.subrange(lo as int, i as int),
        decreases hi - i,
    {
        let c = s[i];
        out.push(c);
        proof {
            assert(s@.subrange(lo as int, i as int).push(s@[i as int]) =~= s@.subrange(
                lo as int,
                i + 1 as int,
            ));
        }
        i = i + 1;
    }
    proof {
        assert(out@ =~= trim_ws(s@));
    }
    out
}

/// Decodes an assessor payload: `Some` exactly when the text is a verdict
/// object — the five fields in their fixed order, with optional whitespace
/// between tokens and around the whole — and then the decoded entry.
/// Anything else — prose around the object, reordered or missing fields, an
/// out-of-range confidence — yields `None`.
pub fn parse_verdict(text: &str) -> (r: Option<CacheEntry>)
    ensures
        match parse_verdict_text(trim_ws(text@)) {
            Some(v) => r matches Some(e) && e@ == v,
            None => r is None,
        },
{
    let cs = chars_of(text);
    let s = trim_chars(&cs);
    let ghost w = s@;
    proof {
        assert(s@.skip(0) =~= w);
    }
    let i1 = match tok_at(&s, 0, "{") {
        Some(j) => j,
        None => {
            return None;
        },
    };
    let i2 = match tok_at(&s, i1, "\"name\"") {
        Some(j) => j,
        None => {
            return None;
        },
    };
    let i3 = match tok_at(&s, i2, ":") {
        Some(j) => j,
        None => {
            return None;
        },
    };
    let k1 = skip_ws_at(&s, i3);
    let (name, i4) = match parse_string_at(&s, k1) {
        Some(q) => q,
        None => {
            return None;
        },
    };
    let i5 = match tok_at(&s, i4, ",") {
        Some(j) => j,
        None => {
            return None;
        },
    };
    let i6 = match tok_at(&s, i5, "\"confidence\"") {
        Some(j) => j,
        None => {
            return None;
        },
    };
    let i7 = match tok_at(&s, i6, ":") {
        Some(j) => j,
        None => {
            return None;
        },
    };
    let k2 = skip_ws_at(&s, i7);
    let (conf, i8) = match parse_conf_at(&s, k2) {
        Some(q) => q,
        None => {
            return None;
        },
    };
    let i9 = match tok_at(&s, i8, ",") {
        Some(j) => j,
        None => {
            return None;
        },
    };
    let i10 = match tok_at(&s, i9, "\"hash\"") {
        Some(j) => j,
        None => {
            return None;
        },
    };
    let i11 = match tok_at(&s, i10, ":") {
        Some(j) => j,
        None => {
            return None;
        },
    };
    let k3 = skip_ws_at(&s, i11);
    let (hash, i12) = match parse_string_at(&s, k3) {
        Some(q) => q,
        None => {
            return None;
        },
    };
    let i13 = match tok_at(&s, i12, ",") {
        Some(j) => j,
        None => {
            return None;
        },
    };
    let i14 = match tok_at(&s, i13, "\"errors\"") {
        Some(j) => j,
        None => {
            return None;
        },
    };
    let i15 = match tok_at(&s, i14, ":") {
        Some(j) => j,
        None => {
            return None;
        },
    };
    let k4 = skip_ws_at(&s, i15);
    let (errors, i16) = match parse_list_at(&s, k4) {
        Some(q) => q,
        None => {
            return None;
        },
    };
    let i17 = match tok_at(&s, i16, ",") {
        Some(j) => j,
        None => {
            return None;
        },
    };
    let i18 = match tok_at(&s, i17, "\"warnings\"") {
        Some(j) => j,
        None => {
            return None;
        },
    };
    let i19 = match tok_at(&s, i18, ":") {
        Some(j) => j,
        None => {
            return None;
        },
    };
    let k5 = skip_ws_at(&s, i19);
    let (warnings, i20) = match parse_list_at(&s, k5) {
        Some(q) => q,
        None => {
            return None;
        },
    };
    let i21 = match tok_at(&s, i20, "}") {
        Some(j) => j,
        None => {
            return None;
        },
    };
    if i21 != s.len() {
        proof {
            assert(s@.skip(i21 as int).len() != 0);
        }
        return None;
    }
    proof {
        assert(s@.skip(i21 as int).len() == 0);
    }
    let name_s = string_from_chars(&name);
    let conf_s = string_from_chars(&conf);
    let hash_s = string_from_chars(&hash);
    Some(
        CacheEntry {
            name: name_s,
            confidence: conf_s,
            hash: hash_s,
            errors,
            warnings,
        },
    )
}

/// Serializes a verdict in the canonical wire form.
pub fn encode_verdict(e: &CacheEntry) -> (r: String)
    ensures
        r@ == verdict_json(e@),
{
    let mut out: Vec<char> = Vec::new();
    push_str_chars(&mut out, "{\"name\":");
    push_json_string(&mut out, e.name.as_str());
    push_str_chars(&mut out, ",\"confidence\":");
    push_str_chars(&mut out, e.confidence.as_str());
    push_str_chars(&mut out, ",\"hash\":");
    push_json_string(&mut out, e.hash.as_str());
    push_str_chars(&mut out, ",\"errors\":");
    push_json_list(&mut out, &e.errors);
    push_str_chars(&mut out, ",\"warnings\":");
    push_json_list(&mut out, &e.warnings);
    push_str_chars(&mut out, "}");
    proof {
        assert(out@ =~= verdict_json(e@));
    }
    string_from_chars(&out)
}

// ---------------------------------------------------------------------------
// Round trips: parsing an encoding yields the encoded value
// ---------------------------------------------------------------------------
proof fn lemma_parse_escape(v: Seq<char>, rest: Seq<char>)
    ensures
        parse_string_body(escape_str(v) + seq!['"'] + rest) == Some((v, rest)),
    decreases v.len(),
{
    let s = escape_str(v) + seq!['"'] + rest;
    if v.len() == 0 {
        assert(escape_str(v) =~= Seq::<char>::empty());
        assert(s[0] == '"');
        assert(s.drop_first() =~= rest);
        assert(parse_string_body(s) == Some((Seq::<char>::empty(), rest)));
        assert(v =~= Seq::<char>::empty());
    } else {
        let c = v[0];
        let tail = escape_str(v.drop_first()) + seq!['"'] + rest;
        lemma_parse_escape(v.drop_first(), rest);
        assert(seq![c] + v.drop_first() =~= v);
        if !is_raw_char(c) {
            assert(escape_char(c).len() == 2 && escape_char(c)[0] == '\\' && unescape_code(
                escape_char(c)[1],
            ) == Some(c));
            assert(s[0] == '\\');
            assert(s[1] == escape_char(c)[1]);
            assert(s.skip(2) =~= tail);
            assert(parse_string_body(s) == Some((v, rest)));
        } else {
            assert(escape_char(c) =~= seq![c]);
            assert(s[0] == c);
            assert(c != '"' && c != '\\');
            assert(s.drop_first() =~= tail);
            assert(parse_string_body(s) == Some((v, rest)));
        }
    }
}

/// Parsing a JSON string literal followed by anything yields the encoded
/// text and leaves that remainder.
proof fn lemma_parse_json_string(v: Seq<char>, rest: Seq<char>)
    ensures
        parse_string(json_string(v) + rest) == Some((v, rest)),
{
    let s = json_string(v) + rest;
    assert(s[0] == '"');
    assert(s.drop_first() =~= escape_str(v) + seq!['"'] + rest);
    lemma_parse_escape(v, rest);
}

proof fn lemma_num_prefix_exact(t: Seq<char>, rest: Seq<char>)
    requires
        forall|i: int| 0 <= i < t.len() ==> is_num_char(#[trigger] t[i]),
        rest.len() > 0,
        !is_num_char(rest[0]),
    ensures
        num_prefix(t + rest) == t,
    decreases t.len(),
{
    let s = t + rest;
    if t.len() == 0 {
        assert(s =~= rest);
        assert(num_prefix(s) =~= t);
    } else {
        assert(s[0] == t[0]);
        assert(s.drop_first() =~= t.drop_first() + rest);
        lemma_num_prefix_exact(t.drop_first(), rest);
        assert(num_prefix(s) =~= seq![t[0]] + t.drop_first());
        assert(seq![t[0]] + t.drop_first() =~= t);
    }
}

proof fn lemma_conf_wf_num_chars(t: Seq<char>)
    requires
        conf_wf(t),
    ensures
        forall|i: int| 0 <= i < t.len() ==> is_num_char(#[trigger] t[i]),
{
    assert forall|i: int| 0 <= i < t.len() implies is_num_char(#[trigger] t[i]) by {
        if t.len() >= 3 && i >= 2 {
            assert(t.skip(2)[i - 2] == t[i]);
        }
    }
}

/// Parsing a confidence token followed by a non-numeric character yields the
/// token and leaves the remainder.
proof fn lemma_parse_conf(t: Seq<char>, rest: Seq<char>)
    requires
        conf_wf(t),
        rest.len() > 0,
        !is_num_char(rest[0]),
    ensures
        parse_conf(t + rest) == Some((t, rest)),
{
    lemma_conf_wf_num_chars(t);
    lemma_num_prefix_exact(t, rest);
    assert((t + rest).skip(t.len() as int) =~= rest);
}

proof fn lemma_parse_items(v: Seq<Seq<char>>, rest: Seq<char>)
    requires
        v.len() >= 1,
    ensures
        parse_list_items(json_items(v) + seq![']'] + rest) == Some((v, rest)),
    decreases v.len(),
{
    let s = json_items(v) + seq![']'] + rest;
    if v.len() == 1 {
        let after = seq![']'] + rest;
        assert(s =~= json_string(v[0]) + after);
        lemma_parse_json_string(v[0], after);
        assert(after[0] == ']');
        assert(trim_front(after) == after);
        assert(after.drop_first() =~= rest);
        assert(seq![v[0]] =~= v);
        assert(parse_list_items(s) == Some((v, rest)));
    } else {
        let after = seq![','] + json_items(v.drop_first()) + seq![']'] + rest;
        assert(s =~= json_string(v[0]) + after);
        lemma_parse_json_string(v[0], after);
        assert(after[0] == ',');
        assert(trim_front(after) == after);
        assert(after.drop_first() =~= json_items(v.drop_first()) + seq![']'] + rest);
        assert(json_string(v.drop_first()[0])[0] == '"');
        assert(json_items(v.drop_first())[0] == '"');
        assert(after.drop_first()[0] == '"');
        assert(trim_front(after.drop_first()) == after.drop_first());
        lemma_parse_items(v.drop_first(), rest);
        assert(seq![v[0]] + v.drop_first() =~= v);
        assert(parse_list_items(s) == Some((v, rest)));
    }
}

/// The list fields round-trip: parsing an encoded list of strings, followed
/// by anything, yields the same ordered list and leaves that remainder.
pub proof fn lemma_string_list_round_trip(v: Seq<Seq<char>>, rest: Seq<char>)
    ensures
        parse_list(json_string_list(v) + rest) == Some((v, rest)),
{
    let s = json_string_list(v) + rest;
    assert(s[0] == '[');
    assert(s.drop_first() =~= json_items(v) + seq![']'] + rest);
    if v.len() == 0 {
        assert(json_items(v) =~= Seq::<char>::empty());
        assert(s.drop_first() =~= seq![']'] + rest);
        assert(s.drop_first()[0] == ']');
        assert(trim_front(s.drop_first()) == s.drop_first());
        assert(s.drop_first().drop_first() =~= rest);
        assert(v =~= Seq::<Seq<char>>::empty());
        assert(parse_list(s) == Some((v, rest)));
    } else {
        assert(json_string(v[0])[0] == '"');
        assert(json_items(v)[0] == '"');
        assert(s.drop_first()[0] == '"');
        assert(trim_front(s.drop_first()) == s.drop_first());
        lemma_parse_items(v, rest);
        assert(parse_list(s) == Some((v, rest)));
    }
}

proof fn lemma_expect(lit: Seq<char>, rest: Seq<char>)
    ensures
        spec_expect(lit + rest, lit) == Some(rest),
{
    let s = lit + rest;
    assert(s.take(lit.len() as int) =~= lit);
    assert(s.skip(lit.len() as int) =~= rest);
}

/// Consuming a non-whitespace-initial token from a text that starts with it
/// leaves exactly the remainder.
proof fn lemma_tok(lit: Seq<char>, rest: Seq<char>)
    requires
        lit.len() > 0,
        !is_ws(lit[0]),
    ensures
        tok(lit + rest, lit) == Some(rest),
{
    assert((lit + rest)[0] == lit[0]);
    assert(trim_front(lit + rest) == lit + rest);
    lemma_expect(lit, rest);
}

/// Trimming does not change a text that starts and ends with
/// non-whitespace.
proof fn lemma_trim_id(s: Seq<char>)
    requires
        s.len() > 0,
        !is_ws(s[0]),
        !is_ws(s.last()),
    ensures
        trim_ws(s) == s,
{
}

/// The canonical verdict text, reassociated into its parse order: the five
/// fields behind their key tokens, nested to the right.
#[verifier::rlimit(100)]
proof fn lemma_verdict_json_split(e: CacheEntryView)
    ensures
        verdict_json(e) == lit_name() + (json_string(e.name) + (lit_confidence() + (e.confidence
            + (lit_hash() + (json_string(e.hash) + (lit_errors() + (json_string_list(e.errors) + (
        lit_warnings() + (json_string_list(e.warnings) + lit_close()))))))))),
{
    assert(verdict_json(e) =~= lit_name() + (json_string(e.name) + (lit_confidence() + (
    e.confidence + (lit_hash() + (json_string(e.hash) + (lit_errors() + (json_string_list(
        e.errors,
    ) + (lit_warnings() + (json_string_list(e.warnings) + lit_close()))))))))));
}

/// The tail of the round trip: the two canonical list fields and the brace
/// parse back to the entry.
#[verifier::rlimit(100)]
proof fn lemma_verdict_tail_round_trip(
    name: Seq<char>,
    conf: Seq<char>,
    hash: Seq<char>,
    errors: Seq<Seq<char>>,
    warnings: Seq<Seq<char>>,
)
    ensures
        parse_verdict_lists(
            lit_errors() + (json_string_list(errors) + (lit_warnings() + (json_string_list(
                warnings,
            ) + lit_close()))),
            name,
            conf,
            hash,
        ) == Some(CacheEntryView { name, confidence: conf, hash, errors, warnings }),
{
    reveal_strlit(",\"errors\":");
    reveal_strlit(",\"warnings\":");
    reveal_strlit("}");
    reveal_strlit("\"errors\"");
    reveal_strlit("\"warnings\"");
    reveal_strlit(":");
    reveal_strlit(",");
    reveal_strlit("{");
    let t10 = lit_close();
    let t9 = json_string_list(warnings) + t10;
    let t8 = lit_warnings() + t9;
    let t7 = json_string_list(errors) + t8;
    let t6 = lit_errors() + (json_string_list(errors) + (lit_warnings() + (json_string_list(
        warnings,
    ) + lit_close())));
    assert(t6 =~= ","@ + ("\"errors\""@ + (":"@ + t7)));
    lemma_tok(","@, "\"errors\""@ + (":"@ + t7));
    lemma_tok("\"errors\""@, ":"@ + t7);
    lemma_tok(":"@, t7);
    assert(t7[0] == '[');
    assert(trim_front(t7) == t7);
    lemma_string_list_round_trip(errors, t8);
    assert(t8 =~= ","@ + ("\"warnings\""@ + (":"@ + t9)));
    lemma_tok(","@, "\"warnings\""@ + (":"@ + t9));
    lemma_tok("\"warnings\""@, ":"@ + t9);
    lemma_tok(":"@, t9);
    assert(t9[0] == '[');
    assert(trim_front(t9) == t9);
    lemma_string_list_round_trip(warnings, t10);
    assert(t10 =~= "}"@ + Seq::<char>::empty());
    lemma_tok("}"@, Seq::<char>::empty());
    assert(parse_verdict_lists(t6, name, conf, hash) matches Some(v) && v =~= (CacheEntryView {
        name,
        confidence: conf,
        hash,
        errors,
        warnings,
    }));
}

/// The verdict wire format round-trips: the canonical text of a well-formed
/// verdict, even after trimming, parses back to exactly that verdict.
#[verifier::rlimit(100)]
pub proof fn lemma_verdict_round_trip(e: CacheEntryView)
    requires
        entry_wf(e),
    ensures
        parse_verdict_text(verdict_json(e)) == Some(e),
        trim_ws(verdict_json(e)) == verdict_json(e),
{
    reveal_strlit("{\"name\":");
    reveal_strlit(",\"confidence\":");
    reveal_strlit(",\"hash\":");
    reveal_strlit("{");
    reveal_strlit("\"name\"");
    reveal_strlit("\"confidence\"");
    reveal_strlit("\"hash\"");
    reveal_strlit(":");
    reveal_strlit(",");
    reveal_strlit("}");
    let s = verdict_json(e);
    let t10 = lit_close();
    let t9 = json_string_list(e.warnings) + t10;
    let t8 = lit_warnings() + t9;
    let t7 = json_string_list(e.errors) + t8;
    let t6 = lit_errors() + t7;
    let t5 = json_string(e.hash) + t6;
    let t4 = lit_hash() + t5;
    let t3 = e.confidence + t4;
    let t2 = lit_confidence() + t3;
    let t1 = json_string(e.name) + t2;
    lemma_verdict_json_split(e);
    assert(s == lit_name() + t1);
    assert(lit_name() + t1 =~= "{"@ + ("\"name\""@ + (":"@ + t1)));
    lemma_tok("{"@, "\"name\""@ + (":"@ + t1));
    lemma_tok("\"name\""@, ":"@ + t1);
    lemma_tok(":"@, t1);
    assert(t1[0] == '"');
    assert(trim_front(t1) == t1);
    lemma_parse_json_string(e.name, t2);
    assert(t2 =~= ","@ + ("\"confidence\""@ + (":"@ + t3)));
    lemma_tok(","@, "\"confidence\""@ + (":"@ + t3));
    lemma_tok("\"confidence\""@, ":"@ + t3);
    lemma_tok(":"@, t3);
    assert(t3[0] == e.confidence[0]);
    assert(!is_ws(e.confidence[0]));
    assert(trim_front(t3) == t3);
    assert(t4[0] == ',');
    lemma_parse_conf(e.confidence, t4);
    assert(t4 =~= ","@ + ("\"hash\""@ + (":"@ + t5)));
    lemma_tok(","@, "\"hash\""@ + (":"@ + t5));
    lemma_tok("\"hash\""@, ":"@ + t5);
    lemma_tok(":"@, t5);
    assert(t5[0] == '"');
    assert(trim_front(t5) == t5);
    lemma_parse_json_string(e.hash, t6);
    assert(t6 =~= lit_errors() + (json_string_list(e.errors) + (lit_warnings() + (
    json_string_list(e.warnings) + lit_close()))));
    lemma_verdict_tail_round_trip(e.name, e.confidence, e.hash, e.errors, e.warnings);
    assert(parse_verdict_text(s) matches Some(v) && v =~= e);
    assert(s[0] == '{');
    assert(s.last() == '}');
    lemma_trim_id(s);
}

/// A decoded verdict is well-formed: its confidence field is the text of a
/// decimal number in `[0.0, 1.0]` — the only entries the round state
/// machine ever persists.
pub proof fn lemma_parse_verdict_wf(s: Seq<char>)
    ensures
        parse_verdict_text(s) matches Some(v) ==> entry_wf(v),
{
}

} // verus!
