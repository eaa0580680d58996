//! The verse-markup parser. A lyrics document is a stream of verse elements:
//!
//! ```text
//! <verse type="v" label="1">body</verse>
//! ```
//!
//! The parser walks the document left to right and appends one record per
//! verse element, in encounter order. The dialect it accepts:
//!
//! - Outside verse elements, text is skipped, and any other tag is skipped up
//!   to its closing `>`.
//! - A verse element carries `name="value"` attributes. `type` holds a
//!   single-letter verse-type code; an unknown code defaults to
//!   `VerseType::Other` rather than failing, so a malformed type never stops
//!   a live load. `label` holds a decimal number up to 255; anything else is
//!   a format error. Unknown attribute names are ignored. A missing `type`
//!   defaults to `Other`, a missing `label` to 0.
//! - The body is literal text: `<![CDATA[..]]>` sections are taken verbatim,
//!   the five standard entities (`&lt;` `&gt;` `&amp;` `&quot;` `&apos;`)
//!   are unescaped, and any other `<` or `&` inside a body is a format
//!   error. The assembled body is trimmed of leading and trailing
//!   whitespace. `<verse .../>` is a verse with an empty body.
//! - An unterminated element, value or CDATA section is a format error.
//!
//! A format error carries the character position at which parsing stopped;
//! a malformed document fails as a whole, there is no partial recovery.

use vstd::prelude::*;
use crate::song::{Lyrics, Verse, VerseType};
use crate::text::{
    dec_u8_of, has_at, is_ws, is_ws_char, matches_at, trim_chars,
};

verus! {

/// The document could not be parsed. `pos` is the character position (from
/// the start of the document) at which the problem was found.
#[derive(Debug, Clone, Copy, PartialEq, Eq, Structural)]
pub struct FormatError {
    pub pos: usize,
}

// ---------------------------------------------------------------------------
// The grammar, as spec functions
// ---------------------------------------------------------------------------

pub open spec fn verse_open_tag() -> Seq<char> {
    seq!['<', 'v', 'e', 'r', 's', 'e']
}

pub open spec fn verse_end_tag() -> Seq<char> {
    seq!['<', '/', 'v', 'e', 'r', 's', 'e']
}

pub open spec fn cdata_open_tag() -> Seq<char> {
    seq!['<', '!', '[', 'C', 'D', 'A', 'T', 'A', '[']
}

pub open spec fn cdata_close_tag() -> Seq<char> {
    seq![']', ']', '>']
}

pub open spec fn type_attr_name() -> Seq<char> {
    seq!['t', 'y', 'p', 'e']
}

pub open spec fn label_attr_name() -> Seq<char> {
    seq!['l', 'a', 'b', 'e', 'l']
}

/// The entity that starts at position `i`, with its source length.
pub open spec fn entity_at(s: Seq<char>, i: int) -> Option<(char, int)> {
    if matches_at(s, i, seq!['&', 'l', 't', ';']) {
        Some(('<', 4))
    } else if matches_at(s, i, seq!['&', 'g', 't', ';']) {
        Some(('>', 4))
    } else if matches_at(s, i, seq!['&', 'a', 'm', 'p', ';']) {
        Some(('&', 5))
    } else if matches_at(s, i, seq!['&', 'q', 'u', 'o', 't', ';']) {
        Some(('"', 6))
    } else if matches_at(s, i, seq!['&', 'a', 'p', 'o', 's', ';']) {
        Some(('\'', 6))
    } else {
        None
    }
}

/// The first position at or after `i` that does not hold whitespace.
pub open spec fn spec_skip_ws(s: Seq<char>, i: int) -> int
    decreases s.len() - i,
{
    if 0 <= i < s.len() && is_ws_char(s[i]) {
        spec_skip_ws(s, i + 1)
    } else {
        i
    }
}

/// The first position at or after `i` holding `>`, if any.
pub open spec fn spec_find_gt(s: Seq<char>, i: int) -> Option<int>
    decreases s.len() - i,
{
    if i < 0 || i >= s.len() {
        None
    } else if s[i] == '>' {
        Some(i)
    } else {
        spec_find_gt(s, i + 1)
    }
}

/// A character that ends an attribute name.
pub open spec fn is_name_end_char(c: char) -> bool {
    c == '=' || c == '>' || c == '/' || c == '"' || is_ws_char(c)
}

/// The first position at or after `i` that ends an attribute name.
pub open spec fn spec_name_end(s: Seq<char>, i: int) -> int
    decreases s.len() - i,
{
    if 0 <= i < s.len() && !is_name_end_char(s[i]) {
        spec_name_end(s, i + 1)
    } else {
        i
    }
}

/// A quoted attribute value, starting just after the opening quote at
/// `i - 1`: the unescaped value and the position after the closing quote,
/// or the position of the problem.
pub open spec fn spec_attr_value(s: Seq<char>, i: int, acc: Seq<char>) -> Result<
    (Seq<char>, int),
    int,
>
    decreases s.len() - i,
{
    if i < 0 || i >= s.len() {
        Err(i)
    } else if s[i] == '"' {
        Ok((acc, i + 1))
    } else if s[i] == '&' {
        match entity_at(s, i) {
            Some(p) => spec_attr_value(s, i + p.1, acc.push(p.0)),
            None => Err(i),
        }
    } else {
        spec_attr_value(s, i + 1, acc.push(s[i]))
    }
}

/// The verse type a `type` attribute value denotes: a known single-letter
/// code, or `Other` for anything else.
pub open spec fn vtype_of_value(val: Seq<char>) -> VerseType {
    if val.len() == 1 && VerseType::spec_from_code(val[0]) is Some {
        VerseType::spec_from_code(val[0]).unwrap()
    } else {
        VerseType::Other
    }
}

/// Clamp used only so that recursion through computed positions visibly
/// advances and stays in range; on every reachable path the position
/// already advanced and is in range, so the clamp changes nothing.
pub open spec fn bound_pos(s: Seq<char>, i: int, j: int) -> int {
    if i < j <= s.len() {
        j
    } else {
        i + 1
    }
}

/// The attribute list of a verse element, starting at `i` (just after
/// `<verse`): the collected type and label, the position after the closing
/// `>` (or `/>`), and whether the element was self-closing.
pub open spec fn spec_attrs(s: Seq<char>, i: int, vt: VerseType, lbl: u8) -> Result<
    (VerseType, u8, int, bool),
    int,
>
    decreases s.len() - i,
{
    let j = spec_skip_ws(s, i);
    if j < 0 {
        Err(j)
    } else if j >= s.len() {
        Err(j)
    } else if s[j] == '>' {
        Ok((vt, lbl, j + 1, false))
    } else if s[j] == '/' {
        if j + 1 < s.len() && s[j + 1] == '>' {
            Ok((vt, lbl, j + 2, true))
        } else {
            Err(j)
        }
    } else {
        let k = spec_name_end(s, j);
        if k >= s.len() || s[k] != '=' {
            Err(k)
        } else if k + 1 >= s.len() || s[k + 1] != '"' {
            Err(k + 1)
        } else {
            match spec_attr_value(s, k + 2, Seq::empty()) {
                Err(p) => Err(p),
                Ok((val, m)) => {
                    let name = s.subrange(j, k);
                    if name == type_attr_name() {
                        spec_attrs(s, bound_pos(s, i, m), vtype_of_value(val), lbl)
                    } else if name == label_attr_name() {
                        match dec_u8_of(val) {
                            Some(n) => spec_attrs(s, bound_pos(s, i, m), vt, n),
                            None => Err(k + 2),
                        }
                    } else {
                        spec_attrs(s, bound_pos(s, i, m), vt, lbl)
                    }
                },
            }
        }
    }
}

/// A verse body, starting at `i` (just after the opening tag): the raw
/// assembled text (not yet trimmed) and the position after the closing
/// `</verse>`, or the position of the problem.
pub open spec fn spec_body(s: Seq<char>, i: int, acc: Seq<char>) -> Result<(Seq<char>, int), int>
    decreases s.len() - i,
{
    if i < 0 || i >= s.len() {
        Err(i)
    } else if matches_at(s, i, verse_end_tag()) {
        let j = spec_skip_ws(s, i + 7);
        if j < s.len() && s[j] == '>' {
            Ok((acc, j + 1))
        } else {
            Err(j)
        }
    } else if matches_at(s, i, cdata_open_tag()) {
        spec_cdata(s, i + 9, acc)
    } else if s[i] == '<' {
        Err(i)
    } else if s[i] == '&' {
        match entity_at(s, i) {
            Some(p) => spec_body(s, i + p.1, acc.push(p.0)),
            None => Err(i),
        }
    } else {
        spec_body(s, i + 1, acc.push(s[i]))
    }
}

/// The inside of a CDATA section: characters are taken verbatim until the
/// closing `]]>`, after which the body continues.
pub open spec fn spec_cdata(s: Seq<char>, i: int, acc: Seq<char>) -> Result<(Seq<char>, int), int>
    decreases s.len() - i,
{
    if i < 0 || i >= s.len() {
        Err(i)
    } else if matches_at(s, i, cdata_close_tag()) {
        spec_body(s, i + 3, acc)
    } else {
        spec_cdata(s, i + 1, acc.push(s[i]))
    }
}

/// `<verse` at `i` opens a verse element only when followed by a boundary,
/// so that a tag such as `<verses>` is not mistaken for one.
pub open spec fn tag_boundary(s: Seq<char>, j: int) -> bool {
    j >= s.len() || is_ws_char(s[j]) || s[j] == '>' || s[j] == '/'
}

/// The whole document from position `i` on: the records collected so far
/// plus every verse element that follows, or the position of the problem.
pub open spec fn spec_doc(s: Seq<char>, i: int, acc: Seq<(Verse, Seq<char>)>) -> Result<
    Seq<(Verse, Seq<char>)>,
    int,
>
    decreases s.len() - i,
{
    if i < 0 {
        Err(i)
    } else if i >= s.len() {
        Ok(acc)
    } else if matches_at(s, i, verse_open_tag()) && tag_boundary(s, i + 6) {
        match spec_attrs(s, i + 6, VerseType::Other, 0) {
            Err(p) => Err(p),
            Ok((vt, lbl, bs, selfclosed)) => {
                if selfclosed {
                    spec_doc(s, bound_pos(s, i, bs), acc.push((Verse(vt, lbl), Seq::empty())))
                } else {
                    match spec_body(s, bs, Seq::empty()) {
                        Err(p) => Err(p),
                        Ok((body, j)) => spec_doc(
                            s,
                            bound_pos(s, i, j),
                            acc.push((Verse(vt, lbl), trim_chars(body))),
                        ),
                    }
                }
            },
        }
    } else if s[i] == '<' {
        match spec_find_gt(s, i + 1) {
            Some(j) => spec_doc(s, bound_pos(s, i, j + 1), acc),
            None => Err(i),
        }
    } else {
        spec_doc(s, i + 1, acc)
    }
}

/// What parsing a document means: the ordered verse records it holds, or
/// the position at which it is malformed.
pub open spec fn spec_parse(s: Seq<char>) -> Result<Seq<(Verse, Seq<char>)>, int> {
    spec_doc(s, 0, Seq::empty())
}

/// The verse records a vector of entries denotes.
pub open spec fn entries_view(es: Seq<(Verse, String)>) -> Seq<(Verse, Seq<char>)> {
    Seq::new(es.len(), |i: int| (es[i].0, es[i].1@))
}

// ---------------------------------------------------------------------------
// The canonical rendering of records, and the round-trip law
// ---------------------------------------------------------------------------

/// A character the canonical rendering must escape in a verse body.
pub open spec fn is_escaped_char(c: char) -> bool {
    c == '<' || c == '>' || c == '&' || c == '"' || c == '\''
}

/// The canonical rendering of one body character.
pub open spec fn escape_char(c: char) -> Seq<char> {
    if c == '<' {
        seq!['&', 'l', 't', ';']
    } else if c == '>' {
        seq!['&', 'g', 't', ';']
    } else if c == '&' {
        seq!['&', 'a', 'm', 'p', ';']
    } else if c == '"' {
        seq!['&', 'q', 'u', 'o', 't', ';']
    } else if c == '\'' {
        seq!['&', 'a', 'p', 'o', 's', ';']
    } else {
        seq![c]
    }
}

/// The canonical rendering of a verse body.
pub open spec fn escape(t: Seq<char>) -> Seq<char>
    decreases t.len(),
{
    if t.len() == 0 {
        Seq::empty()
    } else {
        escape_char(t[0]) + escape(t.drop_first())
    }
}

/// The canonical attribute list of a verse element.
pub open spec fn attrs_text(vt: VerseType, lbl: u8) -> Seq<char> {
    seq![' ', 't', 'y', 'p', 'e', '=', '"'] + seq![vt.spec_code()] + seq![
        '"',
        ' ',
        'l',
        'a',
        'b',
        'e',
        'l',
        '=',
        '"',
    ] + crate::text::dec_str(lbl as int) + seq!['"', '>']
}

/// The closing tag `</verse>`.
pub open spec fn end_elem() -> Seq<char> {
    verse_end_tag() + seq!['>']
}

/// The canonical rendering of one verse record.
pub open spec fn verse_elem(r: (Verse, Seq<char>)) -> Seq<char> {
    verse_open_tag() + attrs_text(r.0.0, r.0.1) + escape(r.1) + end_elem()
}

/// The canonical rendering of a whole record sequence, in order.
pub open spec fn doc_of(l: Seq<(Verse, Seq<char>)>) -> Seq<char>
    decreases l.len(),
{
    if l.len() == 0 {
        Seq::empty()
    } else {
        verse_elem(l[0]) + doc_of(l.drop_first())
    }
}

/// A character of a match, by position.
proof fn lemma_matches_char(s: Seq<char>, i: int, p: Seq<char>, k: int)
    requires
        matches_at(s, i, p),
        0 <= k < p.len(),
    ensures
        s[i + k] == p[k],
{
    assert(s.subrange(i, i + p.len() as int)[k] == p[k]);
}

/// `spec_name_end` lands exactly on the first name-ending position.
proof fn lemma_name_end_at(s: Seq<char>, i: int, e: int)
    requires
        0 <= i <= e <= s.len(),
        forall|k: int| i <= k < e ==> !is_name_end_char(s[k]),
        e < s.len() ==> is_name_end_char(s[e]),
    ensures
        spec_name_end(s, i) == e,
    decreases e - i,
{
    if i < e {
        lemma_name_end_at(s, i + 1, e);
    }
}

/// A quoted value without specials parses to itself.
proof fn lemma_attr_value_plain(s: Seq<char>, i: int, t: Seq<char>, acc: Seq<char>)
    requires
        0 <= i,
        i + t.len() + 1 <= s.len(),
        forall|k: int| 0 <= k < t.len() ==> s[i + k] == t[k] && t[k] != '"' && t[k] != '&',
        s[i + t.len()] == '"',
    ensures
        spec_attr_value(s, i, acc) == Ok::<(Seq<char>, int), int>((acc + t, i + t.len() + 1)),
    decreases t.len(),
{
    if t.len() == 0 {
        assert(acc + t =~= acc);
    } else {
        assert(s[i] == t[0]);
        lemma_attr_value_plain(s, i + 1, t.drop_first(), acc.push(t[0]));
        assert(acc.push(t[0]) + t.drop_first() =~= acc + t);
    }
}

/// The canonical escape of a special character reads back as that
/// character.
proof fn lemma_entity_of_escape(s: Seq<char>, i: int, c: char)
    requires
        is_escaped_char(c),
        matches_at(s, i, escape_char(c)),
    ensures
        entity_at(s, i) == Some((c, escape_char(c).len() as int)),
{
    if c == '<' {
    } else if c == '>' {
        lemma_matches_char(s, i, escape_char(c), 1);
        if matches_at(s, i, seq!['&', 'l', 't', ';']) {
            lemma_matches_char(s, i, seq!['&', 'l', 't', ';'], 1);
        }
    } else if c == '&' {
        lemma_matches_char(s, i, escape_char(c), 1);
        if matches_at(s, i, seq!['&', 'l', 't', ';']) {
            lemma_matches_char(s, i, seq!['&', 'l', 't', ';'], 1);
        }
        if matches_at(s, i, seq!['&', 'g', 't', ';']) {
            lemma_matches_char(s, i, seq!['&', 'g', 't', ';'], 1);
        }
    } else if c == '"' {
        lemma_matches_char(s, i, escape_char(c), 1);
        if matches_at(s, i, seq!['&', 'l', 't', ';']) {
            lemma_matches_char(s, i, seq!['&', 'l', 't', ';'], 1);
        }
        if matches_at(s, i, seq!['&', 'g', 't', ';']) {
            lemma_matches_char(s, i, seq!['&', 'g', 't', ';'], 1);
        }
        if matches_at(s, i, seq!['&', 'a', 'm', 'p', ';']) {
            lemma_matches_char(s, i, seq!['&', 'a', 'm', 'p', ';'], 1);
        }
    } else {
        lemma_matches_char(s, i, escape_char(c), 1);
        lemma_matches_char(s, i, escape_char(c), 2);
        if matches_at(s, i, seq!['&', 'l', 't', ';']) {
            lemma_matches_char(s, i, seq!['&', 'l', 't', ';'], 1);
        }
        if matches_at(s, i, seq!['&', 'g', 't', ';']) {
            lemma_matches_char(s, i, seq!['&', 'g', 't', ';'], 1);
        }
        if matches_at(s, i, seq!['&', 'a', 'm', 'p', ';']) {
            lemma_matches_char(s, i, seq!['&', 'a', 'm', 'p', ';'], 2);
        }
        if matches_at(s, i, seq!['&', 'q', 'u', 'o', 't', ';']) {
            lemma_matches_char(s, i, seq!['&', 'q', 'u', 'o', 't', ';'], 1);
        }
    }
}

/// A canonically escaped body followed by `</verse>` parses back to the
/// body.
proof fn lemma_body_of(s: Seq<char>, i: int, t: Seq<char>, acc: Seq<char>)
    requires
        0 <= i,
        i + escape(t).len() + 8 <= s.len(),
        forall|k: int| 0 <= k < escape(t).len() ==> s[i + k] == escape(t)[k],
        matches_at(s, i + escape(t).len(), end_elem()),
    ensures
        spec_body(s, i, acc) == Ok::<(Seq<char>, int), int>(
            (acc + t, i + escape(t).len() + 8),
        ),
    decreases t.len(),
{
    let e = escape(t).len() as int;
    if t.len() == 0 {
        assert(matches_at(s, i, verse_end_tag())) by {
            assert(s.subrange(i, i + 7) =~= end_elem().subrange(0, 7)) by {
                assert(forall|k: int|
                    0 <= k < 7 ==> s.subrange(i, i + 7)[k] == end_elem()[k] && end_elem().subrange(
                        0,
                        7,
                    )[k] == end_elem()[k]) by {
                    assert(forall|k: int| 0 <= k < 8 ==> s[i + k] == end_elem()[k]) by {
                        assert(forall|k: int| 0 <= k < 8 ==> s.subrange(i, i + 8)[k] == end_elem()[k]);
                    }
                }
            }
            assert(end_elem().subrange(0, 7) =~= verse_end_tag());
        }
        lemma_matches_char(s, i, end_elem(), 7);
        assert(s[i + 7] == '>');
        assert(spec_skip_ws(s, i + 7) == i + 7);
        assert(acc + t =~= acc);
    } else {
        let c = t[0];
        let ec = escape_char(c);
        assert(escape(t) == ec + escape(t.drop_first()));
        assert(forall|k: int| 0 <= k < ec.len() ==> s[i + k] == ec[k]) by {
            assert(forall|k: int| 0 <= k < ec.len() ==> escape(t)[k] == ec[k]);
        }
        assert(ec.len() >= 1);
        assert(s[i] == ec[0]);
        // The first rendered character is never '<', so neither closing tag
        // nor CDATA can start here.
        assert(ec[0] != '<');
        if matches_at(s, i, verse_end_tag()) {
            lemma_matches_char(s, i, verse_end_tag(), 0);
        }
        if matches_at(s, i, cdata_open_tag()) {
            lemma_matches_char(s, i, cdata_open_tag(), 0);
        }
        if is_escaped_char(c) {
            assert(matches_at(s, i, ec)) by {
                assert(s.subrange(i, i + ec.len() as int) =~= ec);
            }
            lemma_entity_of_escape(s, i, c);
            assert(forall|k: int|
                0 <= k < escape(t.drop_first()).len() ==> s[i + ec.len() + k] == escape(
                    t.drop_first(),
                )[k]) by {
                assert(forall|k: int|
                    0 <= k < escape(t.drop_first()).len() ==> escape(t)[ec.len() + k] == escape(
                        t.drop_first(),
                    )[k]);
            }
            lemma_body_of(s, i + ec.len(), t.drop_first(), acc.push(c));
            assert(acc.push(c) + t.drop_first() =~= acc + t);
        } else {
            assert(ec =~= seq![c]);
            assert(s[i] == c);
            assert(c != '<' && c != '&');
            assert(forall|k: int|
                0 <= k < escape(t.drop_first()).len() ==> s[i + 1 + k] == escape(t.drop_first())[k]) by {
                assert(forall|k: int|
                    0 <= k < escape(t.drop_first()).len() ==> escape(t)[1 + k] == escape(
                        t.drop_first(),
                    )[k]);
            }
            lemma_body_of(s, i + 1, t.drop_first(), acc.push(c));
            assert(acc.push(c) + t.drop_first() =~= acc + t);
        }
    }
}

/// The canonical attribute list parses back to its type and label.
proof fn lemma_attrs_of(s: Seq<char>, a: int, vt: VerseType, lbl: u8)
    requires
        0 <= a,
        a + attrs_text(vt, lbl).len() <= s.len(),
        forall|k: int| 0 <= k < attrs_text(vt, lbl).len() ==> s[a + k] == attrs_text(vt, lbl)[k],
    ensures
        spec_attrs(s, a, VerseType::Other, 0) == Ok::<(VerseType, u8, int, bool), int>(
            (vt, lbl, a + attrs_text(vt, lbl).len(), false),
        ),
{
    let at = attrs_text(vt, lbl);
    let dd = crate::text::dec_str(lbl as int);
    let d = dd.len() as int;
    crate::text::lemma_dec_round_trip(lbl);
    assert(at.len() == 19 + d);
    // Lay out the attribute text character by character.
    assert(at[0] == ' ' && at[1] == 't' && at[2] == 'y' && at[3] == 'p' && at[4] == 'e' && at[5]
        == '=' && at[6] == '"');
    assert(at[7] == vt.spec_code());
    assert(at[8] == '"' && at[9] == ' ' && at[10] == 'l' && at[11] == 'a' && at[12] == 'b' && at[13]
        == 'e' && at[14] == 'l' && at[15] == '=' && at[16] == '"');
    assert(forall|k: int| 0 <= k < d ==> at[17 + k] == dd[k]);
    assert(at[17 + d] == '"' && at[18 + d] == '>');
    // First attribute: type="X"
    assert(is_ws_char(s[a]));
    assert(!is_ws_char(s[a + 1]));
    assert(spec_skip_ws(s, a + 1) == a + 1);
    assert(spec_skip_ws(s, a) == a + 1);
    lemma_name_end_at(s, a + 1, a + 5);
    assert(s[a + 5] == '=');
    assert(s[a + 6] == '"');
    let code = seq![vt.spec_code()];
    assert(vt.spec_code() != '"' && vt.spec_code() != '&');
    lemma_attr_value_plain(s, a + 7, code, Seq::empty());
    assert(Seq::<char>::empty() + code =~= code);
    assert(s.subrange(a + 1, a + 5) =~= type_attr_name());
    assert(vtype_of_value(code) == vt) by {
        crate::song::lemma_code_round_trip(vt);
    }
    assert(bound_pos(s, a, a + 9) == a + 9);
    assert(spec_attrs(s, a, VerseType::Other, 0) == spec_attrs(s, a + 9, vt, 0));
    // Second attribute: label="DDD"
    assert(is_ws_char(s[a + 9]));
    assert(!is_ws_char(s[a + 10]));
    assert(spec_skip_ws(s, a + 10) == a + 10);
    assert(spec_skip_ws(s, a + 9) == a + 10);
    lemma_name_end_at(s, a + 10, a + 15);
    assert(s[a + 15] == '=');
    assert(s[a + 16] == '"');
    assert(forall|k: int| 0 <= k < d ==> s[a + 17 + k] == dd[k] && dd[k] != '"' && dd[k] != '&')
        by {
        assert(forall|k: int| 0 <= k < d ==> crate::text::is_digit_char(dd[k]));
    }
    lemma_attr_value_plain(s, a + 17, dd, Seq::empty());
    assert(Seq::<char>::empty() + dd =~= dd);
    assert(s.subrange(a + 10, a + 15) =~= label_attr_name());
    if s.subrange(a + 10, a + 15) == type_attr_name() {
        assert(label_attr_name().len() == type_attr_name().len());
    }
    assert(dec_u8_of(dd) == Some(lbl));
    assert(bound_pos(s, a, a + 18 + d) == a + 18 + d);
    assert(spec_attrs(s, a + 9, vt, 0) == spec_attrs(s, a + 18 + d, vt, lbl));
    // Closing '>'
    assert(spec_skip_ws(s, a + 18 + d) == a + 18 + d) by {
        assert(!is_ws_char(s[a + 18 + d]));
    }
    assert(s[a + 18 + d] == '>');
    assert(spec_attrs(s, a + 18 + d, vt, lbl) == Ok::<(VerseType, u8, int, bool), int>(
        (vt, lbl, a + 19 + d, false),
    ));
}

/// Parsing the canonical rendering from position `i` appends exactly the
/// rendered records.
proof fn lemma_doc_of_at(s: Seq<char>, i: int, acc: Seq<(Verse, Seq<char>)>, l: Seq<
    (Verse, Seq<char>),
>)
    requires
        0 <= i <= s.len(),
        s.subrange(i, s.len() as int) == doc_of(l),
        forall|k: int| 0 <= k < l.len() ==> crate::text::no_edge_ws((#[trigger] l[k]).1),
    ensures
        spec_doc(s, i, acc) == Ok::<Seq<(Verse, Seq<char>)>, int>(acc + l),
    decreases l.len(),
{
    if l.len() == 0 {
        assert(s.len() - i == doc_of(l).len());
        assert(acc + l =~= acc);
    } else {
        let r = l[0];
        let elem = verse_elem(r);
        let at = attrs_text(r.0.0, r.0.1);
        let esc = escape(r.1);
        let elen = elem.len() as int;
        assert(elem.len() == 6 + at.len() + esc.len() + 8);
        assert(s.len() - i == doc_of(l).len());
        assert(doc_of(l) == elem + doc_of(l.drop_first()));
        assert(i + elen <= s.len());
        assert(forall|k: int| 0 <= k < elen ==> s[i + k] == elem[k]) by {
            assert(forall|k: int|
                0 <= k < doc_of(l).len() ==> s.subrange(i, s.len() as int)[k] == doc_of(l)[k]);
            assert(forall|k: int| 0 <= k < elen ==> doc_of(l)[k] == elem[k]);
        }
        // The element starts with `<verse` at a boundary.
        assert(forall|k: int| 0 <= k < 6 ==> elem[k] == verse_open_tag()[k]);
        assert(matches_at(s, i, verse_open_tag())) by {
            assert(s.subrange(i, i + 6) =~= verse_open_tag());
        }
        assert(elem[6] == at[0]);
        assert(at[0] == ' ');
        assert(tag_boundary(s, i + 6));
        // Attributes.
        assert(forall|k: int| 0 <= k < at.len() ==> s[i + 6 + k] == at[k]) by {
            assert(forall|k: int| 0 <= k < at.len() ==> elem[6 + k] == at[k]);
        }
        lemma_attrs_of(s, i + 6, r.0.0, r.0.1);
        let bs = i + 6 + at.len() as int;
        // Body.
        assert(forall|k: int| 0 <= k < esc.len() ==> s[bs + k] == esc[k]) by {
            assert(forall|k: int| 0 <= k < esc.len() ==> elem[6 + at.len() + k] == esc[k]);
        }
        assert(matches_at(s, bs + esc.len(), end_elem())) by {
            assert(forall|k: int| 0 <= k < 8 ==> elem[6 + at.len() + esc.len() + k] == end_elem()[k]);
            assert(s.subrange(bs + esc.len(), bs + esc.len() + 8) =~= end_elem());
        }
        lemma_body_of(s, bs, r.1, Seq::empty());
        assert(Seq::<char>::empty() + r.1 =~= r.1);
        let nxt = i + elen;
        // The parsed record is the rendered one.
        crate::text::lemma_trim_no_edge_ws(r.1);
        assert(Verse(r.0.0, r.0.1) == r.0);
        assert(bound_pos(s, i, nxt) == nxt);
        // The rest of the document follows.
        assert(s.subrange(nxt, s.len() as int) =~= doc_of(l.drop_first())) by {
            assert(forall|k: int|
                0 <= k < doc_of(l.drop_first()).len() ==> s.subrange(nxt, s.len() as int)[k]
                    == doc_of(l.drop_first())[k]) by {
                assert(forall|k: int|
                    0 <= k < doc_of(l.drop_first()).len() ==> doc_of(l)[elen + k] == doc_of(
                        l.drop_first(),
                    )[k]);
                assert(forall|k: int|
                    0 <= k < doc_of(l).len() ==> s.subrange(i, s.len() as int)[k] == doc_of(l)[k]);
            }
        }
        assert(forall|k: int|
            0 <= k < l.drop_first().len() ==> crate::text::no_edge_ws(
                (#[trigger] l.drop_first()[k]).1,
            ));
        lemma_doc_of_at(s, nxt, acc.push((r.0, trim_chars(r.1))), l.drop_first());
        assert(acc.push((r.0, trim_chars(r.1))) + l.drop_first() =~= acc + l) by {
            assert(trim_chars(r.1) == r.1);
        }
        assert(spec_doc(s, i, acc) == spec_doc(
            s,
            nxt,
            acc.push((Verse(r.0.0, r.0.1), trim_chars(r.1))),
        ));
    }
}

/// Round trip: rendering any record sequence canonically — each record as
/// `<verse type="X" label="N">` around its escaped body — and parsing the
/// rendering back yields exactly the same records, in the same order. The
/// one proviso is that bodies carry no whitespace at their edges, since the
/// parser trims what it reads.
pub proof fn lemma_parse_doc_of(l: Seq<(Verse, Seq<char>)>)
    requires
        forall|k: int| 0 <= k < l.len() ==> crate::text::no_edge_ws((#[trigger] l[k]).1),
    ensures
        spec_parse(doc_of(l)) == Ok::<Seq<(Verse, Seq<char>)>, int>(l),
{
    let s = doc_of(l);
    assert(s.subrange(0, s.len() as int) =~= s);
    lemma_doc_of_at(s, 0, Seq::empty(), l);
    assert(Seq::<(Verse, Seq<char>)>::empty() + l =~= l);
}

// ---------------------------------------------------------------------------
// The parser, proved to compute exactly what the grammar says
// ---------------------------------------------------------------------------

fn skip_ws_x(v: &Vec<char>, i: usize) -> (j: usize)
    requires
        i <= v@.len(),
    ensures
        j as int == spec_skip_ws(v@, i as int),
        i <= j <= v@.len(),
{
    let mut j = i;
    while j < v.len() && is_ws(v[j])
        invariant
            i <= j <= v@.len(),
            spec_skip_ws(v@, i as int) == spec_skip_ws(v@, j as int),
        decreases v@.len() - j,
    {
        j = j + 1;
    }
    j
}

fn find_gt_x(v: &Vec<char>, i: usize) -> (r: Option<usize>)
    requires
        i <= v@.len(),
    ensures
        match r {
            Some(j) => spec_find_gt(v@, i as int) == Some(j as int) && i <= j < v@.len(),
            None => spec_find_gt(v@, i as int) is None,
        },
{
    let mut j = i;
    while j < v.len()
        invariant
            i <= j <= v@.len(),
            spec_find_gt(v@, i as int) == spec_find_gt(v@, j as int),
        decreases v@.len() - j,
    {
        if v[j] == '>' {
            return Some(j);
        }
        j = j + 1;
    }
    None
}

fn name_end_x(v: &Vec<char>, i: usize) -> (k: usize)
    requires
        i <= v@.len(),
    ensures
        k as int == spec_name_end(v@, i as int),
        i <= k <= v@.len(),
{
    let mut k = i;
    while k < v.len() && !(v[k] == '=' || v[k] == '>' || v[k] == '/' || v[k] == '"' || is_ws(v[k]))
        invariant
            i <= k <= v@.len(),
            spec_name_end(v@, i as int) == spec_name_end(v@, k as int),
        decreases v@.len() - k,
    {
        k = k + 1;
    }
    k
}

fn entity_x(v: &Vec<char>, i: usize) -> (r: Option<(char, usize)>)
    requires
        i <= v@.len(),
    ensures
        match r {
            Some(p) => entity_at(v@, i as int) == Some((p.0, p.1 as int)) && 1 <= p.1 && i + p.1
                <= v@.len(),
            None => entity_at(v@, i as int) is None,
        },
{
    if has_at(v, i, &['&', 'l', 't', ';']) {
        Some(('<', 4))
    } else if has_at(v, i, &['&', 'g', 't', ';']) {
        Some(('>', 4))
    } else if has_at(v, i, &['&', 'a', 'm', 'p', ';']) {
        Some(('&', 5))
    } else if has_at(v, i, &['&', 'q', 'u', 'o', 't', ';']) {
        Some(('"', 6))
    } else if has_at(v, i, &['&', 'a', 'p', 'o', 's', ';']) {
        Some(('\'', 6))
    } else {
        None
    }
}

fn attr_value_x(v: &Vec<char>, start: usize) -> (r: Result<(Vec<char>, usize), usize>)
    requires
        start <= v@.len(),
    ensures
        match r {
            Ok(p) => spec_attr_value(v@, start as int, Seq::empty()) == Ok::<(Seq<char>, int), int>(
                (p.0@, p.1 as int),
            ) && start < p.1 <= v@.len(),
            Err(p) => spec_attr_value(v@, start as int, Seq::empty()) == Err::<
                (Seq<char>, int),
                int,
            >(p as int) && p <= v@.len(),
        },
{
    let mut acc: Vec<char> = Vec::new();
    let mut i = start;
    loop
        invariant
            start <= i <= v@.len(),
            spec_attr_value(v@, start as int, Seq::empty()) == spec_attr_value(
                v@,
                i as int,
                acc@,
            ),
        decreases v@.len() - i,
    {
        if i >= v.len() {
            return Err(i);
        }
        let c = v[i];
        if c == '"' {
            return Ok((acc, i + 1));
        }
        if c == '&' {
            match entity_x(v, i) {
                Some((ch, l)) => {
                    acc.push(ch);
                    i = i + l;
                },
                None => {
                    return Err(i);
                },
            }
        } else {
            acc.push(c);
            i = i + 1;
        }
    }
}

fn vtype_of_value_x(val: &Vec<char>) -> (t: VerseType)
    ensures
        t == vtype_of_value(val@),
{
    if val.len() == 1 {
        match VerseType::from_code(val[0]) {
            Some(t) => t,
            None => VerseType::Other,
        }
    } else {
        VerseType::Other
    }
}

fn attrs_x(v: &Vec<char>, start: usize) -> (r: Result<(VerseType, u8, usize, bool), usize>)
    requires
        start <= v@.len(),
    ensures
        match r {
            Ok(p) => spec_attrs(v@, start as int, VerseType::Other, 0) == Ok::<
                (VerseType, u8, int, bool),
                int,
            >((p.0, p.1, p.2 as int, p.3)) && start < p.2 <= v@.len(),
            Err(p) => spec_attrs(v@, start as int, VerseType::Other, 0) == Err::<
                (VerseType, u8, int, bool),
                int,
            >(p as int) && p <= v@.len(),
        },
{
    let mut vt = VerseType::Other;
    let mut lbl: u8 = 0;
    let mut pos = start;
    loop
        invariant
            start <= pos <= v@.len(),
            spec_attrs(v@, start as int, VerseType::Other, 0) == spec_attrs(
                v@,
                pos as int,
                vt,
                lbl,
            ),
        decreases v@.len() - pos,
    {
        let j = skip_ws_x(v, pos);
        if j >= v.len() {
            return Err(j);
        }
        let c = v[j];
        if c == '>' {
            return Ok((vt, lbl, j + 1, false));
        }
        if c == '/' {
            if j + 1 < v.len() && v[j + 1] == '>' {
                return Ok((vt, lbl, j + 2, true));
            } else {
                return Err(j);
            }
        }
        let k = name_end_x(v, j);
        if k >= v.len() || v[k] != '=' {
            return Err(k);
        }
        if k + 1 >= v.len() || v[k + 1] != '"' {
            return Err(k + 1);
        }
        match attr_value_x(v, k + 2) {
            Err(p) => {
                return Err(p);
            },
            Ok((val, m)) => {
                let ghost name = v@.subrange(j as int, k as int);
                if k - j == 4 && has_at(v, j, &['t', 'y', 'p', 'e']) {
                    proof {
                        assert(name =~= v@.subrange(j as int, j as int + 4));
                        assert(name == type_attr_name());
                    }
                    vt = vtype_of_value_x(&val);
                } else if k - j == 5 && has_at(v, j, &['l', 'a', 'b', 'e', 'l']) {
                    proof {
                        assert(name =~= v@.subrange(j as int, j as int + 5));
                        assert(name == label_attr_name());
                    }
                    match crate::text::parse_u8_dec(&val) {
                        Some(n) => {
                            lbl = n;
                        },
                        None => {
                            return Err(k + 2);
                        },
                    }
                } else {
                    proof {
                        if name == type_attr_name() {
                            assert(name.len() == 4);
                            assert(matches_at(v@, j as int, type_attr_name()));
                            assert(false);
                        }
                        if name == label_attr_name() {
                            assert(name.len() == 5);
                            assert(matches_at(v@, j as int, label_attr_name()));
                            assert(false);
                        }
                    }
                }
                proof {
                    assert(bound_pos(v@, pos as int, m as int) == m as int);
                }
                pos = m;
            },
        }
    }
}

fn body_x(v: &Vec<char>, start: usize) -> (r: Result<(Vec<char>, usize), usize>)
    requires
        start <= v@.len(),
    ensures
        match r {
            Ok(p) => spec_body(v@, start as int, Seq::empty()) == Ok::<(Seq<char>, int), int>(
                (p.0@, p.1 as int),
            ) && start < p.1 <= v@.len(),
            Err(p) => spec_body(v@, start as int, Seq::empty()) == Err::<(Seq<char>, int), int>(
                p as int,
            ) && p <= v@.len(),
        },
{
    let mut acc: Vec<char> = Vec::new();
    let mut i = start;
    let mut in_cdata = false;
    loop
        invariant
            start <= i <= v@.len(),
            if in_cdata {
                spec_body(v@, start as int, Seq::empty()) == spec_cdata(v@, i as int, acc@)
            } else {
                spec_body(v@, start as int, Seq::empty()) == spec_body(v@, i as int, acc@)
            },
        decreases v@.len() - i, (if in_cdata { 0int } else { 1int }),
    {
        if i >= v.len() {
            return Err(i);
        }
        if in_cdata {
            if has_at(v, i, &[']', ']', '>']) {
                proof {
                    assert((&[']', ']', '>'])@ =~= cdata_close_tag());
                }
                in_cdata = false;
                i = i + 3;
            } else {
                acc.push(v[i]);
                i = i + 1;
            }
        } else {
            if has_at(v, i, &['<', '/', 'v', 'e', 'r', 's', 'e']) {
                proof {
                    assert((&['<', '/', 'v', 'e', 'r', 's', 'e'])@ =~= verse_end_tag());
                }
                let j = skip_ws_x(v, i + 7);
                if j < v.len() && v[j] == '>' {
                    return Ok((acc, j + 1));
                } else {
                    return Err(j);
                }
            }
            if has_at(v, i, &['<', '!', '[', 'C', 'D', 'A', 'T', 'A', '[']) {
                proof {
                    assert((&['<', '!', '[', 'C', 'D', 'A', 'T', 'A', '['])@ =~= cdata_open_tag());
                    assert(!matches_at(v@, i as int, verse_end_tag())) by {
                        if matches_at(v@, i as int, verse_end_tag()) {
                            assert(v@.subrange(i as int, i as int + 7)[1]
                                == v@.subrange(i as int, i as int + 9)[1]);
                        }
                    }
                }
                in_cdata = true;
                i = i + 9;
                continue;
            }
            let c = v[i];
            if c == '<' {
                return Err(i);
            }
            if c == '&' {
                match entity_x(v, i) {
                    Some((ch, l)) => {
                        acc.push(ch);
                        i = i + l;
                    },
                    None => {
                        return Err(i);
                    },
                }
            } else {
                acc.push(c);
                i = i + 1;
            }
        }
    }
}

impl Lyrics {
    /// Parses a lyrics markup document into its ordered verse records,
    /// exactly as `spec_parse` describes: `Ok` holds every verse element in
    /// document order; `Err` reports the position at which the document is
    /// malformed. The empty document parses to empty lyrics.
    pub fn parse(markup: &str) -> (r: Result<Lyrics, FormatError>)
        ensures
            match r {
                Ok(l) => spec_parse(markup@) == Ok::<Seq<(Verse, Seq<char>)>, int>(l@),
                Err(e) => spec_parse(markup@) == Err::<Seq<(Verse, Seq<char>)>, int>(
                    e.pos as int,
                ),
            },
    {
        let v = crate::text::string_to_chars(markup);
        let n = v.len();
        let mut entries: Vec<(Verse, String)> = Vec::new();
        let mut i: usize = 0;
        assert(entries_view(entries@) =~= Seq::<(Verse, Seq<char>)>::empty());
        while i < n
            invariant
                i <= n,
                n == v@.len(),
                v@ == markup@,
                spec_doc(v@, 0, Seq::empty()) == spec_doc(v@, i as int, entries_view(entries@)),
            decreases n - i,
        {
            let pat_open: &[char] = &['<', 'v', 'e', 'r', 's', 'e'];
            let open_here = has_at(&v, i, pat_open);
            proof {
                assert(pat_open@ =~= verse_open_tag());
            }
            let boundary_ok = if n - i <= 6 {
                true
            } else {
                let c = v[i + 6];
                is_ws(c) || c == '>' || c == '/'
            };
            assert(boundary_ok == tag_boundary(v@, i as int + 6));
            if open_here && boundary_ok {
                match attrs_x(&v, i + 6) {
                    Err(p) => {
                        return Err(FormatError { pos: p });
                    },
                    Ok((vt, lbl, bs, selfclosed)) => {
                        if selfclosed {
                            let verse = Verse::new(vt, lbl);
                            proof {
                                assert(verse == Verse(vt, lbl));
                                assert(bound_pos(v@, i as int, bs as int) == bs as int);
                                assert(spec_doc(v@, i as int, entries_view(entries@)) == spec_doc(
                                    v@,
                                    bs as int,
                                    entries_view(entries@).push(
                                        (Verse(vt, lbl), Seq::<char>::empty()),
                                    ),
                                ));
                            }
                            let ghost prev = entries_view(entries@);
                            entries.push((verse, String::new()));
                            proof {
                                assert(entries_view(entries@) =~= prev.push(
                                    (Verse(vt, lbl), Seq::<char>::empty()),
                                ));
                            }
                            i = bs;
                        } else {
                            match body_x(&v, bs) {
                                Err(p) => {
                                    return Err(FormatError { pos: p });
                                },
                                Ok((body, j)) => {
                                    let trimmed = crate::text::trim_vec(&body);
                                    let text = crate::text::chars_to_string(&trimmed);
                                    let verse = Verse::new(vt, lbl);
                                    proof {
                                        assert(verse == Verse(vt, lbl));
                                        assert(bound_pos(v@, i as int, j as int) == j as int);
                                        assert(spec_doc(v@, i as int, entries_view(entries@))
                                            == spec_doc(
                                            v@,
                                            j as int,
                                            entries_view(entries@).push(
                                                (Verse(vt, lbl), trim_chars(body@)),
                                            ),
                                        ));
                                    }
                                    let ghost prev = entries_view(entries@);
                                    entries.push((verse, text));
                                    proof {
                                        assert(entries_view(entries@) =~= prev.push(
                                            (Verse(vt, lbl), trim_chars(body@)),
                                        ));
                                    }
                                    i = j;
                                },
                            }
                        }
                    },
                }
            } else if v[i] == '<' {
                match find_gt_x(&v, i + 1) {
                    Some(j) => {
                        proof {
                            assert(bound_pos(v@, i as int, j as int + 1) == j as int + 1);
                            assert(spec_doc(v@, i as int, entries_view(entries@)) == spec_doc(
                                v@,
                                j as int + 1,
                                entries_view(entries@),
                            ));
                        }
                        i = j + 1;
                    },
                    None => {
                        return Err(FormatError { pos: i });
                    },
                }
            } else {
                proof {
                    assert(spec_doc(v@, i as int, entries_view(entries@)) == spec_doc(
                        v@,
                        i as int + 1,
                        entries_view(entries@),
                    ));
                }
                i = i + 1;
            }
        }
        Ok(Lyrics(entries))
    }
}

} // verus!
