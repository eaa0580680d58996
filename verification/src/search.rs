//! Accent-insensitive catalog matching: the collation the song index uses
//! to decide whether a stored title matches the operator's query. A title
//! matches when the query, lowercased and transliterated to ASCII, occurs
//! inside the title treated the same way.

use vstd::prelude::*;
use core::cmp::Ordering;
use crate::text::{contains_chars, contains_seq, string_to_chars};

verus! {

/// What `str::to_lowercase` returns for a given character sequence.
pub uninterp spec fn lower_of(s: Seq<char>) -> Seq<char>;

/// Relies on str::to_lowercase: the lowercase equivalent of `s`, a function
/// of its characters alone. An empty string stays empty.
#[verifier::external_body]
fn to_lowercase(s: &str) -> (r: String)
    ensures
        r@ == lower_of(s@),
        s@.len() == 0 ==> r@.len() == 0,
{
    s.to_lowercase()
}

/// What `unidecode::unidecode` returns for a given character sequence.
pub uninterp spec fn deaccented_of(s: Seq<char>) -> Seq<char>;

/// Relies on unidecode::unidecode: the ASCII transliteration of `s`, a
/// function of its characters alone. An empty string stays empty.
#[verifier::external_body]
fn deaccent(s: &str) -> (r: String)
    ensures
        r@ == deaccented_of(s@),
        s@.len() == 0 ==> r@.len() == 0,
{
    unidecode::unidecode(s)
}

/// A string as the collation compares it: lowercased, then transliterated
/// to ASCII.
pub open spec fn folded(s: Seq<char>) -> Seq<char> {
    deaccented_of(lower_of(s))
}

/// The catalog collation: `Equal` exactly when the folded query occurs in
/// the folded title, `Greater` otherwise.
pub fn noaccents(title: &str, query: &str) -> (r: Ordering)
    ensures
        r == (if contains_seq(folded(title@), folded(query@)) {
            Ordering::Equal
        } else {
            Ordering::Greater
        }),
{
    let t = deaccent(to_lowercase(title).as_str());
    let q = deaccent(to_lowercase(query).as_str());
    let tc = string_to_chars(t.as_str());
    let qc = string_to_chars(q.as_str());
    if contains_chars(&tc, &qc) {
        Ordering::Equal
    } else {
        Ordering::Greater
    }
}

} // verus!
