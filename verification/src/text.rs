//! Character and string utilities shared by the parser and the formatting
//! code: whitespace trimming, decimal rendering and parsing, and substring
//! matching, each proved against a direct mathematical description.

use vstd::prelude::*;

verus! {

use vstd::std_specs::iter::IteratorSpec;

broadcast use vstd::string::group_string_axioms;

/// ASCII whitespace, as the markup dialect and the trimming rules understand it.
pub open spec fn is_ws_char(c: char) -> bool {
    c == ' ' || c == '\t' || c == '\n' || c == '\r'
}

pub fn is_ws(c: char) -> (r: bool)
    ensures
        r == is_ws_char(c),
{
    c == ' ' || c == '\t' || c == '\n' || c == '\r'
}

/// Relies on String::push: appends the given character to the end of the string.
#[verifier::external_body]
pub(crate) fn push_char(s: &mut String, c: char)
    ensures
        final(s)@ == old(s)@.push(c),
{
    s.push(c);
}

/// Builds the string whose characters are exactly `v`.
pub fn chars_to_string(v: &Vec<char>) -> (s: String)
    ensures
        s@ == v@,
{
    let mut s = String::new();
    let mut i: usize = 0;
    while i < v.len()
        invariant
            i <= v.len(),
            s@ == v@.subrange(0, i as int),
        decreases v.len() - i,
    {
        push_char(&mut s, v[i]);
        i = i + 1;
        assert(s@ =~= v@.subrange(0, i as int));
    }
    assert(s@ =~= v@);
    s
}

/// Collects the characters of `s` into a vector.
pub fn string_to_chars(s: &str) -> (v: Vec<char>)
    ensures
        v@ == s@,
{
    let mut v: Vec<char> = Vec::new();
    let mut it = s.chars();
    loop
        invariant
            it.obeys_prophetic_iter_laws(),
            it.decrease() is Some,
            v@ + it.remaining() == s@,
        decreases it.decrease()->0,
    {
        match it.next() {
            Some(c) => {
                v.push(c);
                assert(v@ + it.remaining() =~= s@);
            },
            None => {
                assert(v@ =~= s@);
                return v;
            },
        }
    }
}

// ---------------------------------------------------------------------------
// Decimal digits
// ---------------------------------------------------------------------------

pub open spec fn is_digit_char(c: char) -> bool {
    48 <= c as u32 && c as u32 <= 57
}

pub open spec fn digit_val(c: char) -> int {
    c as u32 - 48
}

pub open spec fn digit_char(d: int) -> char {
    if d == 0 {
        '0'
    } else if d == 1 {
        '1'
    } else if d == 2 {
        '2'
    } else if d == 3 {
        '3'
    } else if d == 4 {
        '4'
    } else if d == 5 {
        '5'
    } else if d == 6 {
        '6'
    } else if d == 7 {
        '7'
    } else if d == 8 {
        '8'
    } else {
        '9'
    }
}

/// The decimal rendering of a non-negative integer, most significant digit first.
pub open spec fn dec_str(n: int) -> Seq<char>
    decreases n,
    via dec_str_decreases
{
    if n < 0 {
        Seq::empty()
    } else if n < 10 {
        seq![digit_char(n)]
    } else {
        dec_str(n / 10).push(digit_char(n % 10))
    }
}

#[via_fn]
proof fn dec_str_decreases(n: int) {
    if n >= 10 {
        vstd::arithmetic::div_mod::lemma_div_pos_is_pos(n, 10);
        vstd::arithmetic::div_mod::lemma_div_is_strictly_smaller(n, 10);
    }
}

/// The numeric value of a digit string (0 for the empty string).
pub open spec fn dec_val(s: Seq<char>) -> int
    decreases s.len(),
{
    if s.len() == 0 {
        0
    } else {
        dec_val(s.drop_last()) * 10 + digit_val(s.last())
    }
}

/// A non-empty string of decimal digits.
pub open spec fn is_dec(s: Seq<char>) -> bool {
    s.len() > 0 && forall|i: int| 0 <= i < s.len() ==> is_digit_char(s[i])
}

/// What a numeric markup label denotes: the value of a digit string, if it
/// is one and fits in a byte.
pub open spec fn dec_u8_of(s: Seq<char>) -> Option<u8> {
    if is_dec(s) && dec_val(s) <= 255 {
        Some(dec_val(s) as u8)
    } else {
        None
    }
}

proof fn lemma_dec_str_digits(n: int)
    requires
        n >= 0,
    ensures
        is_dec(dec_str(n)),
        dec_val(dec_str(n)) == n,
    decreases n,
{
    if n < 10 {
        assert(dec_str(n) =~= seq![digit_char(n)]);
        assert(dec_str(n).drop_last() =~= Seq::<char>::empty());
        assert(dec_val(Seq::<char>::empty()) == 0);
        assert(dec_str(n).last() == digit_char(n));
        assert(digit_val(digit_char(n)) == n);
        assert(dec_val(dec_str(n)) == dec_val(dec_str(n).drop_last()) * 10 + digit_val(
            dec_str(n).last(),
        ));
    } else {
        vstd::arithmetic::div_mod::lemma_div_pos_is_pos(n, 10);
        vstd::arithmetic::div_mod::lemma_div_is_strictly_smaller(n, 10);
        lemma_dec_str_digits(n / 10);
        vstd::arithmetic::div_mod::lemma_fundamental_div_mod(n, 10);
        let s = dec_str(n / 10);
        let d = n % 10;
        assert(0 <= d < 10);
        assert(dec_str(n) == s.push(digit_char(d)));
        assert(s.push(digit_char(d)).drop_last() =~= s);
        assert(digit_val(digit_char(d)) == d);
        assert(dec_val(dec_str(n)) == dec_val(s) * 10 + d);
        assert(forall|i: int|
            0 <= i < s.push(digit_char(d)).len() ==> is_digit_char(s.push(digit_char(d))[i]));
    }
}

/// Rendering a number in decimal and reading the digits back yields the
/// same number: labels round-trip through markup.
pub proof fn lemma_dec_round_trip(n: u8)
    ensures
        dec_u8_of(dec_str(n as int)) == Some(n),
{
    lemma_dec_str_digits(n as int);
}

fn digit_to_char(d: u16) -> (c: char)
    requires
        d < 10,
    ensures
        c == digit_char(d as int),
{
    match d {
        0 => '0',
        1 => '1',
        2 => '2',
        3 => '3',
        4 => '4',
        5 => '5',
        6 => '6',
        7 => '7',
        8 => '8',
        _ => '9',
    }
}

/// Appends the decimal rendering of `n` to `out`.
pub fn push_u16_dec(n: u16, out: &mut String)
    ensures
        final(out)@ == old(out)@ + dec_str(n as int),
    decreases n,
{
    if n >= 10 {
        proof {
            vstd::arithmetic::div_mod::lemma_div_pos_is_pos(n as int, 10);
            vstd::arithmetic::div_mod::lemma_div_is_strictly_smaller(n as int, 10);
        }
        push_u16_dec(n / 10, out);
        push_char(out, digit_to_char(n % 10));
        assert(final(out)@ =~= old(out)@ + dec_str(n as int));
    } else {
        push_char(out, digit_to_char(n));
        assert(final(out)@ =~= old(out)@ + dec_str(n as int));
    }
}

/// The decimal rendering of `n`, zero-padded on the left to at least three
/// digits, as song numbers appear in formatted titles.
pub open spec fn dec3(n: int) -> Seq<char> {
    if 0 <= n < 10 {
        seq!['0', '0'] + dec_str(n)
    } else if 10 <= n < 100 {
        seq!['0'] + dec_str(n)
    } else {
        dec_str(n)
    }
}

/// Appends the three-digit zero-padded decimal rendering of `n` to `out`.
pub fn push_u16_dec3(n: u16, out: &mut String)
    ensures
        final(out)@ == old(out)@ + dec3(n as int),
{
    if n < 10 {
        push_char(out, '0');
        push_char(out, '0');
    } else if n < 100 {
        push_char(out, '0');
    }
    push_u16_dec(n, out);
    assert(final(out)@ =~= old(out)@ + dec3(n as int));
}

proof fn lemma_dec_val_prefix_mono(s: Seq<char>, i: int, j: int)
    requires
        0 <= i <= j <= s.len(),
        forall|k: int| 0 <= k < s.len() ==> is_digit_char(s[k]),
        dec_val(s.subrange(0, i)) >= 0,
    ensures
        dec_val(s.subrange(0, j)) >= dec_val(s.subrange(0, i)),
    decreases j - i,
{
    if i < j {
        let p = s.subrange(0, j - 1);
        let q = s.subrange(0, j);
        assert(q.drop_last() =~= p);
        lemma_dec_val_prefix_mono(s, i, j - 1);
        assert(dec_val(q) == dec_val(p) * 10 + digit_val(q.last()));
        assert(digit_val(q.last()) >= 0);
        assert(dec_val(p) * 10 >= dec_val(p)) by {
            assert(dec_val(p) >= 0);
        }
    }
}

/// Reads a digit string as a byte value, exactly as `dec_u8_of` describes.
pub fn parse_u8_dec(v: &Vec<char>) -> (r: Option<u8>)
    ensures
        r == dec_u8_of(v@),
{
    if v.len() == 0 {
        return None;
    }
    let mut acc: u32 = 0;
    let mut i: usize = 0;
    while i < v.len()
        invariant
            0 < v@.len(),
            i <= v.len(),
            acc <= 255,
            forall|k: int| 0 <= k < i ==> is_digit_char(v@[k]),
            acc as int == dec_val(v@.subrange(0, i as int)),
        decreases v.len() - i,
    {
        let c = v[i];
        let u = c as u32;
        if u < 48 || u > 57 {
            assert(!is_digit_char(v@[i as int]));
            return None;
        }
        let d = u - 48;
        assert(c == v@[i as int]);
        assert(is_digit_char(v@[i as int]));
        assert(d as int == digit_val(v@[i as int]));
        let next = acc * 10 + d;
        proof {
            let p = v@.subrange(0, i as int);
            let q = v@.subrange(0, i as int + 1);
            assert(q.drop_last() =~= p);
            assert(dec_val(q) == dec_val(p) * 10 + digit_val(v@[i as int]));
        }
        if next > 255 {
            proof {
                let whole = v@.subrange(0, v@.len() as int);
                assert(whole =~= v@);
                if is_dec(v@) {
                    assert(dec_val(v@.subrange(0, i as int + 1)) > 255);
                    lemma_dec_val_prefix_mono(v@, i as int + 1, v@.len() as int);
                }
            }
            return None;
        }
        acc = next;
        i = i + 1;
    }
    proof {
        assert(v@.subrange(0, v@.len() as int) =~= v@);
    }
    Some(acc as u8)
}

// ---------------------------------------------------------------------------
// Whitespace trimming
// ---------------------------------------------------------------------------

pub open spec fn trim_front(s: Seq<char>) -> Seq<char>
    decreases s.len(),
{
    if s.len() > 0 && is_ws_char(s[0]) {
        trim_front(s.drop_first())
    } else {
        s
    }
}

pub open spec fn trim_back(s: Seq<char>) -> Seq<char>
    decreases s.len(),
{
    if s.len() > 0 && is_ws_char(s.last()) {
        trim_back(s.drop_last())
    } else {
        s
    }
}

/// `s` without leading and trailing whitespace.
pub open spec fn trim_chars(s: Seq<char>) -> Seq<char> {
    trim_back(trim_front(s))
}

/// `s` carries no whitespace at either edge (trimming would not change it).
pub open spec fn no_edge_ws(s: Seq<char>) -> bool {
    s.len() > 0 ==> !is_ws_char(s[0]) && !is_ws_char(s.last())
}

proof fn lemma_trim_front_at(s: Seq<char>, a: int)
    requires
        0 <= a <= s.len(),
        forall|k: int| 0 <= k < a ==> is_ws_char(s[k]),
        a < s.len() ==> !is_ws_char(s[a]),
    ensures
        trim_front(s) == s.subrange(a, s.len() as int),
    decreases a,
{
    if a == 0 {
        assert(s.subrange(0, s.len() as int) =~= s);
    } else {
        let t = s.drop_first();
        lemma_trim_front_at(t, a - 1);
        assert(t.subrange(a - 1, t.len() as int) =~= s.subrange(a, s.len() as int));
    }
}

proof fn lemma_trim_back_at(s: Seq<char>, b: int)
    requires
        0 <= b <= s.len(),
        forall|k: int| b <= k < s.len() ==> is_ws_char(s[k]),
        b > 0 ==> !is_ws_char(s[b - 1]),
    ensures
        trim_back(s) == s.subrange(0, b),
    decreases s.len(),
{
    if b == s.len() {
        if s.len() > 0 && is_ws_char(s.last()) {
            assert(!is_ws_char(s[b - 1]));
            assert(false);
        }
        assert(s.subrange(0, b) =~= s);
    } else {
        let t = s.drop_last();
        lemma_trim_back_at(t, b);
        assert(t.subrange(0, b) =~= s.subrange(0, b));
    }
}

/// Trimming a string that has no whitespace at its edges returns it unchanged.
pub proof fn lemma_trim_no_edge_ws(s: Seq<char>)
    requires
        no_edge_ws(s),
    ensures
        trim_chars(s) == s,
{
    lemma_trim_front_at(s, 0);
    assert(s.subrange(0, s.len() as int) =~= s);
    lemma_trim_back_at(s, s.len() as int);
}

/// Removes leading and trailing whitespace, exactly as `trim_chars` describes.
pub fn trim_vec(v: &Vec<char>) -> (r: Vec<char>)
    ensures
        r@ == trim_chars(v@),
{
    let n = v.len();
    let mut a: usize = 0;
    while a < n && is_ws(v[a])
        invariant
            a <= n,
            n == v@.len(),
            forall|k: int| 0 <= k < a ==> is_ws_char(v@[k]),
        decreases n - a,
    {
        a = a + 1;
    }
    let mut b: usize = n;
    while b > a && is_ws(v[b - 1])
        invariant
            a <= b <= n,
            n == v@.len(),
            forall|k: int| b <= k < n ==> is_ws_char(v@[k]),
        decreases b,
    {
        b = b - 1;
    }
    proof {
        lemma_trim_front_at(v@, a as int);
        let t = v@.subrange(a as int, n as int);
        lemma_trim_back_at(t, b as int - a as int);
        assert(t.subrange(0, b as int - a as int) =~= v@.subrange(a as int, b as int));
    }
    let mut out: Vec<char> = Vec::new();
    let mut i: usize = a;
    while i < b
        invariant
            a <= i <= b <= n,
            n == v@.len(),
            out@ == v@.subrange(a as int, i as int),
        decreases b - i,
    {
        out.push(v[i]);
        i = i + 1;
        assert(out@ =~= v@.subrange(a as int, i as int));
    }
    out
}

// ---------------------------------------------------------------------------
// Substring matching
// ---------------------------------------------------------------------------

/// `pat` occurs in `s` starting at position `i`.
pub open spec fn matches_at(s: Seq<char>, i: int, pat: Seq<char>) -> bool {
    0 <= i && i + pat.len() <= s.len() && s.subrange(i, i + pat.len()) == pat
}

/// `needle` occurs somewhere in `hay`.
pub open spec fn contains_seq(hay: Seq<char>, needle: Seq<char>) -> bool {
    exists|i: int| matches_at(hay, i, needle)
}

/// Whether `pat` occurs in `v` at position `i`.
pub fn has_at(v: &Vec<char>, i: usize, pat: &[char]) -> (r: bool)
    requires
        i <= v.len(),
    ensures
        r == matches_at(v@, i as int, pat@),
{
    let m = pat.len();
    if v.len() - i < m {
        return false;
    }
    let mut k: usize = 0;
    while k < m
        invariant
            k <= m,
            m == pat@.len(),
            i + m <= v@.len() <= usize::MAX,
            forall|j: int| 0 <= j < k ==> v@[i + j] == pat@[j],
        decreases m - k,
    {
        if v[i + k] != pat[k] {
            proof {
                let sub = v@.subrange(i as int, i as int + m as int);
                assert(sub[k as int] == v@[i + k]);
            }
            return false;
        }
        k = k + 1;
    }
    proof {
        assert(v@.subrange(i as int, i as int + m as int) =~= pat@);
    }
    true
}

/// Naive substring search, exactly as `contains_seq` describes.
pub fn contains_chars(hay: &Vec<char>, needle: &Vec<char>) -> (r: bool)
    ensures
        r == contains_seq(hay@, needle@),
{
    let m = needle.len();
    if m > hay.len() {
        assert(forall|i: int| !matches_at(hay@, i, needle@));
        return false;
    }
    if m == 0 {
        assert(matches_at(hay@, 0, needle@)) by {
            assert(hay@.subrange(0, 0) =~= needle@);
        }
        return true;
    }
    let mut i: usize = 0;
    while hay.len() - i >= m
        invariant
            m == needle@.len(),
            1 <= m <= hay@.len() <= usize::MAX,
            i <= hay@.len() - m + 1,
            forall|j: int| 0 <= j < i ==> !matches_at(hay@, j, needle@),
        decreases hay@.len() - i,
    {
        if has_at(hay, i, needle.as_slice()) {
            return true;
        }
        i = i + 1;
    }
    assert(forall|j: int| !matches_at(hay@, j, needle@)) by {
        assert(forall|j: int| #[trigger] matches_at(hay@, j, needle@) ==> 0 <= j < i);
    }
    false
}

} // verus!
