//! The song content model: typed, labelled verse records kept in document
//! order, and a `Song` whose cursor navigates them. All cursor operations
//! are total: an inapplicable request leaves the cursor where it is.

use vstd::prelude::*;
use vstd::string::StringExecFns;
use crate::text::{dec_str, dec3, push_char, push_u16_dec3};

verus! {

/// A verse type, encoded in markup by a single-letter code.
#[derive(Debug, Clone, Copy, PartialEq, Eq, Structural)]
pub enum VerseType {
    Intro,
    Verse,
    PreChorus,
    Chorus,
    Bridge,
    End,
    Other,
}

impl VerseType {
    pub open spec fn spec_code(&self) -> char {
        match self {
            VerseType::Intro => 'i',
            VerseType::Verse => 'v',
            VerseType::PreChorus => 'p',
            VerseType::Chorus => 'c',
            VerseType::Bridge => 'b',
            VerseType::End => 'e',
            VerseType::Other => 'o',
        }
    }

    /// The lower-case code letter that identifies this type in markup.
    pub fn code(&self) -> (c: char)
        ensures
            c == self.spec_code(),
    {
        match self {
            VerseType::Intro => 'i',
            VerseType::Verse => 'v',
            VerseType::PreChorus => 'p',
            VerseType::Chorus => 'c',
            VerseType::Bridge => 'b',
            VerseType::End => 'e',
            VerseType::Other => 'o',
        }
    }

    pub open spec fn spec_from_code(c: char) -> Option<VerseType> {
        if c == 'i' {
            Some(VerseType::Intro)
        } else if c == 'v' {
            Some(VerseType::Verse)
        } else if c == 'p' {
            Some(VerseType::PreChorus)
        } else if c == 'c' {
            Some(VerseType::Chorus)
        } else if c == 'b' {
            Some(VerseType::Bridge)
        } else if c == 'e' {
            Some(VerseType::End)
        } else if c == 'o' {
            Some(VerseType::Other)
        } else {
            None
        }
    }

    /// The type whose markup code is `c`, if `c` is a known code letter.
    pub fn from_code(c: char) -> (r: Option<VerseType>)
        ensures
            r == Self::spec_from_code(c),
    {
        match c {
            'i' => Some(VerseType::Intro),
            'v' => Some(VerseType::Verse),
            'p' => Some(VerseType::PreChorus),
            'c' => Some(VerseType::Chorus),
            'b' => Some(VerseType::Bridge),
            'e' => Some(VerseType::End),
            'o' => Some(VerseType::Other),
            _ => None,
        }
    }

    pub open spec fn spec_letter(&self) -> char {
        match self {
            VerseType::Intro => 'I',
            VerseType::Verse => 'V',
            VerseType::PreChorus => 'P',
            VerseType::Chorus => 'C',
            VerseType::Bridge => 'B',
            VerseType::End => 'E',
            VerseType::Other => 'O',
        }
    }

    /// The upper-case display letter of this type, as shown beside a verse.
    pub fn letter(&self) -> (c: char)
        ensures
            c == self.spec_letter(),
    {
        match self {
            VerseType::Intro => 'I',
            VerseType::Verse => 'V',
            VerseType::PreChorus => 'P',
            VerseType::Chorus => 'C',
            VerseType::Bridge => 'B',
            VerseType::End => 'E',
            VerseType::Other => 'O',
        }
    }
}

/// Every verse type round-trips through its markup code letter.
pub proof fn lemma_code_round_trip(t: VerseType)
    ensures
        VerseType::spec_from_code(t.spec_code()) == Some(t),
{
}

/// A verse heading: its type and the small number that distinguishes verses
/// of the same type.
#[derive(Debug, Clone, Copy, PartialEq, Eq, Structural)]
pub struct Verse(pub VerseType, pub u8);

impl Verse {
    pub fn new(versetype: VerseType, nb: u8) -> (v: Verse)
        ensures
            v.0 == versetype,
            v.1 == nb,
    {
        Verse(versetype, nb)
    }

    /// The display tag of this verse heading, e.g. `V1` for the first verse.
    pub fn tag(&self) -> (s: String)
        ensures
            s@ == seq![self.0.spec_letter()] + dec_str(self.1 as int),
    {
        let mut s = String::new();
        push_char(&mut s, self.0.letter());
        crate::text::push_u16_dec(self.1 as u16, &mut s);
        assert(s@ =~= seq![self.0.spec_letter()] + dec_str(self.1 as int));
        s
    }
}

/// The ordered sequence of verse records of one song, in document order.
/// The order is significant and is never re-sorted after parsing.
#[derive(Debug, Clone, PartialEq, Eq)]
pub struct Lyrics(pub Vec<(Verse, String)>);

impl View for Lyrics {
    type V = Seq<(Verse, Seq<char>)>;

    open spec fn view(&self) -> Seq<(Verse, Seq<char>)> {
        Seq::new(self.0@.len(), |i: int| (self.0@[i].0, self.0@[i].1@))
    }
}

impl Lyrics {
    pub fn len(&self) -> (n: usize)
        ensures
            n == self@.len(),
    {
        self.0.len()
    }

    /// The verse body at `index`, or the empty string when `index` is out of
    /// range (in particular when the lyrics are empty).
    pub fn get(&self, index: usize) -> (r: String)
        ensures
            r@ == if index < self@.len() {
                self@[index as int].1
            } else {
                Seq::<char>::empty()
            },
    {
        if index < self.0.len() {
            self.0[index].1.clone()
        } else {
            String::new()
        }
    }
}

/// The first index in `[lo, hi)` whose record has type `t`, scanning forward.
pub open spec fn first_of_type(
    l: Seq<(Verse, Seq<char>)>,
    lo: int,
    hi: int,
    t: VerseType,
) -> Option<int>
    decreases hi - lo,
{
    if lo < 0 || lo >= hi || hi > l.len() {
        None
    } else if l[lo].0.0 == t {
        Some(lo)
    } else {
        first_of_type(l, lo + 1, hi, t)
    }
}

/// Where the cursor lands when jumping to the next record of type `t`:
/// the first match strictly after `cur`; failing that, the first match
/// before `cur` (wraparound); failing that, `cur` itself.
pub open spec fn next_type_cursor(
    l: Seq<(Verse, Seq<char>)>,
    cur: int,
    t: VerseType,
) -> int {
    match first_of_type(l, cur + 1, l.len() as int, t) {
        Some(i) => i,
        None => match first_of_type(l, 0, cur, t) {
            Some(i) => i,
            None => cur,
        },
    }
}

pub open spec fn next_cursor(cur: int, len: int) -> int {
    if cur + 1 < len {
        cur + 1
    } else {
        cur
    }
}

pub open spec fn prev_cursor(cur: int) -> int {
    if cur > 0 {
        cur - 1
    } else {
        cur
    }
}

pub open spec fn select_cursor(cur: int, idx: int, len: int) -> int {
    if idx < len {
        idx
    } else {
        cur
    }
}

/// A songbook: an identifier and a display name.
#[derive(Debug, Clone)]
pub struct Book {
    pub id: u16,
    pub name: String,
}

/// The first index in `books` (from `lo` on) whose book has identifier `id`.
pub open spec fn first_book_index(books: Seq<Book>, lo: int, id: u16) -> Option<int>
    decreases books.len() - lo,
{
    if lo < 0 || lo >= books.len() {
        None
    } else if books[lo].id == id {
        Some(lo)
    } else {
        first_book_index(books, lo + 1, id)
    }
}

pub open spec fn has_book(books: Seq<Book>, id: u16) -> bool {
    exists|i: int| 0 <= i < books.len() && books[i].id == id
}

/// The songbook name a song displays: the name of the first book whose
/// identifier matches the song's book reference, or nothing.
pub open spec fn spec_book_name(books: Seq<Book>, b: Option<u16>) -> Seq<char> {
    match b {
        None => Seq::empty(),
        Some(id) => match first_book_index(books, 0, id) {
            Some(i) => books[i].name@,
            None => Seq::empty(),
        },
    }
}

/// The formatted title: `BOOK NNN  Title` when songbook metadata is present,
/// plain `Title` otherwise. The number is zero-padded to three digits.
pub open spec fn spec_title(song: Song, books: Seq<Book>) -> Seq<char> {
    let b = spec_book_name(books, song.book);
    let bn = match song.number {
        Some(n) => (if b.len() > 0 {
            b + seq![' ']
        } else {
            b
        }) + dec3(n as int),
        None => b,
    };
    (if bn.len() > 0 {
        bn + seq![' ', ' ']
    } else {
        bn
    }) + song.title@
}

/// A song: metadata, parsed lyrics, and the navigation cursor.
#[derive(Debug, Clone, PartialEq, Eq)]
pub struct Song {
    pub id: u16,
    pub title: String,
    pub lyrics: Lyrics,
    pub book: Option<u16>,
    pub number: Option<u16>,
    pub current: usize,
}

impl Song {
    /// The cursor invariant: within bounds whenever the lyrics are
    /// non-empty, and pinned to zero otherwise.
    pub open spec fn wf(&self) -> bool {
        if self.lyrics@.len() == 0 {
            self.current == 0
        } else {
            self.current < self.lyrics@.len()
        }
    }

    /// Everything but the cursor is unchanged between `a` and `b`.
    pub open spec fn same_content(a: Song, b: Song) -> bool {
        &&& a.id == b.id
        &&& a.title == b.title
        &&& a.lyrics == b.lyrics
        &&& a.book == b.book
        &&& a.number == b.number
    }

    /// The name of the song's book in `books`, or the empty string when the
    /// song carries no book reference.
    pub fn book(&self, books: &Vec<Book>) -> (r: String)
        requires
            self.book matches Some(id) ==> has_book(books@, id),
        ensures
            r@ == spec_book_name(books@, self.book),
    {
        let id = match self.book {
            None => {
                return String::new();
            },
            Some(id) => id,
        };
        let mut i: usize = 0;
        while i < books.len()
            invariant
                i <= books@.len(),
                self.book == Some(id),
                first_book_index(books@, 0, id) == first_book_index(books@, i as int, id),
                forall|k: int| 0 <= k < i ==> books@[k].id != id,
            decreases books@.len() - i,
        {
            if books[i].id == id {
                proof {
                    assert(first_book_index(books@, i as int, id) == Some(i as int));
                }
                return books[i].name.clone();
            }
            i = i + 1;
        }
        assert(!has_book(books@, id));
        String::new()
    }

    /// The formatted display title, exactly as `spec_title` describes.
    pub fn title(&self, books: &Vec<Book>) -> (r: String)
        requires
            self.book matches Some(id) ==> has_book(books@, id),
        ensures
            r@ == spec_title(*self, books@),
    {
        let mut t = self.book(books);
        if let Some(n) = self.number {
            if !t.as_str().is_empty() {
                push_char(&mut t, ' ');
            }
            push_u16_dec3(n, &mut t);
        }
        if !t.as_str().is_empty() {
            push_char(&mut t, ' ');
            push_char(&mut t, ' ');
        }
        t.append(self.title.as_str());
        assert(t@ =~= spec_title(*self, books@));
        t
    }

    /// Selects verse `verse` iff it is in range; out-of-range requests are
    /// no-ops.
    pub fn set_current(&mut self, verse: usize)
        ensures
            Self::same_content(*old(self), *final(self)),
            final(self).current == select_cursor(
                old(self).current as int,
                verse as int,
                old(self).lyrics@.len() as int,
            ),
            old(self).wf() ==> final(self).wf(),
    {
        if verse < self.lyrics.0.len() {
            self.current = verse;
        }
    }

    /// Steps back one verse, flooring at the first.
    pub fn set_previous(&mut self)
        ensures
            Self::same_content(*old(self), *final(self)),
            final(self).current == prev_cursor(old(self).current as int),
            old(self).wf() ==> final(self).wf(),
    {
        if self.current > 0 {
            self.current = self.current - 1;
        }
    }

    /// Steps forward one verse, stopping at the last.
    pub fn set_next(&mut self)
        requires
            old(self).wf(),
        ensures
            Self::same_content(*old(self), *final(self)),
            final(self).current == next_cursor(
                old(self).current as int,
                old(self).lyrics@.len() as int,
            ),
            final(self).wf(),
    {
        let len = self.lyrics.0.len();
        assert(self.lyrics@.len() == len);
        if self.current < len && self.current + 1 < len {
            self.current = self.current + 1;
        }
    }

    /// Jumps to the next chorus, wrapping to an earlier one when no later
    /// chorus exists.
    pub fn set_next_chorus(&mut self)
        requires
            old(self).wf(),
        ensures
            Self::same_content(*old(self), *final(self)),
            final(self).current == next_type_cursor(
                old(self).lyrics@,
                old(self).current as int,
                VerseType::Chorus,
            ),
            final(self).wf(),
    {
        self.set_next_type(VerseType::Chorus);
    }

    /// Jumps to the next verse, wrapping to an earlier one when no later
    /// verse exists.
    pub fn set_next_verse(&mut self)
        requires
            old(self).wf(),
        ensures
            Self::same_content(*old(self), *final(self)),
            final(self).current == next_type_cursor(
                old(self).lyrics@,
                old(self).current as int,
                VerseType::Verse,
            ),
            final(self).wf(),
    {
        self.set_next_type(VerseType::Verse);
    }

    /// Jumps to the next record of type `vtype`: prefers the first match
    /// strictly after the cursor, wraps to the first match before it when no
    /// forward match exists, and stays put when the type does not occur.
    pub fn set_next_type(&mut self, vtype: VerseType)
        requires
            old(self).wf(),
        ensures
            Self::same_content(*old(self), *final(self)),
            final(self).current == next_type_cursor(
                old(self).lyrics@,
                old(self).current as int,
                vtype,
            ),
            final(self).wf(),
    {
        let ghost l = self.lyrics@;
        let ghost cur = self.current as int;
        let len = self.lyrics.0.len();
        assert(l.len() == len);
        if len == 0 {
            assert(first_of_type(l, cur + 1, len as int, vtype) is None);
            assert(first_of_type(l, 0, cur, vtype) is None);
            return;
        }
        let mut id: usize = self.current + 1;
        while id < len
            invariant
                cur + 1 <= id <= len,
                len == l.len(),
                l == self.lyrics@,
                cur == self.current as int,
                self == old(self),
                first_of_type(l, cur + 1, len as int, vtype) == first_of_type(
                    l,
                    id as int,
                    len as int,
                    vtype,
                ),
            decreases len - id,
        {
            if self.lyrics.0[id].0.0 == vtype {
                proof {
                    assert(l[id as int].0 == self.lyrics.0@[id as int].0);
                    assert(first_of_type(l, id as int, len as int, vtype) == Some(id as int));
                }
                self.current = id;
                return;
            }
            proof {
                assert(l[id as int].0 == self.lyrics.0@[id as int].0);
            }
            id = id + 1;
        }
        assert(first_of_type(l, cur + 1, len as int, vtype) is None);
        let mut id: usize = 0;
        while id < self.current
            invariant
                0 <= id <= cur,
                len == l.len(),
                l == self.lyrics@,
                cur == self.current as int,
                self == old(self),
                cur <= len,
                first_of_type(l, cur + 1, len as int, vtype) is None,
                first_of_type(l, 0, cur, vtype) == first_of_type(l, id as int, cur, vtype),
            decreases cur - id,
        {
            if self.lyrics.0[id].0.0 == vtype {
                proof {
                    assert(l[id as int].0 == self.lyrics.0@[id as int].0);
                    assert(first_of_type(l, id as int, cur, vtype) == Some(id as int));
                }
                self.current = id;
                return;
            }
            proof {
                assert(l[id as int].0 == self.lyrics.0@[id as int].0);
            }
            id = id + 1;
        }
        assert(first_of_type(l, 0, cur, vtype) is None);
    }

    /// Builds a song from one stored catalog row, parsing the lyrics markup.
    /// The cursor starts on the first verse; a malformed markup blob fails
    /// the whole load and leaves nothing behind.
    pub fn from_storage_row(
        id: u16,
        title: String,
        lyrics_markup: &str,
        book: Option<u16>,
        number: Option<u16>,
    ) -> (r: Result<Song, crate::parser::FormatError>)
        ensures
            match r {
                Ok(song) => {
                    &&& crate::parser::spec_parse(lyrics_markup@) == Ok::<_, int>(song.lyrics@)
                    &&& song.id == id
                    &&& song.title == title
                    &&& song.book == book
                    &&& song.number == number
                    &&& song.current == 0
                    &&& song.wf()
                },
                Err(e) => crate::parser::spec_parse(lyrics_markup@) == Err::<
                    Seq<(Verse, Seq<char>)>,
                    int,
                >(e.pos as int),
            },
    {
        match Lyrics::parse(lyrics_markup) {
            Ok(lyrics) => Ok(
                Song { id, title, lyrics, book, number, current: 0 },
            ),
            Err(e) => Err(e),
        }
    }

    /// Applies one navigation operation; inapplicable requests are no-ops.
    pub fn apply(&mut self, op: NavOp)
        requires
            old(self).wf(),
        ensures
            *final(self) == nav_applied(*old(self), op),
            final(self).wf(),
    {
        let ghost orig = *self;
        match op {
            NavOp::SetCurrent(idx) => self.set_current(idx),
            NavOp::Previous => self.set_previous(),
            NavOp::Next => self.set_next(),
            NavOp::NextChorus => self.set_next_chorus(),
            NavOp::NextVerse => self.set_next_verse(),
        }
        assert(*final(self) == nav_applied(orig, op));
    }

    /// The verse body at `index`, or the empty string when out of range.
    pub fn get(&self, index: usize) -> (r: String)
        ensures
            r@ == if index < self.lyrics@.len() {
                self.lyrics@[index as int].1
            } else {
                Seq::<char>::empty()
            },
    {
        self.lyrics.get(index)
    }

    /// The body of the verse under the cursor; the empty string when the
    /// song has no verses.
    pub fn current_text(&self) -> (r: String)
        ensures
            r@ == if self.lyrics@.len() > 0 && self.current < self.lyrics@.len() {
                self.lyrics@[self.current as int].1
            } else {
                Seq::<char>::empty()
            },
    {
        self.get(self.current)
    }
}

/// A cursor navigation operation, applied to whichever song a channel holds.
#[derive(Debug, Clone, Copy, PartialEq, Eq, Structural)]
pub enum NavOp {
    SetCurrent(usize),
    Previous,
    Next,
    NextChorus,
    NextVerse,
}

/// Where the cursor lands after one navigation operation.
pub open spec fn nav_cursor(l: Seq<(Verse, Seq<char>)>, cur: int, op: NavOp) -> int {
    match op {
        NavOp::SetCurrent(idx) => select_cursor(cur, idx as int, l.len() as int),
        NavOp::Previous => prev_cursor(cur),
        NavOp::Next => next_cursor(cur, l.len() as int),
        NavOp::NextChorus => next_type_cursor(l, cur, VerseType::Chorus),
        NavOp::NextVerse => next_type_cursor(l, cur, VerseType::Verse),
    }
}

/// The song after one navigation operation: only the cursor moves.
pub open spec fn nav_applied(song: Song, op: NavOp) -> Song {
    Song { current: nav_cursor(song.lyrics@, song.current as int, op) as usize, ..song }
}

// ---------------------------------------------------------------------------
// Navigation laws
// ---------------------------------------------------------------------------

/// The cursor after `k` forward steps from the first verse.
pub open spec fn iter_next_cursor(cur: int, len: int, k: nat) -> int
    decreases k,
{
    if k == 0 {
        cur
    } else {
        next_cursor(iter_next_cursor(cur, len, (k - 1) as nat), len)
    }
}

/// Stepping forward from the first verse visits each verse in turn and then
/// stays on the last one: `len - 1` steps reach the last verse, and any
/// further step is a no-op.
pub proof fn lemma_next_walks_to_last(len: int, k: nat)
    requires
        len > 0,
    ensures
        iter_next_cursor(0, len, k) == if k < len {
            k as int
        } else {
            len - 1
        },
    decreases k,
{
    if k > 0 {
        lemma_next_walks_to_last(len, (k - 1) as nat);
    }
}

/// Forward preference: when a record of type `t` exists strictly after the
/// cursor, the jump lands on the first such record and never wraps.
pub proof fn lemma_next_of_type_prefers_forward(
    l: Seq<(Verse, Seq<char>)>,
    cur: int,
    t: VerseType,
    w: int,
)
    requires
        0 <= cur < l.len(),
        cur < w < l.len(),
        l[w].0.0 == t,
    ensures
        cur < next_type_cursor(l, cur, t) < l.len(),
        l[next_type_cursor(l, cur, t)].0.0 == t,
        forall|j: int| cur < j < next_type_cursor(l, cur, t) ==> l[j].0.0 != t,
{
    lemma_first_of_type_finds(l, cur + 1, l.len() as int, t, w);
}

/// Wraparound: when no record of type `t` follows the cursor but one
/// precedes it, the jump lands on the first such record from the start.
pub proof fn lemma_next_of_type_wraps(l: Seq<(Verse, Seq<char>)>, cur: int, t: VerseType, w: int)
    requires
        0 <= cur < l.len(),
        0 <= w < cur,
        l[w].0.0 == t,
        forall|j: int| cur < j < l.len() ==> l[j].0.0 != t,
    ensures
        0 <= next_type_cursor(l, cur, t) < cur,
        l[next_type_cursor(l, cur, t)].0.0 == t,
        forall|j: int| 0 <= j < next_type_cursor(l, cur, t) ==> l[j].0.0 != t,
{
    lemma_first_of_type_none(l, cur + 1, l.len() as int, t);
    lemma_first_of_type_finds(l, 0, cur, t, w);
}

/// `first_of_type` returns the least matching index when a match exists.
proof fn lemma_first_of_type_finds(
    l: Seq<(Verse, Seq<char>)>,
    lo: int,
    hi: int,
    t: VerseType,
    w: int,
)
    requires
        0 <= lo <= w < hi <= l.len(),
        l[w].0.0 == t,
    ensures
        first_of_type(l, lo, hi, t) matches Some(i) && lo <= i <= w && l[i].0.0 == t && (forall|
            j: int,
        | lo <= j < i ==> l[j].0.0 != t),
    decreases w - lo,
{
    if l[lo].0.0 != t {
        lemma_first_of_type_finds(l, lo + 1, hi, t, w);
    }
}

/// `first_of_type` returns nothing when no index in range matches.
proof fn lemma_first_of_type_none(l: Seq<(Verse, Seq<char>)>, lo: int, hi: int, t: VerseType)
    requires
        forall|j: int| lo <= j < hi ==> 0 <= j < l.len() && l[j].0.0 != t,
    ensures
        first_of_type(l, lo, hi, t) is None,
    decreases hi - lo,
{
    if !(lo < 0 || lo >= hi || hi > l.len()) {
        lemma_first_of_type_none(l, lo + 1, hi, t);
    }
}

} // verus!
