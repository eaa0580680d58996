use rustlp::{Book, Lyrics, Song, Verse, VerseType};

fn song_with_types(types: &[VerseType]) -> Song {
    let entries = types
        .iter()
        .enumerate()
        .map(|(i, t)| (Verse::new(*t, (i + 1) as u8), format!("text{}", i)))
        .collect();
    Song {
        id: 1,
        title: String::from("Song"),
        lyrics: Lyrics(entries),
        book: None,
        number: None,
        current: 0,
    }
}

#[test]
fn next_walks_to_last_and_stops() {
    let mut s = song_with_types(&[VerseType::Verse; 4]);
    for expected in [1, 2, 3] {
        s.set_next();
        assert_eq!(s.current, expected);
    }
    s.set_next();
    assert_eq!(s.current, 3);
    s.set_next();
    assert_eq!(s.current, 3);
}

#[test]
fn previous_floors_at_first_verse() {
    let mut s = song_with_types(&[VerseType::Verse; 3]);
    s.set_current(2);
    s.set_previous();
    assert_eq!(s.current, 1);
    s.set_previous();
    assert_eq!(s.current, 0);
    s.set_previous();
    assert_eq!(s.current, 0);
}

#[test]
fn set_current_out_of_range_is_a_no_op() {
    let mut s = song_with_types(&[VerseType::Verse; 3]);
    s.set_current(1);
    assert_eq!(s.current, 1);
    s.set_current(3);
    assert_eq!(s.current, 1);
    s.set_current(2);
    assert_eq!(s.current, 2);
}

#[test]
fn next_chorus_wraps_when_no_forward_match() {
    let mut s = song_with_types(&[
        VerseType::Verse,
        VerseType::Chorus,
        VerseType::Verse,
        VerseType::Chorus,
    ]);
    s.set_current(3);
    s.set_next_chorus();
    assert_eq!(s.current, 1);
}

#[test]
fn next_chorus_prefers_forward_match() {
    let mut s = song_with_types(&[
        VerseType::Verse,
        VerseType::Chorus,
        VerseType::Verse,
        VerseType::Chorus,
    ]);
    s.set_next_chorus();
    assert_eq!(s.current, 1);
    s.set_next_chorus();
    assert_eq!(s.current, 3);
}

#[test]
fn next_verse_jumps_over_other_types() {
    let mut s = song_with_types(&[
        VerseType::Verse,
        VerseType::Chorus,
        VerseType::Bridge,
        VerseType::Verse,
    ]);
    s.set_next_verse();
    assert_eq!(s.current, 3);
}

#[test]
fn next_of_absent_type_stays_put() {
    let mut s = song_with_types(&[VerseType::Verse, VerseType::Chorus]);
    s.set_current(1);
    s.set_next_type(VerseType::Bridge);
    assert_eq!(s.current, 1);
}

#[test]
fn empty_song_navigation_never_errors() {
    let mut s = Song::from_storage_row(7, String::from("Empty"), "", None, None).unwrap();
    assert_eq!(s.current_text(), "");
    s.set_next();
    s.set_previous();
    s.set_next_chorus();
    s.set_next_verse();
    s.set_current(0);
    assert_eq!(s.current, 0);
    assert_eq!(s.current_text(), "");
    assert_eq!(s.get(0), "");
}

#[test]
fn get_and_current_text_read_the_cursor() {
    let mut s = song_with_types(&[VerseType::Verse, VerseType::Chorus]);
    assert_eq!(s.current_text(), "text0");
    s.set_next();
    assert_eq!(s.current_text(), "text1");
    assert_eq!(s.get(0), "text0");
    assert_eq!(s.get(5), "");
    assert_eq!(s.lyrics.get(1), "text1");
    assert_eq!(s.lyrics.len(), 2);
}

#[test]
fn from_storage_row_builds_a_song_at_the_first_verse() {
    let s = Song::from_storage_row(
        3,
        String::from("Title"),
        "<verse type=\"v\" label=\"1\">AAA</verse>",
        Some(1),
        Some(12),
    )
    .unwrap();
    assert_eq!(s.id, 3);
    assert_eq!(s.title, "Title");
    assert_eq!(s.book, Some(1));
    assert_eq!(s.number, Some(12));
    assert_eq!(s.current, 0);
    assert_eq!(s.current_text(), "AAA");
}

#[test]
fn from_storage_row_fails_on_malformed_markup() {
    assert!(Song::from_storage_row(3, String::from("T"), "<verse", None, None).is_err());
}

#[test]
fn title_formats_book_and_padded_number() {
    let books = vec![
        Book { id: 1, name: String::from("JEM") },
        Book { id: 2, name: String::from("ATG") },
    ];
    let mut s = song_with_types(&[VerseType::Verse]);
    s.book = Some(1);
    s.number = Some(7);
    s.title = String::from("Amazing");
    assert_eq!(s.book(&books), "JEM");
    assert_eq!(s.title(&books), "JEM 007  Amazing");
    s.number = Some(123);
    assert_eq!(s.title(&books), "JEM 123  Amazing");
    s.number = None;
    assert_eq!(s.title(&books), "JEM  Amazing");
    s.book = None;
    s.number = Some(45);
    assert_eq!(s.title(&books), "045  Amazing");
    s.number = None;
    assert_eq!(s.title(&books), "Amazing");
}
