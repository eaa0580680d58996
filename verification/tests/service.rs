use rustlp::{Content, Lyrics, NavOp, Service, Song, Sort, Status, Verse, VerseType};

fn song(id: u16, title: &str) -> Song {
    Song {
        id,
        title: String::from(title),
        lyrics: Lyrics(vec![
            (Verse::new(VerseType::Verse, 1), String::from("one")),
            (Verse::new(VerseType::Chorus, 1), String::from("two")),
        ]),
        book: None,
        number: None,
        current: 0,
    }
}

#[test]
fn new_service_is_empty_and_dark() {
    let s = Service::new();
    assert_eq!(s.current_song_index(), None);
    assert!(s.current_song(Content::Direct).is_none());
    assert!(s.current_song(Content::Preview).is_none());
    assert_eq!(s.mode(Content::Preview), Status::DarkScreen);
    assert_eq!(s.mode(Content::Direct), Status::DarkScreen);
}

#[test]
fn append_none_leaves_length_unchanged() {
    let mut s = Service::new();
    s.push_maybe(Some(song(1, "a")));
    s.push_maybe(None);
    let songs = s.into_songs();
    assert_eq!(songs.len(), 1);
}

#[test]
fn append_some_appends_at_the_end() {
    let mut s = Service::new();
    s.push_maybe(Some(song(1, "a")));
    s.push_maybe(Some(song(2, "b")));
    let songs = s.into_songs();
    assert_eq!(songs.len(), 2);
    assert_eq!(songs[0].id, 1);
    assert_eq!(songs[1].id, 2);
}

#[test]
fn select_out_of_bounds_is_a_no_op() {
    let mut s = Service::new();
    s.push_maybe(Some(song(1, "a")));
    s.push_maybe(Some(song(2, "b")));
    s.set_current_song(1);
    assert_eq!(s.current_song_index(), Some(1));
    s.set_current_song(2);
    assert_eq!(s.current_song_index(), Some(1));
    s.set_current_song(0);
    assert_eq!(s.current_song_index(), Some(0));
}

#[test]
fn direct_shows_the_selected_entry_once_promoted() {
    let mut s = Service::new();
    assert!(s.current_song(Content::Direct).is_none());
    s.set_current_song(5);
    assert!(s.current_song(Content::Direct).is_none());
    s.add(Some(song(1, "a")), Content::Direct);
    s.add(Some(song(2, "b")), Content::Direct);
    assert_eq!(s.current_song(Content::Direct).unwrap().id, 1);
    s.set_current_song(1);
    assert_eq!(s.current_song(Content::Direct).unwrap().id, 2);
}

#[test]
fn preview_load_does_not_touch_the_set_list() {
    let mut s = Service::new();
    s.add(Some(song(9, "staged")), Content::Preview);
    assert_eq!(s.current_song(Content::Preview).unwrap().id, 9);
    assert!(s.current_song(Content::Direct).is_none());
    assert_eq!(s.current_song_index(), None);
    s.add(None, Content::Preview);
    assert!(s.current_song(Content::Preview).is_none());
}

#[test]
fn change_navigates_the_addressed_song_only() {
    let mut s = Service::new();
    s.add(Some(song(1, "direct")), Content::Direct);
    s.add(Some(song(2, "preview")), Content::Preview);
    s.change(Content::Direct, NavOp::Next);
    assert_eq!(s.current_song(Content::Direct).unwrap().current, 1);
    assert_eq!(s.current_song(Content::Preview).unwrap().current, 0);
    s.change(Content::Preview, NavOp::NextChorus);
    assert_eq!(s.current_song(Content::Preview).unwrap().current, 1);
    s.change(Content::Direct, NavOp::SetCurrent(0));
    assert_eq!(s.current_song(Content::Direct).unwrap().current, 0);
}

#[test]
fn change_on_an_empty_channel_is_a_no_op() {
    let mut s = Service::new();
    s.change(Content::Direct, NavOp::Next);
    s.change(Content::Preview, NavOp::Previous);
    assert!(s.current_song(Content::Direct).is_none());
    assert!(s.current_song(Content::Preview).is_none());
}

#[test]
fn moving_a_song_copies_it_so_cursors_stay_independent() {
    let mut s = Service::new();
    let original = song(1, "a");
    s.add(Some(original.clone()), Content::Preview);
    s.add(Some(original.clone()), Content::Direct);
    s.change(Content::Direct, NavOp::Next);
    assert_eq!(s.current_song(Content::Direct).unwrap().current, 1);
    assert_eq!(s.current_song(Content::Preview).unwrap().current, 0);
    assert_eq!(original.current, 0);
}

#[test]
fn current_song_mut_borrows_the_addressed_song() {
    let mut s = Service::new();
    s.add(Some(song(1, "a")), Content::Direct);
    if let Some(song) = s.current_song_mut(Content::Direct) {
        song.set_next();
    }
    assert_eq!(s.current_song(Content::Direct).unwrap().current, 1);
    let mut empty = Service::new();
    assert!(empty.current_song_mut(Content::Direct).is_none());
    assert!(empty.current_song_mut(Content::Preview).is_none());
}

#[test]
fn set_mode_overwrites_one_channel() {
    let mut s = Service::new();
    s.set_mode(Content::Direct, Status::WhiteScreen);
    assert_eq!(s.mode(Content::Direct), Status::WhiteScreen);
    assert_eq!(s.mode(Content::Preview), Status::DarkScreen);
    s.set_mode(Content::Preview, Status::Song);
    assert_eq!(s.mode(Content::Preview), Status::Song);
    assert_eq!(s.mode(Content::Direct), Status::WhiteScreen);
}

#[test]
fn service_from_songs_starts_at_the_first_entry() {
    let s = Service::from(vec![song(1, "a"), song(2, "b")]);
    assert_eq!(s.current_song_index(), Some(0));
    assert_eq!(s.current_song(Content::Direct).unwrap().id, 1);
    assert!(s.current_song(Content::Preview).is_none());
    let d = Service::default();
    assert_eq!(d.current_song_index(), None);
}

#[test]
fn sort_orders_are_enumerable() {
    assert_eq!(Sort::all(), vec![Sort::Default, Sort::Title, Sort::Songbook, Sort::Author]);
}
