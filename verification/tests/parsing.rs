use rustlp::{Lyrics, Verse, VerseType};

fn records(l: &Lyrics) -> Vec<(VerseType, u8, String)> {
    l.0.iter().map(|(v, t)| (v.0, v.1, t.clone())).collect()
}

#[test]
fn empty_input_is_empty_lyrics() {
    let l = Lyrics::parse("").unwrap();
    assert_eq!(l.0.len(), 0);
}

#[test]
fn round_trip_two_verses() {
    let l = Lyrics::parse(
        "<verse type=\"v\" label=\"1\">AAA</verse><verse type=\"c\" label=\"1\">BBB</verse>",
    )
    .unwrap();
    assert_eq!(
        records(&l),
        vec![
            (VerseType::Verse, 1, String::from("AAA")),
            (VerseType::Chorus, 1, String::from("BBB")),
        ]
    );
}

#[test]
fn document_order_is_preserved() {
    let l = Lyrics::parse(
        "<verse type=\"i\" label=\"1\">first</verse>\
         <verse type=\"v\" label=\"2\">second</verse>\
         <verse type=\"e\" label=\"3\">third</verse>",
    )
    .unwrap();
    assert_eq!(
        records(&l),
        vec![
            (VerseType::Intro, 1, String::from("first")),
            (VerseType::Verse, 2, String::from("second")),
            (VerseType::End, 3, String::from("third")),
        ]
    );
}

#[test]
fn cdata_body_is_taken_verbatim() {
    let l = Lyrics::parse("<verse type=\"v\" label=\"2\"><![CDATA[x < y & z]]></verse>").unwrap();
    assert_eq!(records(&l), vec![(VerseType::Verse, 2, String::from("x < y & z"))]);
}

#[test]
fn entities_are_unescaped() {
    let l = Lyrics::parse("<verse type=\"b\" label=\"1\">a&lt;b&amp;c&gt;d&quot;e&apos;f</verse>")
        .unwrap();
    assert_eq!(records(&l), vec![(VerseType::Bridge, 1, String::from("a<b&c>d\"e'f"))]);
}

#[test]
fn empty_body_is_valid() {
    let l = Lyrics::parse("<verse type=\"v\" label=\"1\"></verse>").unwrap();
    assert_eq!(records(&l), vec![(VerseType::Verse, 1, String::new())]);
}

#[test]
fn self_closing_verse_has_empty_body() {
    let l = Lyrics::parse("<verse type=\"p\" label=\"3\"/>").unwrap();
    assert_eq!(records(&l), vec![(VerseType::PreChorus, 3, String::new())]);
}

#[test]
fn unknown_attribute_is_ignored() {
    let l = Lyrics::parse("<verse type=\"o\" label=\"4\" style=\"bold\">T</verse>").unwrap();
    assert_eq!(records(&l), vec![(VerseType::Other, 4, String::from("T"))]);
}

#[test]
fn unknown_type_code_defaults_to_other() {
    let l = Lyrics::parse("<verse type=\"x\" label=\"1\">T</verse>").unwrap();
    assert_eq!(records(&l), vec![(VerseType::Other, 1, String::from("T"))]);
}

#[test]
fn missing_attributes_take_defaults() {
    let l = Lyrics::parse("<verse>T</verse>").unwrap();
    assert_eq!(records(&l), vec![(VerseType::Other, 0, String::from("T"))]);
}

#[test]
fn duplicate_headings_are_kept_in_order() {
    let l = Lyrics::parse(
        "<verse type=\"v\" label=\"1\">one</verse><verse type=\"v\" label=\"1\">two</verse>",
    )
    .unwrap();
    assert_eq!(
        records(&l),
        vec![
            (VerseType::Verse, 1, String::from("one")),
            (VerseType::Verse, 1, String::from("two")),
        ]
    );
}

#[test]
fn body_whitespace_is_trimmed() {
    let l = Lyrics::parse("<verse type=\"v\" label=\"1\">  A B\n</verse>").unwrap();
    assert_eq!(records(&l), vec![(VerseType::Verse, 1, String::from("A B"))]);
}

#[test]
fn other_tags_and_text_outside_verses_are_skipped() {
    let l = Lyrics::parse("<song>\nhello\n<verse type=\"v\" label=\"1\">A</verse>\n</song>")
        .unwrap();
    assert_eq!(records(&l), vec![(VerseType::Verse, 1, String::from("A"))]);
}

#[test]
fn label_up_to_255_is_accepted() {
    let l = Lyrics::parse("<verse type=\"v\" label=\"255\">A</verse>").unwrap();
    assert_eq!(records(&l), vec![(VerseType::Verse, 255, String::from("A"))]);
}

#[test]
fn invalid_label_is_an_error_with_position() {
    let e = Lyrics::parse("<verse label=\"abc\">x</verse>").unwrap_err();
    assert_eq!(e.pos, 14);
    let e = Lyrics::parse("<verse label=\"256\">x</verse>").unwrap_err();
    assert_eq!(e.pos, 14);
    assert!(Lyrics::parse("<verse label=\"\">x</verse>").is_err());
}

#[test]
fn unterminated_verse_is_an_error() {
    let e = Lyrics::parse("<verse type=\"v\" label=\"1\">AAA").unwrap_err();
    assert_eq!(e.pos, 29);
}

#[test]
fn unterminated_tag_is_an_error() {
    let e = Lyrics::parse("<foo").unwrap_err();
    assert_eq!(e.pos, 0);
}

#[test]
fn unterminated_cdata_is_an_error() {
    assert!(Lyrics::parse("<verse type=\"v\" label=\"1\"><![CDATA[abc</verse>").is_err());
}

#[test]
fn stray_markup_inside_body_is_an_error() {
    assert!(Lyrics::parse("<verse type=\"v\" label=\"1\">a<b>c</verse>").is_err());
    assert!(Lyrics::parse("<verse type=\"v\" label=\"1\">a&zz;</verse>").is_err());
}

#[test]
fn verse_codes_round_trip() {
    for (c, t) in [
        ('i', VerseType::Intro),
        ('v', VerseType::Verse),
        ('p', VerseType::PreChorus),
        ('c', VerseType::Chorus),
        ('b', VerseType::Bridge),
        ('e', VerseType::End),
        ('o', VerseType::Other),
    ] {
        assert_eq!(VerseType::from_code(c), Some(t));
        assert_eq!(t.code(), c);
    }
    assert_eq!(VerseType::from_code('q'), None);
}

#[test]
fn verse_tag_is_letter_and_number() {
    assert_eq!(Verse::new(VerseType::Verse, 1).tag(), "V1");
    assert_eq!(Verse::new(VerseType::Chorus, 12).tag(), "C12");
    assert_eq!(Verse::new(VerseType::Other, 0).tag(), "O0");
}
