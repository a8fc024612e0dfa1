use songbook::{Beat, Block, Chord, ChordPosition, Line, Row, Song};

fn chord(s: &str) -> Chord {
    Chord::new(s).unwrap()
}

fn strings(r: &Row) -> (String, String, String) {
    r.get_strings()
}

#[test]
fn text_only_row() {
    let r = Row { rhythm: None, chords: None, text: Some("hello".to_string()) };
    assert_eq!(strings(&r), (String::new(), String::new(), "hello".to_string()));
    assert_eq!(r.to_string(true, true), "hello");
}

#[test]
fn row_without_text() {
    let r = Row {
        rhythm: Some(vec![Beat::UpBeat('v')]),
        chords: Some(vec![ChordPosition::UpBeat(chord("Am")), ChordPosition::OnIndex { index: 3, chord: chord("C") }]),
        text: None,
    };
    assert_eq!(strings(&r), ("Am C v ".to_string(), String::new(), String::new()));
    assert_eq!(r.to_string(true, true), "Am C v \n");
    assert_eq!(r.to_string(false, true), "");
}

#[test]
fn chords_over_words() {
    let r = Row {
        rhythm: None,
        chords: Some(vec![
            ChordPosition::OnIndex { index: 0, chord: chord("Am") },
            ChordPosition::OnIndex { index: 5, chord: chord("F") },
        ]),
        text: Some("some words".to_string()),
    };
    assert_eq!(strings(&r), ("Am   F    ".to_string(), String::new(), "some words".to_string()));
    assert_eq!(r.to_string(true, false), "Am   F    \nsome words");
}

#[test]
fn long_chord_stretches_word() {
    let r = Row {
        rhythm: None,
        chords: Some(vec![
            ChordPosition::OnIndex { index: 0, chord: chord("Cmaj7") },
            ChordPosition::OnIndex { index: 2, chord: chord("G") },
        ]),
        text: Some("abcdef".to_string()),
    };
    assert_eq!(strings(&r), ("Cmaj7 G   ".to_string(), String::new(), "ab----cdef".to_string()));
}

#[test]
fn marks_before_text() {
    let r = Row {
        rhythm: Some(vec![Beat::UpBeat('v'), Beat::OnIndex { index: 0, symbol: '^' }]),
        chords: Some(vec![ChordPosition::UpBeat(chord("Am")), ChordPosition::OnIndex { index: 0, chord: chord("C") }]),
        text: Some("la la".to_string()),
    };
    assert_eq!(
        strings(&r),
        ("Am C    ".to_string(), " v ^ ".to_string(), "   la la".to_string())
    );
}

#[test]
fn rhythm_only_row() {
    let r = Row {
        rhythm: Some(vec![Beat::UpBeat('x'), Beat::OnIndex { index: 1, symbol: 'v' }]),
        chords: None,
        text: Some("go".to_string()),
    };
    assert_eq!(strings(&r), (String::new(), "x  v ".to_string(), "  go".to_string()));
    assert_eq!(r.to_string(true, true), "x  v \n  go");
}

#[test]
fn rhythm_moves_with_stretched_text() {
    let r = Row {
        rhythm: Some(vec![Beat::OnIndex { index: 0, symbol: 'v' }, Beat::OnIndex { index: 3, symbol: '^' }]),
        chords: Some(vec![
            ChordPosition::OnIndex { index: 0, chord: chord("Am7") },
            ChordPosition::OnIndex { index: 3, chord: chord("G") },
        ]),
        text: Some("ab cd".to_string()),
    };
    assert_eq!(strings(&r), ("Am7 G ".to_string(), " v  ^ ".to_string(), "ab  cd".to_string()));
}

fn sample() -> Song {
    let mut s = Song::new("Title", "Artist");
    for sym in ["Am", "F", "C", "G"] {
        s.chord_list.push(chord(sym));
    }
    let row = Row {
        rhythm: Some(vec![Beat::UpBeat('v'), Beat::OnIndex { index: 2, symbol: '^' }]),
        chords: Some(vec![
            ChordPosition::UpBeat(chord("Am")),
            ChordPosition::OnIndex { index: 4, chord: chord("F") },
        ]),
        text: Some("some words".to_string()),
    };
    s.blocks.push(Block {
        title: Some("Verse".to_string()),
        notes: None,
        lines: vec![
            Line::TextBlock(row),
            Line::ChordsLine(vec![chord("C"), chord("G")]),
            Line::PlainText("plain".to_string()),
            Line::EmptyLine,
        ],
    });
    s
}

#[test]
fn song_as_plain_text() {
    let s = sample();
    assert_eq!(
        s.to_string(true, true, true),
        "\nVerse \nAm     F     \nv    ^ \n   some words\nC G \nplain\n"
    );
    assert_eq!(s.to_string(false, false, false), "\nVerse \n   some words\nC G \nplain\n");
}

#[test]
fn song_blocks_and_notes() {
    let mut s = Song::new("", "");
    s.blocks.push(Block { title: None, notes: Some("intro".to_string()), lines: vec![] });
    s.blocks.push(Block {
        title: Some(String::new()),
        notes: Some("soft".to_string()),
        lines: vec![Line::PlainText("x".to_string())],
    });
    assert_eq!(s.to_string(false, false, true), "\nintro\n soft\nx");
    assert_eq!(s.to_string(false, false, false), "\n \nx");
}

#[test]
fn song_header_and_shapes() {
    let mut s = sample();
    s.notes = Some("capo 2".to_string());
    let body = s.to_string(false, false, true);
    assert_eq!(
        s.get_song_as_text(false, false, false, true, None),
        format!("Artist - Title\n\ncapo 2\n{}", body)
    );
    let body = s.to_string(true, false, false);
    let shapes = s.get_fingerings_text(80);
    assert_eq!(
        s.get_song_as_text(true, false, true, false, Some(80)),
        format!("Artist - Title\n\n{}{}", shapes, body)
    );
    assert_eq!(
        s.get_song_as_text(true, false, true, false, None),
        format!("Artist - Title\n\n{}", body)
    );
}

#[test]
fn file_names_lose_forbidden_chars() {
    assert_eq!(songbook::get_without_forbidden_chars("a<b>c:d/e\\f|g?h*i`j"), "a_b_c_d_e_f_g_h_i_j");
    assert_eq!(songbook::get_without_forbidden_chars("Artist - Song"), "Artist - Song");
    assert_eq!(songbook::get_without_forbidden_chars(""), "");
}

#[test]
fn edited_rhythm_line() {
    assert_eq!(
        songbook::rhythm_from_edited("v  ^ ", 2),
        Some(vec![Beat::UpBeat('v'), Beat::OnIndex { index: 1, symbol: '^' }])
    );
    assert_eq!(songbook::rhythm_from_edited("   ", 0), None);
    assert_eq!(songbook::rhythm_from_edited("", 3), None);
}

#[test]
fn edited_chord_line() {
    let cs = songbook::chords_from_edited("Am  F x G7", 2).unwrap();
    assert_eq!(cs.len(), 3);
    match &cs[0] {
        ChordPosition::UpBeat(c) => assert_eq!(c.text, "Am"),
        _ => panic!("Am is played before the text"),
    }
    match &cs[1] {
        ChordPosition::OnIndex { index, chord } => {
            assert_eq!(*index, 2);
            assert_eq!(chord.text, "F");
        }
        _ => panic!("F stands in the text"),
    }
    match &cs[2] {
        ChordPosition::OnIndex { index, chord } => {
            assert_eq!(*index, 6);
            assert_eq!(chord.text, "G7");
        }
        _ => panic!("G7 stands in the text"),
    }
    assert!(songbook::chords_from_edited("x y", 0).is_none());
    assert!(songbook::chords_from_edited("", 0).is_none());
}
