use songbook::{standard_tuning, sum_text_in_fingerings, Beat, Block, Chord, ChordPosition, Line, Note, Row, Song};

fn sample() -> Song {
    let mut s = Song::new("Title", "Artist");
    for sym in ["Am", "F", "C", "G"] {
        s.chord_list.push(Chord::new(sym).unwrap());
    }
    let row = Row {
        rhythm: Some(vec![Beat::UpBeat('v'), Beat::OnIndex { index: 2, symbol: '^' }]),
        chords: Some(vec![
            ChordPosition::UpBeat(Chord::new("Am").unwrap()),
            ChordPosition::OnIndex { index: 4, chord: Chord::new("F").unwrap() },
        ]),
        text: Some("some words".to_string()),
    };
    s.blocks.push(Block {
        title: Some("Verse".to_string()),
        notes: None,
        lines: vec![
            Line::TextBlock(row),
            Line::ChordsLine(vec![Chord::new("C").unwrap(), Chord::new("G").unwrap()]),
            Line::PlainText("plain".to_string()),
            Line::EmptyLine,
        ],
    });
    s
}

#[test]
fn new_song_is_empty() {
    let s = Song::new("T", "A");
    assert_eq!(s.metadata.title, "T");
    assert_eq!(s.metadata.artist, "A");
    assert!(s.metadata.key.is_none());
    assert!(s.chord_list.is_empty());
    assert!(s.blocks.is_empty());
    assert!(s.notes.is_none());
}

#[test]
fn song_transpose_moves_every_chord() {
    let mut s = sample();
    s.metadata.key = Some(Note::C);
    s.transpose(2);
    assert_eq!(s.metadata.key, Some(Note::D));
    let texts: Vec<String> = s.chord_list.iter().map(|c| c.text.clone()).collect();
    assert_eq!(texts, vec!["Bm", "G", "D", "A"]);
    match &s.blocks[0].lines[0] {
        Line::TextBlock(row) => {
            let cs = row.chords.as_ref().unwrap();
            match &cs[0] {
                ChordPosition::UpBeat(c) => assert_eq!(c.text, "Bm"),
                _ => panic!("position changed"),
            }
            match &cs[1] {
                ChordPosition::OnIndex { index, chord } => {
                    assert_eq!(*index, 4);
                    assert_eq!(chord.text, "G");
                }
                _ => panic!("position changed"),
            }
            assert_eq!(row.text.as_deref(), Some("some words"));
            assert_eq!(row.rhythm.as_ref().unwrap().len(), 2);
        }
        _ => panic!("line kind changed"),
    }
    match &s.blocks[0].lines[1] {
        Line::ChordsLine(cs) => {
            assert_eq!(cs[0].text, "D");
            assert_eq!(cs[1].text, "A");
        }
        _ => panic!("line kind changed"),
    }
    assert_eq!(s.blocks[0].title.as_deref(), Some("Verse"));
    s.transpose(-2);
    let texts: Vec<String> = s.chord_list.iter().map(|c| c.text.clone()).collect();
    assert_eq!(texts, vec!["Am", "F", "C", "G"]);
}

#[test]
fn detect_key_picks_best_scale() {
    let mut s = sample();
    assert_eq!(s.detect_key(), Note::C);
    assert_eq!(s.metadata.key, Some(Note::C));

    let mut s = Song::new("", "");
    for sym in ["E", "A", "B7", "C#m"] {
        s.chord_list.push(Chord::new(sym).unwrap());
    }
    assert_eq!(s.detect_key(), Note::E);

    let mut s = Song::new("", "");
    assert_eq!(s.detect_key(), Note::C);
}

#[test]
fn song_fingerings_per_chord() {
    let s = sample();
    let fs = s.get_fingerings();
    assert_eq!(fs.len(), 4);
    for (c, f) in s.chord_list.iter().zip(fs.iter()) {
        let direct = c.get_fingerings(&standard_tuning());
        assert_eq!(f.len(), direct.len());
        for (a, b) in f.iter().zip(direct.iter()) {
            assert_eq!(a.strings, b.strings);
        }
    }
}

#[test]
fn song_fingerings_text_uses_first_shapes() {
    let s = sample();
    let firsts: Vec<_> = s
        .chord_list
        .iter()
        .map(|c| c.get_fingerings(&standard_tuning()).remove(0))
        .collect();
    let expected = sum_text_in_fingerings(&firsts, 80);
    assert_eq!(s.get_fingerings_text(80), expected);
    let first_line = expected.split('\n').next().unwrap();
    assert_eq!(first_line.chars().count(), 2 + 4 * 19);
    assert_eq!(Song::new("", "").get_fingerings_text(80), "");
}

#[test]
fn chord_list_in_order_once() {
    let mut s = sample();
    s.blocks.push(Block {
        title: None,
        notes: Some("again".to_string()),
        lines: vec![
            Line::ChordsLine(vec![Chord::new("Am").unwrap(), Chord::new("Dm").unwrap()]),
            Line::EmptyLine,
        ],
    });
    let texts: Vec<String> = s.get_chord_list().iter().map(|c| c.text.clone()).collect();
    assert_eq!(texts, vec!["Am", "F", "C", "G", "Dm"]);
    assert!(Song::new("", "").get_chord_list().is_empty());
}
