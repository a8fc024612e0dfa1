use songbook::StringState::{FrettedOn, Muted, Open};
use songbook::{get_chords, get_fretboard, standard_tuning, sum_text_in_fingerings, Chord, Fingering, Note, STRINGS};

fn sounded(board: &[[Note; 25]; STRINGS], f: &Fingering, i: usize) -> Option<Note> {
    match f.strings[i] {
        Muted => None,
        Open => Some(board[i][0]),
        FrettedOn(x) => Some(board[i][x as usize]),
    }
}

#[test]
fn fretboard_cells() {
    let t = standard_tuning();
    let b = get_fretboard(&t);
    for s in 0..STRINGS {
        for f in 0..25 {
            assert_eq!(b[s][f], t[s].transpose(f as i32));
        }
    }
    assert_eq!(b[0][0], Note::E);
    assert_eq!(b[0][1], Note::F);
    assert_eq!(b[4][3], Note::C);
    assert_eq!(b[5][24], Note::E);
}

#[test]
fn am_first_shape() {
    let c = Chord::new("Am").unwrap();
    let fs = c.get_fingerings(&standard_tuning());
    let f = &fs[0];
    assert_eq!(f.strings, [Open, FrettedOn(1), FrettedOn(2), FrettedOn(2), Open, Muted]);
    assert_eq!(f.fret_num, 1);
    assert_eq!(f.chord_size, 2);
    assert!(f.bars.is_none());
    assert_eq!(f.title.as_deref(), Some("Am"));
    let text = f.get_text();
    let expected = [
        "X O       O   ",
        "===========   ",
        "| | | | | |   ",
        "| | | | o | 1 ",
        "| | | | | |   ",
        "-----------   ",
        "| | | | | |   ",
        "| | o o | | 2 ",
        "| | | | | |   ",
        "-----------   ",
    ]
    .join("\n");
    assert_eq!(text, expected);
    assert!(text.lines().next().unwrap().contains("X O "));
    for line in text.lines() {
        assert_eq!(line.chars().count(), 14);
    }
}

#[test]
fn f_has_full_barre() {
    let c = Chord::new("F").unwrap();
    let fs = c.get_fingerings(&standard_tuning());
    let barre = fs.iter().find(|f| {
        f.fret_num == 1 && f.bars.as_ref().map_or(false, |b| b.get(&1) == Some(&5))
    });
    let f = barre.expect("a shape barred across all six strings");
    assert_eq!(f.strings, [FrettedOn(1), FrettedOn(1), FrettedOn(2), FrettedOn(3), FrettedOn(3), FrettedOn(1)]);
    assert_eq!(f.bars.as_ref().unwrap().len(), 1);
    let text = f.get_text();
    assert!(text.contains(">>>>>>>>>>> 1 "));
}

#[test]
fn shapes_sound_every_note() {
    let t = standard_tuning();
    let b = get_fretboard(&t);
    for sym in ["Am", "C", "F", "G7", "Dm", "E", "Bm7-5", "C#maj7", "Gsus4", "Cadd2", "A5", "C13"] {
        let c = Chord::new(sym).unwrap();
        let notes = c.required_notes();
        let fs = c.get_fingerings(&t);
        for (k, f) in fs.iter().enumerate() {
            assert!(f.strings.iter().any(|s| *s != Muted));
            for n in &notes {
                assert!((0..STRINGS).any(|i| sounded(&b, f, i) == Some(*n)));
            }
            let bars = f.bars.as_ref().map_or(0, |m| m.len());
            let loose = f
                .strings
                .iter()
                .filter(|s| match s {
                    FrettedOn(x) => f.bars.as_ref().map_or(true, |m| !m.contains_key(x)),
                    _ => false,
                })
                .count();
            assert!(loose + bars <= 4);
            for g in fs.iter().skip(k + 1) {
                assert_ne!(g.strings, f.strings);
            }
        }
    }
}

#[test]
fn root_in_bass() {
    let t = standard_tuning();
    let b = get_fretboard(&t);
    for sym in ["Am", "C", "G", "D7"] {
        let c = Chord::new(sym).unwrap();
        for f in c.get_fingerings(&t) {
            let lowest = (0..STRINGS).rev().find_map(|i| sounded(&b, &f, i));
            assert_eq!(lowest, Some(c.keynote));
        }
    }
}

#[test]
fn get_chords_empty_for_impossible() {
    let t = [Note::E; STRINGS];
    let notes = vec![Note::C, Note::CSharp, Note::D, Note::DSharp, Note::E, Note::F, Note::FSharp];
    assert!(get_chords(&t, &notes).is_empty());
}

#[test]
fn new_rejects_too_many_fingers() {
    let s = [FrettedOn(1), FrettedOn(2), FrettedOn(3), FrettedOn(4), FrettedOn(5), Muted];
    assert!(Fingering::new(s, None).is_none());
}

#[test]
fn new_rejects_frets_out_of_range() {
    assert!(Fingering::new([FrettedOn(0), Muted, Muted, Muted, Muted, Muted], None).is_none());
    assert!(Fingering::new([FrettedOn(25), Muted, Muted, Muted, Muted, Muted], None).is_none());
    assert!(Fingering::new([FrettedOn(24), Muted, Muted, Muted, Muted, Muted], None).is_some());
}

#[test]
fn new_windows_and_bars() {
    let f = Fingering::new([Open, Open, Open, Open, Open, Open], None).unwrap();
    assert_eq!(f.fret_num, 1);
    assert_eq!(f.chord_size, 0);
    assert!(f.bars.is_none());
    assert_eq!(f.get_text(), "O O O O O O   \n===========   \n");

    let f = Fingering::new([FrettedOn(5), FrettedOn(5), FrettedOn(6), FrettedOn(7), FrettedOn(7), FrettedOn(5)], None).unwrap();
    assert_eq!(f.fret_num, 5);
    assert_eq!(f.chord_size, 3);
    assert_eq!(f.bars.as_ref().unwrap().get(&5), Some(&5));
    assert_eq!(f.bars.as_ref().unwrap().len(), 1);
    let text = f.get_text();
    let lines: Vec<&str> = text.split('\n').collect();
    assert_eq!(lines[1], "-----------   ");
    assert_eq!(lines[3], ">>>>>>>>>>> 5 ");
    assert_eq!(lines[7], "| | | o | | 6 ");

    // an open string inside the span stops the barre
    let f = Fingering::new([Open, FrettedOn(1), FrettedOn(1), Muted, Muted, Muted], None).unwrap();
    assert!(f.bars.is_none());

    // a partial barre over the first three strings
    let f = Fingering::new([FrettedOn(2), FrettedOn(2), FrettedOn(2), FrettedOn(4), Muted, Muted], None).unwrap();
    assert_eq!(f.bars.as_ref().unwrap().get(&2), Some(&2));
    let text = f.get_text();
    let lines: Vec<&str> = text.split('\n').collect();
    assert_eq!(lines[3], "| | | >>>>> 2 ");

    let f = Fingering::new([FrettedOn(12), Muted, FrettedOn(10), Muted, Muted, Muted], None).unwrap();
    let text = f.get_text();
    let lines: Vec<&str> = text.split('\n').collect();
    assert_eq!(lines[3], "| | | o | | 10");
    assert_eq!(lines[11], "| | | | | o 12");
}

#[test]
fn layout_packs_in_order() {
    let t = standard_tuning();
    let fs: Vec<Fingering> = ["Am", "C", "E"]
        .iter()
        .map(|s| {
            let mut v = Chord::new(s).unwrap().get_fingerings(&t);
            v.remove(0)
        })
        .collect();
    let out = sum_text_in_fingerings(&fs, 40);
    let lines: Vec<&str> = out.split('\n').collect();
    let a = fs[0].get_text();
    let c = fs[1].get_text();
    let e = fs[2].get_text();
    let a0 = a.split('\n').next().unwrap();
    let c0 = c.split('\n').next().unwrap();
    let e0 = e.split('\n').next().unwrap();
    assert_eq!(lines[0], format!(" {}     {}     ", a0, c0));
    let second = lines.iter().position(|l| l.starts_with("          ") && l.contains(e0)).unwrap();
    assert!(second > 0);
    for l in &lines {
        assert!(l.chars().count() <= 40);
    }
    assert!(out.ends_with("\n\n\n"));
}

#[test]
fn layout_lines_fit_every_width() {
    let t = standard_tuning();
    let mut fs = Chord::new("G").unwrap().get_fingerings(&t);
    fs.extend(Chord::new("Dm").unwrap().get_fingerings(&t));
    for w in [19usize, 20, 37, 38, 57, 80, 120] {
        let out = sum_text_in_fingerings(&fs, w);
        for l in out.split('\n') {
            assert!(l.chars().count() <= w);
        }
    }
    assert_eq!(sum_text_in_fingerings(&Vec::new(), 80), "");
}

#[test]
fn fretboard_drawing() {
    let text = songbook::fretboard_text(&standard_tuning());
    assert!(text.starts_with("\nE   A   D   G   B   E   \n=====================\n"));
    assert!(text.contains(
        "|   |   |   |   |   |   \nF   A#  D#  G#  C   F   \n|   |   |   |   |   |   \n--------------------- 1\n"
    ));
    assert!(text.ends_with("--------------------- 24\n"));
    assert_eq!(text.lines().count(), 2 + 24 * 4 + 1);
}
