use songbook::{Chord, ChordType, FifthState, Note, SusOrAdd};

const ALL: [Note; 12] = [
    Note::A,
    Note::ASharp,
    Note::B,
    Note::C,
    Note::CSharp,
    Note::D,
    Note::DSharp,
    Note::E,
    Note::F,
    Note::FSharp,
    Note::G,
    Note::GSharp,
];

#[test]
fn transpose_and_back() {
    for n in ALL {
        for k in [-25, -13, -12, -7, -1, 0, 1, 5, 11, 12, 13, 30] {
            assert_eq!(n.transpose(k).transpose(-k), n);
        }
    }
}

#[test]
fn transpose_values() {
    assert_eq!(Note::A.transpose(1), Note::ASharp);
    assert_eq!(Note::A.transpose(-1), Note::GSharp);
    assert_eq!(Note::C.transpose(7), Note::G);
    assert_eq!(Note::E.transpose(-13), Note::DSharp);
    assert_eq!(Note::G.transpose(24), Note::G);
    assert_eq!(Note::B.transpose(i32::MIN), Note::DSharp);
    assert_eq!(Note::B.transpose(i32::MAX), Note::FSharp);
}

#[test]
fn parse_text_round_trip() {
    for n in ALL {
        assert_eq!(Note::new(&n.get_text()), Some(n));
    }
}

#[test]
fn note_texts() {
    assert_eq!(Note::ASharp.get_text(), "A#");
    assert_eq!(Note::C.get_text(), "C");
    assert_eq!(Note::FSharp.get_text(), "F#");
}

#[test]
fn flat_aliases() {
    assert_eq!(Note::new("Bb"), Note::new("A#"));
    assert_eq!(Note::new("Bb"), Some(Note::ASharp));
    assert_eq!(Note::new("Cb"), Some(Note::B));
    assert_eq!(Note::new("Fb"), Some(Note::E));
    assert_eq!(Note::new("Db"), Some(Note::CSharp));
    assert_eq!(Note::new("Ab"), Some(Note::GSharp));
}

#[test]
fn bad_notes() {
    assert_eq!(Note::new(""), None);
    assert_eq!(Note::new("H"), None);
    assert_eq!(Note::new("a"), None);
    assert_eq!(Note::new("B#"), None);
    assert_eq!(Note::new("A##"), None);
    assert_eq!(Note::new("Am"), None);
}

#[test]
fn keys() {
    assert_eq!(Note::get_key("C"), Some(Note::C));
    assert_eq!(Note::get_key("Am"), Some(Note::C));
    assert_eq!(Note::get_key("a#m"), Some(Note::CSharp));
    assert_eq!(Note::get_key("Bbm"), Some(Note::CSharp));
    assert_eq!(Note::get_key("Em"), Some(Note::G));
    assert_eq!(Note::get_key("g"), Some(Note::G));
    assert_eq!(Note::get_key("Xm"), None);
    assert_eq!(Note::get_key(""), None);
}

#[test]
fn am_required_notes() {
    let c = Chord::new("Am").unwrap();
    assert_eq!(c.required_notes(), vec![Note::A, Note::C, Note::E]);
    assert!(c.minor);
}

#[test]
fn c7_required_notes() {
    let c = Chord::new("C7").unwrap();
    assert_eq!(c.required_notes(), vec![Note::C, Note::E, Note::G, Note::ASharp]);
    assert_eq!(c.chord_type, ChordType::Seventh);
}

#[test]
fn gsus4_required_notes() {
    let c = Chord::new("Gsus4").unwrap();
    assert_eq!(c.sus_or_add, SusOrAdd::Sus4);
    assert_eq!(c.required_notes(), vec![Note::G, Note::C, Note::D]);
}

#[test]
fn cadd2_required_notes() {
    let c = Chord::new("Cadd2").unwrap();
    assert_eq!(c.sus_or_add, SusOrAdd::Add2);
    assert_eq!(c.required_notes(), vec![Note::C, Note::E, Note::G, Note::D]);
}

#[test]
fn gm7_flat5_parse() {
    let c = Chord::new("Gm7-5").unwrap();
    assert!(c.minor);
    assert_eq!(c.fifth_state, FifthState::Dim);
    assert_eq!(c.chord_type, ChordType::Seventh);
    assert_eq!(c.required_notes(), vec![Note::G, Note::ASharp, Note::CSharp, Note::F]);
}

#[test]
fn chord_roots() {
    let c = Chord::new("C#maj7").unwrap();
    assert_eq!(c.keynote, Note::CSharp);
    assert!(!c.minor);
    assert_eq!(c.chord_type, ChordType::MajSeventh);
    assert_eq!(c.required_notes(), vec![Note::CSharp, Note::F, Note::GSharp, Note::C]);
    let c = Chord::new("Gbadd2").unwrap();
    assert_eq!(c.keynote, Note::FSharp);
    assert_eq!(c.text, "Gbadd2");
    let c = Chord::new("Cb").unwrap();
    assert_eq!(c.keynote, Note::C);
    assert!(Chord::new("").is_none());
    assert!(Chord::new("H7").is_none());
    assert!(Chord::new("am").is_none());
}

#[test]
fn power_and_extensions() {
    let c = Chord::new("G5").unwrap();
    assert_eq!(c.chord_type, ChordType::Power);
    assert!(!c.minor);
    assert_eq!(c.required_notes(), vec![Note::G, Note::D]);
    let c = Chord::new("Am9").unwrap();
    assert_eq!(c.chord_type, ChordType::Nineth);
    assert_eq!(c.required_notes(), vec![Note::A, Note::C, Note::E, Note::B, Note::G]);
    let c = Chord::new("C11").unwrap();
    assert_eq!(c.chord_type, ChordType::Eleventh);
    assert_eq!(c.required_notes(), vec![Note::C, Note::E, Note::G, Note::D, Note::F, Note::ASharp]);
    let c = Chord::new("C13").unwrap();
    assert_eq!(c.chord_type, ChordType::Thirteenth);
    assert_eq!(
        c.required_notes(),
        vec![Note::C, Note::E, Note::G, Note::D, Note::F, Note::A, Note::ASharp]
    );
    let c = Chord::new("C6").unwrap();
    assert_eq!(c.chord_type, ChordType::Sixth);
    assert_eq!(c.required_notes(), vec![Note::C, Note::E, Note::G, Note::A]);
    let c = Chord::new("C6b").unwrap();
    assert_eq!(c.chord_type, ChordType::SixthMinus);
    assert_eq!(c.required_notes(), vec![Note::C, Note::E, Note::G, Note::GSharp]);
}

#[test]
fn fifths_and_suspensions() {
    let c = Chord::new("Caug").unwrap();
    assert_eq!(c.fifth_state, FifthState::Aug);
    assert_eq!(c.required_notes(), vec![Note::C, Note::E, Note::GSharp]);
    let c = Chord::new("Cdim").unwrap();
    assert_eq!(c.fifth_state, FifthState::Dim);
    let c = Chord::new("C5+dim").unwrap();
    assert_eq!(c.fifth_state, FifthState::Aug);
    let c = Chord::new("Csus4+").unwrap();
    assert_eq!(c.sus_or_add, SusOrAdd::Sus4Plus);
    assert_eq!(c.required_notes(), vec![Note::C, Note::FSharp, Note::G]);
    let c = Chord::new("Csus2").unwrap();
    assert_eq!(c.sus_or_add, SusOrAdd::Sus2);
    assert_eq!(c.required_notes(), vec![Note::C, Note::D, Note::G]);
    let c = Chord::new("Cadd4").unwrap();
    assert_eq!(c.sus_or_add, SusOrAdd::Add4);
    assert_eq!(c.required_notes(), vec![Note::C, Note::E, Note::G, Note::F]);
    let c = Chord::new("Cmaj7").unwrap();
    assert!(!c.minor);
}

#[test]
fn transpose_keeps_suffix() {
    let c = Chord::new("Am7/G").unwrap();
    let t = c.transpose(2);
    assert!(t.text.starts_with("Bm7/"));
    assert_eq!(t.text, "Bm7/G");
    assert_eq!(t.keynote, Note::B);
    assert_eq!(t.transpose(-2).keynote, Note::A);
}

#[test]
fn transpose_respells_root() {
    let c = Chord::new("Bbm7").unwrap();
    assert_eq!(c.transpose(1).text, "Bm7");
    assert_eq!(c.transpose(-1).text, "Am7");
    assert_eq!(c.transpose(12).text, "Bbm7");
    assert_eq!(c.transpose(-14).text, "G#m7");
    let c = Chord::new("E").unwrap();
    assert_eq!(c.transpose(1).text, "F");
    assert_eq!(c.transpose(-3).text, "C#");
    for k in -15..15 {
        let t = c.transpose(k);
        assert_eq!(t.transpose(-k).keynote, c.keynote);
        assert_eq!(t.minor, c.minor);
    }
}
