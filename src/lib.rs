//! Chords, hand shapes and songs for the guitar: reading chord symbols,
//! transposing them, finding fingerings on the fretboard and drawing them.

pub mod chord;
pub mod edit;
pub mod fingering;
pub mod generator;
pub mod layout;
pub mod library;
pub mod note;
pub mod render;
pub mod song;

pub use chord::{Chord, ChordType, FifthState, SusOrAdd};
pub use edit::{chords_from_edited, rhythm_from_edited};
pub use fingering::{Fingering, StringState};
pub use generator::{fretboard_text, get_chords, get_fretboard, Fretboard};
pub use layout::sum_text_in_fingerings;
pub use library::get_without_forbidden_chars;
pub use note::{Note, STRINGS};
pub use song::{standard_tuning, Beat, Block, ChordPosition, Line, Metadata, Row, Song};
