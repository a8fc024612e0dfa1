use vstd::prelude::*;
use vstd::string::*;

use crate::fingering::{finger_count, Fingering};
use crate::generator::{
    all_muted, get_titled_chords, is_board_of, opt_title, shapes, sounds_all, Fretboard,
};
use crate::note::{
    chars_of, lemma_note_at_index, lemma_transpose_compose, lemma_transpose_inverse, note_index,
    note_of_chars, note_text, parse_note, shifted, Note, STRINGS,
};

verus! {

/// What a chord adds above its triad.
#[derive(Debug, Clone, Copy, PartialEq, Eq, Structural)]
pub enum ChordType {
    Norm,
    Power,
    Sixth,
    SixthMinus,
    Seventh,
    MajSeventh,
    Nineth,
    Eleventh,
    Thirteenth,
}

/// The fifth of a chord: diminished, perfect or augmented.
#[derive(Debug, Clone, Copy, PartialEq, Eq, Structural)]
pub enum FifthState {
    Dim,
    Norm,
    Aug,
}

/// A suspended third or an added tone.
#[derive(Debug, Clone, Copy, PartialEq, Eq, Structural)]
pub enum SusOrAdd {
    No,
    Sus2,
    Sus4,
    Sus4Plus,
    Add2,
    Add4,
}

/// A chord symbol together with what was read from it.
#[derive(Debug, Clone, PartialEq)]
pub struct Chord {
    pub text: String,
    pub keynote: Note,
    pub minor: bool,
    pub chord_type: ChordType,
    pub fifth_state: FifthState,
    pub sus_or_add: SusOrAdd,
}

/// `s` begins with `p`.
pub open spec fn starts_with(s: Seq<char>, p: Seq<char>) -> bool {
    p.len() <= s.len() && s.take(p.len() as int) == p
}

/// `p` occurs somewhere in `s`.
pub open spec fn contains(s: Seq<char>, p: Seq<char>) -> bool {
    exists|i: int| 0 <= i && i + p.len() <= s.len() && #[trigger] s.subrange(i, i + p.len()) == p
}

/// The root of a chord symbol: a two-character sharp or flat spelling of one of
/// the five black keys (`A#`, `Bb`, ..., `Ab`), else a single letter `A` to `G`.
pub open spec fn chord_root(s: Seq<char>) -> Option<Note> {
    if s.len() >= 2 && parse_note(s.take(2)) is Some && note_text(
        parse_note(s.take(2))->0,
    ).len() == 2 {
        parse_note(s.take(2))
    } else if s.len() >= 1 {
        parse_note(s.take(1))
    } else {
        None
    }
}

/// The part of a chord symbol after a root spelled as `root`'s canonical text is long.
pub open spec fn suffix_after(s: Seq<char>, root: Note) -> Seq<char> {
    s.skip(note_text(root).len() as int)
}

/// Whether the suffix marks a minor chord: it begins with `m` but not with `maj`.
pub open spec fn suffix_minor(x: Seq<char>) -> bool {
    starts_with(x, seq!['m']) && !starts_with(x, seq!['m', 'a', 'j']) && x != seq!['5']
}

/// The fifth that the suffix asks for; an augmented mark wins over a diminished one.
pub open spec fn suffix_fifth(x: Seq<char>) -> FifthState {
    if contains(x, seq!['a', 'u', 'g']) || contains(x, seq!['5', '#']) || contains(
        x,
        seq!['5', '+'],
    ) || contains(x, seq!['+', '5']) {
        FifthState::Aug
    } else if contains(x, seq!['d', 'i', 'm']) || contains(x, seq!['5', 'b']) || contains(
        x,
        seq!['5', '-'],
    ) || contains(x, seq!['-', '5']) {
        FifthState::Dim
    } else {
        FifthState::Norm
    }
}

/// The suspension or added tone that the suffix asks for.
pub open spec fn suffix_sus_or_add(x: Seq<char>) -> SusOrAdd {
    if starts_with(x, seq!['s', 'u', 's', '4', '+']) || starts_with(
        x,
        seq!['s', 'u', 's', '4', '#'],
    ) {
        SusOrAdd::Sus4Plus
    } else if starts_with(x, seq!['s', 'u', 's', '2']) {
        SusOrAdd::Sus2
    } else if starts_with(x, seq!['s', 'u', 's', '4']) {
        SusOrAdd::Sus4
    } else if contains(x, seq!['a', 'd', 'd', '2']) {
        SusOrAdd::Add2
    } else if contains(x, seq!['a', 'd', 'd', '4']) {
        SusOrAdd::Add4
    } else {
        SusOrAdd::No
    }
}

/// The chord type that the suffix asks for, by the first rule that matches.
pub open spec fn suffix_type(x: Seq<char>) -> ChordType {
    if x == seq!['5'] {
        ChordType::Power
    } else if contains(x, seq!['9']) {
        ChordType::Nineth
    } else if contains(x, seq!['1', '1']) {
        ChordType::Eleventh
    } else if contains(x, seq!['1', '3']) {
        ChordType::Thirteenth
    } else if contains(x, seq!['m', 'a', 'j']) {
        ChordType::MajSeventh
    } else if contains(x, seq!['7']) {
        ChordType::Seventh
    } else if contains(x, seq!['6', '-']) || contains(x, seq!['6', 'b']) {
        ChordType::SixthMinus
    } else if contains(x, seq!['6']) {
        ChordType::Sixth
    } else {
        ChordType::Norm
    }
}

/// What a chord symbol reads as: keynote, minor, type, fifth and suspension, or
/// nothing when it does not begin with a note.
pub open spec fn chord_model(s: Seq<char>) -> Option<(Note, bool, ChordType, FifthState, SusOrAdd)> {
    match chord_root(s) {
        None => None,
        Some(k) => {
            let x = suffix_after(s, k);
            Some((k, suffix_minor(x), suffix_type(x), suffix_fifth(x), suffix_sus_or_add(x)))
        },
    }
}

/// The semitone offsets from the root of the notes that a chord needs, root first.
pub open spec fn chord_offsets(c: Chord) -> Seq<int> {
    if c.chord_type == ChordType::Power {
        seq![0, 7]
    } else {
        let third: int = match c.sus_or_add {
            SusOrAdd::Sus2 => 2,
            SusOrAdd::Sus4 => 5,
            SusOrAdd::Sus4Plus => 6,
            _ => if c.minor {
                3
            } else {
                4
            },
        };
        let fifth: int = match c.fifth_state {
            FifthState::Dim => 6,
            FifthState::Norm => 7,
            FifthState::Aug => 8,
        };
        let extra: Seq<int> = match c.sus_or_add {
            SusOrAdd::Add2 => seq![2],
            SusOrAdd::Add4 => seq![5],
            _ => match c.chord_type {
                ChordType::SixthMinus => seq![8],
                ChordType::Sixth => seq![9],
                ChordType::Seventh => seq![10],
                ChordType::MajSeventh => seq![11],
                ChordType::Nineth => seq![2, 10],
                ChordType::Eleventh => seq![2, 5, 10],
                ChordType::Thirteenth => seq![2, 5, 9, 10],
                _ => Seq::empty(),
            },
        };
        seq![0, third, fifth] + extra
    }
}

/// The notes that a chord needs, root first; a note may occur twice.
pub open spec fn chord_notes(c: Chord) -> Seq<Note> {
    chord_offsets(c).map_values(|o: int| shifted(c.keynote, o))
}

/// `r` is `c` transposed by `k` semitones: the keynote moves, the root in the text
/// is respelled (unless the shift is a whole number of octaves, which leaves the
/// text as it is), the rest of the text and the other fields are kept.
pub open spec fn is_transposition(c: Chord, k: int, r: Chord) -> bool {
    &&& r.keynote == shifted(c.keynote, k)
    &&& r.minor == c.minor
    &&& r.chord_type == c.chord_type
    &&& r.fifth_state == c.fifth_state
    &&& r.sus_or_add == c.sus_or_add
    &&& if k % 12 == 0 {
        r.text@ == c.text@
    } else {
        r.text@ == note_text(r.keynote) + suffix_after(c.text@, c.keynote)
    }
}

/// Transposing keeps the text after the root, and transposing back restores the keynote.
pub proof fn lemma_transpose_chord(c: Chord, k: int, t: Chord, u: Chord)
    requires
        c.has_root_text(),
        is_transposition(c, k, t),
        is_transposition(t, -k, u),
    ensures
        t.has_root_text(),
        suffix_after(t.text@, t.keynote) == suffix_after(c.text@, c.keynote),
        u.keynote == c.keynote,
{
    lemma_transpose_inverse(c.keynote, k);
    if k % 12 == 0 {
        lemma_note_at_index(c.keynote, note_index(c.keynote) + k);
        assert(note_index(c.keynote) + k - note_index(c.keynote) == k);
        vstd::arithmetic::div_mod::lemma_add_mod_noop(note_index(c.keynote), k, 12);
        vstd::arithmetic::div_mod::lemma_small_mod(note_index(c.keynote) as nat, 12);
        assert(t.keynote == c.keynote);
    } else {
        assert(suffix_after(t.text@, t.keynote) =~= suffix_after(c.text@, c.keynote));
    }
}

fn matches_at(s: &[char], i: usize, p: &[char]) -> (r: bool)
    requires
        i <= s@.len(),
    ensures
        r == (i + p@.len() <= s@.len() && s@.subrange(i as int, i + p@.len()) == p@),
{
    if p.len() > s.len() - i {
        return false;
    }
    let mut j: usize = 0;
    while j < p.len()
        invariant
            i + p@.len() <= s@.len(),
            0 <= j <= p@.len(),
            s@.len() <= usize::MAX,
            forall|k: int| 0 <= k < j ==> s@[i + k] == p@[k],
        decreases p@.len() - j,
    {
        assert(i + j < s@.len());
        let idx: usize = i + j;
        if s[idx] != p[j] {
            assert(s@.subrange(i as int, i + p@.len())[j as int] != p@[j as int]);
            return false;
        }
        j = j + 1;
    }
    assert(s@.subrange(i as int, i + p@.len()) =~= p@);
    true
}

fn has_prefix(s: &[char], p: &[char]) -> (r: bool)
    ensures
        r == starts_with(s@, p@),
{
    let r = matches_at(s, 0, p);
    assert(s@.take(p@.len() as int) == s@.subrange(0, p@.len() as int));
    r
}

fn has_infix(s: &[char], p: &[char]) -> (r: bool)
    ensures
        r == contains(s@, p@),
{
    let mut i: usize = 0;
    while i < s.len()
        invariant
            0 <= i <= s@.len(),
            forall|k: int|
                0 <= k < i && k + p@.len() <= s@.len() ==> #[trigger] s@.subrange(k, k + p@.len())
                    != p@,
        decreases s@.len() - i,
    {
        if matches_at(s, i, p) {
            return true;
        }
        i = i + 1;
    }
    matches_at(s, i, p)
}

fn has_char(s: &[char], c: char) -> (r: bool)
    ensures
        r == contains(s@, seq![c]),
{
    let p = [c];
    assert(p@ =~= seq![c]);
    has_infix(s, &p)
}

fn starts_with_char(s: &[char], c: char) -> (r: bool)
    ensures
        r == starts_with(s@, seq![c]),
{
    let p = [c];
    assert(p@ =~= seq![c]);
    has_prefix(s, &p)
}

fn is_single(s: &[char], c: char) -> (r: bool)
    ensures
        r == (s@ == seq![c]),
{
    if s.len() != 1 {
        return false;
    }
    if s[0] == c {
        assert(s@ =~= seq![c]);
        true
    } else {
        false
    }
}

/// The length of a note's canonical text.
fn text_len(n: Note) -> (r: usize)
    ensures
        r == note_text(n).len(),
{
    match n {
        Note::ASharp | Note::CSharp | Note::DSharp | Note::FSharp | Note::GSharp => 2,
        _ => 1,
    }
}

fn root_of(s: &[char]) -> (r: Option<Note>)
    ensures
        r == chord_root(s@),
{
    if s.len() >= 2 {
        let two = s.split_at(2).0;
        assert(two@ == s@.take(2));
        let n = note_of_chars(two);
        if let Some(k) = n {
            if text_len(k) == 2 {
                return n;
            }
        }
    }
    if s.len() >= 1 {
        let one = s.split_at(1).0;
        assert(one@ == s@.take(1));
        note_of_chars(one)
    } else {
        None
    }
}

fn fifth_of(x: &[char]) -> (r: FifthState)
    ensures
        r == suffix_fifth(x@),
{
    if has_infix(x, &['a', 'u', 'g']) || has_infix(x, &['5', '#']) || has_infix(x, &['5', '+'])
        || has_infix(x, &['+', '5']) {
        FifthState::Aug
    } else if has_infix(x, &['d', 'i', 'm']) || has_infix(x, &['5', 'b']) || has_infix(
        x,
        &['5', '-'],
    ) || has_infix(x, &['-', '5']) {
        FifthState::Dim
    } else {
        FifthState::Norm
    }
}

fn sus_or_add_of(x: &[char]) -> (r: SusOrAdd)
    ensures
        r == suffix_sus_or_add(x@),
{
    if has_prefix(x, &['s', 'u', 's', '4', '+']) || has_prefix(x, &['s', 'u', 's', '4', '#']) {
        SusOrAdd::Sus4Plus
    } else if has_prefix(x, &['s', 'u', 's', '2']) {
        SusOrAdd::Sus2
    } else if has_prefix(x, &['s', 'u', 's', '4']) {
        SusOrAdd::Sus4
    } else if has_infix(x, &['a', 'd', 'd', '2']) {
        SusOrAdd::Add2
    } else if has_infix(x, &['a', 'd', 'd', '4']) {
        SusOrAdd::Add4
    } else {
        SusOrAdd::No
    }
}

fn type_of(x: &[char]) -> (r: ChordType)
    ensures
        r == suffix_type(x@),
{
    let power = is_single(x, '5');
    let nine = has_char(x, '9');
    let eleven = has_infix(x, &['1', '1']);
    let thirteen = has_infix(x, &['1', '3']);
    let maj = has_infix(x, &['m', 'a', 'j']);
    let seven = has_char(x, '7');
    let six_minus = has_infix(x, &['6', '-']) || has_infix(x, &['6', 'b']);
    let six = has_char(x, '6');
    if power {
        ChordType::Power
    } else if nine {
        ChordType::Nineth
    } else if eleven {
        ChordType::Eleventh
    } else if thirteen {
        ChordType::Thirteenth
    } else if maj {
        ChordType::MajSeventh
    } else if seven {
        ChordType::Seventh
    } else if six_minus {
        ChordType::SixthMinus
    } else if six {
        ChordType::Sixth
    } else {
        ChordType::Norm
    }
}

impl Chord {
    /// The text is at least as long as the canonical spelling of the keynote, so
    /// that the root can be respelled.
    pub open spec fn has_root_text(&self) -> bool {
        note_text(self.keynote).len() <= self.text@.len()
    }

    /// The chord's fields as `chord_model` lists them.
    pub open spec fn fields(&self) -> (Note, bool, ChordType, FifthState, SusOrAdd) {
        (self.keynote, self.minor, self.chord_type, self.fifth_state, self.sus_or_add)
    }

    /// Reads a chord symbol (`Am7`, `C#maj7`, `G5`, `Gbadd2`, `Am7/G`, ...); `None`
    /// when it does not begin with a note.
    pub fn new(text: &str) -> (r: Option<Chord>)
        ensures
            match r {
                None => chord_model(text@) is None,
                Some(c) => {
                    &&& c.text@ == text@
                    &&& chord_model(text@) == Some(c.fields())
                    &&& c.has_root_text()
                },
            },
    {
        let v = chars_of(text);
        let keynote = match root_of(v.as_slice()) {
            Some(k) => k,
            None => return None,
        };
        let x = v.as_slice().split_at(text_len(keynote)).1;
        assert(x@ == suffix_after(text@, keynote));
        let minor = starts_with_char(x, 'm') && !has_prefix(x, &['m', 'a', 'j']);
        let fifth_state = fifth_of(x);
        let sus_or_add = sus_or_add_of(x);
        let chord_type = type_of(x);
        let minor = if chord_type == ChordType::Power {
            false
        } else {
            minor
        };
        Some(
            Chord {
                text: String::from_str(text),
                keynote,
                minor,
                chord_type,
                fifth_state,
                sus_or_add,
            },
        )
    }

    /// A copy of the chord, field by field.
    pub fn copy(&self) -> (r: Chord)
        ensures
            r.text@ == self.text@,
            r.fields() == self.fields(),
    {
        Chord {
            text: self.text.clone(),
            keynote: self.keynote,
            minor: self.minor,
            chord_type: self.chord_type,
            fifth_state: self.fifth_state,
            sus_or_add: self.sus_or_add,
        }
    }

    /// The semitone offsets of the notes the chord needs (see `chord_offsets`).
    fn offsets(&self) -> (r: Vec<i32>)
        ensures
            r@.map_values(|o: i32| o as int) == chord_offsets(*self),
            forall|i: int| 0 <= i < r@.len() ==> 0 <= #[trigger] r@[i] < 12,
    {
        let mut v: Vec<i32> = Vec::new();
        v.push(0);
        if self.chord_type == ChordType::Power {
            v.push(7);
            assert(v@.map_values(|o: i32| o as int) =~= chord_offsets(*self));
            return v;
        }
        let third: i32 = match self.sus_or_add {
            SusOrAdd::Sus2 => 2,
            SusOrAdd::Sus4 => 5,
            SusOrAdd::Sus4Plus => 6,
            _ => if self.minor {
                3
            } else {
                4
            },
        };
        v.push(third);
        let fifth: i32 = match self.fifth_state {
            FifthState::Dim => 6,
            FifthState::Norm => 7,
            FifthState::Aug => 8,
        };
        v.push(fifth);
        match self.sus_or_add {
            SusOrAdd::Add2 => v.push(2),
            SusOrAdd::Add4 => v.push(5),
            _ => match self.chord_type {
                ChordType::SixthMinus => v.push(8),
                ChordType::Sixth => v.push(9),
                ChordType::Seventh => v.push(10),
                ChordType::MajSeventh => v.push(11),
                ChordType::Nineth => {
                    v.push(2);
                    v.push(10);
                },
                ChordType::Eleventh => {
                    v.push(2);
                    v.push(5);
                    v.push(10);
                },
                ChordType::Thirteenth => {
                    v.push(2);
                    v.push(5);
                    v.push(9);
                    v.push(10);
                },
                _ => {},
            },
        }
        assert(v@.map_values(|o: i32| o as int) =~= chord_offsets(*self));
        v
    }

    /// Whether the two chords have the same text and the same fields.
    pub fn same(&self, other: &Chord) -> (r: bool)
        ensures
            r == (self.text@ == other.text@ && self.fields() == other.fields()),
    {
        self.text == other.text && self.keynote == other.keynote && self.minor == other.minor
            && self.chord_type == other.chord_type && self.fifth_state == other.fifth_state
            && self.sus_or_add == other.sus_or_add
    }

    /// The notes the chord needs, root first (see `chord_notes`).
    pub fn required_notes(&self) -> (r: Vec<Note>)
        ensures
            r@ == chord_notes(*self),
    {
        let offs = self.offsets();
        let ghost spec_offs = chord_offsets(*self);
        let mut notes: Vec<Note> = Vec::new();
        let mut i: usize = 0;
        while i < offs.len()
            invariant
                0 <= i <= offs@.len(),
                offs@.map_values(|o: i32| o as int) == spec_offs,
                spec_offs == chord_offsets(*self),
                notes@ == spec_offs.take(i as int).map_values(|o: int| shifted(self.keynote, o)),
            decreases offs@.len() - i,
        {
            assert(spec_offs[i as int] == offs@[i as int] as int);
            notes.push(self.keynote.transpose(offs[i]));
            i = i + 1;
            assert(notes@ =~= spec_offs.take(i as int).map_values(|o: int| shifted(self.keynote, o)));
        }
        assert(spec_offs.take(i as int) =~= spec_offs);
        notes
    }

    /// The hand shapes for this chord under `tuning` (see `shapes`), labelled with the
    /// chord's text: each one sounds every note the chord needs, is not all muted and
    /// takes at most four fingers.
    pub fn get_fingerings(&self, tuning: &[Note; STRINGS]) -> (r: Vec<Fingering>)
        ensures
            forall|board: Fretboard|
                is_board_of(board, tuning@) ==> r@.map_values(|f: Fingering| f.strings@)
                    == shapes(board, chord_notes(*self)),
            forall|board: Fretboard, i: int|
                is_board_of(board, tuning@) && 0 <= i < r@.len() ==> #[trigger] sounds_all(
                    board,
                    r@[i].strings@,
                    chord_notes(*self),
                ),
            forall|i: int|
                0 <= i < r@.len() ==> {
                    &&& #[trigger] r@[i].wf()
                    &&& !all_muted(r@[i].strings@)
                    &&& finger_count(r@[i].strings@) <= 4
                    &&& opt_title(r@[i].title) == Some(self.text@)
                },
    {
        let notes = self.required_notes();
        get_titled_chords(tuning, &notes, &Some(self.text.clone()))
    }

    /// Moves the root one semitone up and respells it in the text.
    pub fn do_step_right(&mut self)
        requires
            old(self).has_root_text(),
        ensures
            final(self).keynote == shifted(old(self).keynote, 1),
            final(self).text@ == note_text(final(self).keynote) + suffix_after(
                old(self).text@,
                old(self).keynote,
            ),
            final(self).minor == old(self).minor,
            final(self).chord_type == old(self).chord_type,
            final(self).fifth_state == old(self).fifth_state,
            final(self).sus_or_add == old(self).sus_or_add,
    {
        let mut k = self.keynote;
        k.increase();
        self.respell(k);
    }

    /// Moves the root one semitone down and respells it in the text.
    pub fn do_step_left(&mut self)
        requires
            old(self).has_root_text(),
        ensures
            final(self).keynote == shifted(old(self).keynote, -1),
            final(self).text@ == note_text(final(self).keynote) + suffix_after(
                old(self).text@,
                old(self).keynote,
            ),
            final(self).minor == old(self).minor,
            final(self).chord_type == old(self).chord_type,
            final(self).fifth_state == old(self).fifth_state,
            final(self).sus_or_add == old(self).sus_or_add,
    {
        let mut k = self.keynote;
        k.decrease();
        self.respell(k);
    }

    fn respell(&mut self, k: Note)
        requires
            old(self).has_root_text(),
        ensures
            final(self).keynote == k,
            final(self).text@ == note_text(k) + suffix_after(old(self).text@, old(self).keynote),
            final(self).minor == old(self).minor,
            final(self).chord_type == old(self).chord_type,
            final(self).fifth_state == old(self).fifth_state,
            final(self).sus_or_add == old(self).sus_or_add,
    {
        let old_len = text_len(self.keynote);
        let total = self.text.as_str().unicode_len();
        let mut text = k.get_text();
        text.append(self.text.as_str().substring_char(old_len, total));
        self.text = text;
        self.keynote = k;
    }

    /// The chord `steps` semitones away (see `is_transposition`).
    pub fn transpose(&self, steps: i32) -> (r: Chord)
        requires
            self.has_root_text(),
        ensures
            is_transposition(*self, steps as int, r),
            r.has_root_text(),
    {
        let mut chord = self.copy();
        let ghost suffix = suffix_after(self.text@, self.keynote);
        if steps >= 0 {
            let n: u32 = (steps as u32) % 12;
            let mut i: u32 = 0;
            while i < n
                invariant
                    i <= n,
                    chord.keynote == shifted(self.keynote, i as int),
                    chord.fields() == (chord.keynote, self.minor, self.chord_type, self.fifth_state, self.sus_or_add),
                    chord.has_root_text(),
                    suffix == suffix_after(self.text@, self.keynote),
                    i == 0 ==> chord.text@ == self.text@,
                    i > 0 ==> chord.text@ == note_text(chord.keynote) + suffix,
                decreases n - i,
            {
                proof {
                    lemma_transpose_compose(self.keynote, i as int, 1);
                    lemma_note_at_index(self.keynote, 0);
                }
                let ghost before = chord.text@;
                chord.do_step_right();
                proof {
                    if i > 0 {
                        assert(suffix_after(before, shifted(self.keynote, i as int)) =~= suffix);
                    }
                }
                i = i + 1;
            }
            proof {
                self.lemma_steps_mod(steps as int, n as int);
            }
        } else {
            let n: u64 = ((-(steps as i64)) as u64) % 12;
            let mut i: u64 = 0;
            while i < n
                invariant
                    i <= n,
                    chord.keynote == shifted(self.keynote, -(i as int)),
                    chord.fields() == (chord.keynote, self.minor, self.chord_type, self.fifth_state, self.sus_or_add),
                    chord.has_root_text(),
                    suffix == suffix_after(self.text@, self.keynote),
                    i == 0 ==> chord.text@ == self.text@,
                    i > 0 ==> chord.text@ == note_text(chord.keynote) + suffix,
                decreases n - i,
            {
                proof {
                    lemma_transpose_compose(self.keynote, -(i as int), -1);
                    lemma_note_at_index(self.keynote, 0);
                }
                let ghost before = chord.text@;
                chord.do_step_left();
                proof {
                    if i > 0 {
                        assert(suffix_after(before, shifted(self.keynote, -(i as int))) =~= suffix);
                    }
                }
                i = i + 1;
            }
            proof {
                self.lemma_steps_mod(steps as int, -(n as int));
            }
        }
        chord
    }

    proof fn lemma_steps_mod(&self, steps: int, m: int)
        requires
            -12 < m < 12,
            steps >= 0 ==> m == steps % 12,
            steps < 0 ==> m == -((-steps) % 12),
        ensures
            shifted(self.keynote, m) == shifted(self.keynote, steps),
            (m == 0) == (steps % 12 == 0),
    {
        let i = note_index(self.keynote);
        lemma_note_at_index(self.keynote, i + m);
        lemma_note_at_index(self.keynote, i + steps);
        if steps >= 0 {
            vstd::arithmetic::div_mod::lemma_add_mod_noop(i, steps, 12);
            vstd::arithmetic::div_mod::lemma_add_mod_noop(i, m, 12);
            vstd::arithmetic::div_mod::lemma_mod_twice(steps, 12);
        } else {
            vstd::arithmetic::div_mod::lemma_sub_mod_noop(i, -steps, 12);
            vstd::arithmetic::div_mod::lemma_sub_mod_noop(i, -m, 12);
            vstd::arithmetic::div_mod::lemma_mod_twice(-steps, 12);
            vstd::arithmetic::div_mod::lemma_mod_neg_neg(steps, 12);
        }
    }
}

} // verus!
