use vstd::prelude::*;
use vstd::string::*;

verus! {

/// Number of strings on the guitar.
pub const STRINGS: usize = 6;

/// One of the twelve pitch classes, in cyclic order starting at A.
#[derive(Debug, Clone, Copy, PartialEq, Eq, Structural)]
pub enum Note {
    A,
    ASharp,
    B,
    C,
    CSharp,
    D,
    DSharp,
    E,
    F,
    FSharp,
    G,
    GSharp,
}

/// Position of a note in the cycle `A, A#, B, ..., G#`.
pub open spec fn note_index(n: Note) -> int {
    match n {
        Note::A => 0,
        Note::ASharp => 1,
        Note::B => 2,
        Note::C => 3,
        Note::CSharp => 4,
        Note::D => 5,
        Note::DSharp => 6,
        Note::E => 7,
        Note::F => 8,
        Note::FSharp => 9,
        Note::G => 10,
        Note::GSharp => 11,
    }
}

/// The note at position `i` of the cycle, taken modulo twelve.
pub open spec fn note_at(i: int) -> Note {
    let r = i % 12;
    if r == 0 {
        Note::A
    } else if r == 1 {
        Note::ASharp
    } else if r == 2 {
        Note::B
    } else if r == 3 {
        Note::C
    } else if r == 4 {
        Note::CSharp
    } else if r == 5 {
        Note::D
    } else if r == 6 {
        Note::DSharp
    } else if r == 7 {
        Note::E
    } else if r == 8 {
        Note::F
    } else if r == 9 {
        Note::FSharp
    } else if r == 10 {
        Note::G
    } else {
        Note::GSharp
    }
}

/// The note `k` semitones above `n` (below, for negative `k`).
pub open spec fn shifted(n: Note, k: int) -> Note {
    note_at(note_index(n) + k)
}

/// The canonical spelling of a note: a letter, then `#` for the sharps.
pub open spec fn note_text(n: Note) -> Seq<char> {
    match n {
        Note::A => seq!['A'],
        Note::ASharp => seq!['A', '#'],
        Note::B => seq!['B'],
        Note::C => seq!['C'],
        Note::CSharp => seq!['C', '#'],
        Note::D => seq!['D'],
        Note::DSharp => seq!['D', '#'],
        Note::E => seq!['E'],
        Note::F => seq!['F'],
        Note::FSharp => seq!['F', '#'],
        Note::G => seq!['G'],
        Note::GSharp => seq!['G', '#'],
    }
}

/// The natural note written with the letter `c`.
pub open spec fn letter_note(c: char) -> Option<Note> {
    if c == 'A' {
        Some(Note::A)
    } else if c == 'B' {
        Some(Note::B)
    } else if c == 'C' {
        Some(Note::C)
    } else if c == 'D' {
        Some(Note::D)
    } else if c == 'E' {
        Some(Note::E)
    } else if c == 'F' {
        Some(Note::F)
    } else if c == 'G' {
        Some(Note::G)
    } else {
        None
    }
}

/// The note spelled by exactly the characters of `s`: a letter, optionally followed
/// by `#` (one semitone up) or `b` (one semitone down). `B#` and `E#` are not
/// spellings; `Cb` and `Fb` are.
pub open spec fn parse_note(s: Seq<char>) -> Option<Note> {
    if s.len() == 1 {
        letter_note(s[0])
    } else if s.len() == 2 && s[1] == '#' && s[0] != 'B' && s[0] != 'E' {
        match letter_note(s[0]) {
            Some(n) => Some(shifted(n, 1)),
            None => None,
        }
    } else if s.len() == 2 && s[1] == 'b' {
        match letter_note(s[0]) {
            Some(n) => Some(shifted(n, -1)),
            None => None,
        }
    } else {
        None
    }
}

/// The upper-case form of a note letter `a` to `g`; other characters stay as they are.
pub open spec fn upper(c: char) -> char {
    if c == 'a' {
        'A'
    } else if c == 'b' {
        'B'
    } else if c == 'c' {
        'C'
    } else if c == 'd' {
        'D'
    } else if c == 'e' {
        'E'
    } else if c == 'f' {
        'F'
    } else if c == 'g' {
        'G'
    } else {
        c
    }
}

/// The major key named by `s`: a note spelling (its letter in either case) names
/// that major key, and the same spelling followed by `m` names the minor key,
/// whose relative major lies three semitones up.
pub open spec fn parse_key(s: Seq<char>) -> Option<Note> {
    let root = if s.len() > 0 { s.take(1).update(0, upper(s[0])) + s.skip(1) } else { s };
    if s.len() > 1 && s[s.len() - 1] == 'm' {
        match parse_note(root.take(root.len() - 1)) {
            Some(n) => Some(shifted(n, 3)),
            None => None,
        }
    } else {
        parse_note(root)
    }
}

/// Every note is `note_at` of its index, and `note_at` depends on its argument
/// modulo twelve only.
pub proof fn lemma_note_at_index(n: Note, i: int)
    ensures
        note_at(note_index(n)) == n,
        0 <= note_index(note_at(i)) < 12,
        note_index(note_at(i)) == i % 12,
        note_at(i % 12) == note_at(i),
{
}

/// Transposing by `k` and then by `-k` gives the note back.
pub proof fn lemma_transpose_inverse(n: Note, k: int)
    ensures
        shifted(shifted(n, k), -k) == n,
{
    lemma_note_at_index(n, note_index(n) + k);
    let m = shifted(n, k);
    assert(note_index(m) == (note_index(n) + k) % 12);
    assert((((note_index(n) + k) % 12) - k) % 12 == note_index(n)) by {
        vstd::arithmetic::div_mod::lemma_sub_mod_noop(note_index(n) + k, k, 12);
        vstd::arithmetic::div_mod::lemma_mod_twice(k, 12);
        vstd::arithmetic::div_mod::lemma_sub_mod_noop_right(note_index(n) + k, k, 12);
    }
}

/// Transposing by `j` and then by `k` is transposing by `j + k`.
pub proof fn lemma_transpose_compose(n: Note, j: int, k: int)
    ensures
        shifted(shifted(n, j), k) == shifted(n, j + k),
{
    lemma_note_at_index(n, note_index(n) + j);
    assert(((note_index(n) + j) % 12 + k) % 12 == (note_index(n) + j + k) % 12) by {
        vstd::arithmetic::div_mod::lemma_add_mod_noop(note_index(n) + j, k, 12);
        vstd::arithmetic::div_mod::lemma_mod_twice(note_index(n) + j, 12);
        vstd::arithmetic::div_mod::lemma_add_mod_noop(note_index(n) + j, k, 12);
    }
    lemma_note_at_index(n, note_index(n) + j + k);
    lemma_note_at_index(n, (note_index(n) + j) % 12 + k);
}

/// Reading the canonical spelling of a note gives the note back.
pub proof fn lemma_parse_text(n: Note)
    ensures
        parse_note(note_text(n)) == Some(n),
{
}

/// `Bb` and `A#` spell the same note, `Cb` is B and `Fb` is E.
pub proof fn lemma_flat_aliases()
    ensures
        parse_note(seq!['B', 'b']) == parse_note(seq!['A', '#']),
        parse_note(seq!['C', 'b']) == Some(Note::B),
        parse_note(seq!['F', 'b']) == Some(Note::E),
{
}

/// Relies on `String::push`, which appends the character to the end of the string.
pub assume_specification[ String::push ](s: &mut String, ch: char)
    ensures
        final(s)@ == old(s)@.push(ch),
;

/// Appends the characters of `t` to `s`.
pub fn push_seq(s: &mut String, t: &[char])
    ensures
        final(s)@ == old(s)@ + t@,
{
    let mut i: usize = 0;
    while i < t.len()
        invariant
            0 <= i <= t@.len(),
            s@ == old(s)@ + t@.take(i as int),
        decreases t@.len() - i,
    {
        s.push(t[i]);
        i = i + 1;
        assert(t@.take(i as int) == t@.take(i as int - 1).push(t@[i as int - 1]));
    }
    assert(t@.take(t@.len() as int) == t@);
}

/// The characters of a string slice, as a vector.
pub fn chars_of(s: &str) -> (r: Vec<char>)
    ensures
        r@ == s@,
{
    let n = s.unicode_len();
    let mut r: Vec<char> = Vec::new();
    let mut i: usize = 0;
    while i < n
        invariant
            n == s@.len(),
            0 <= i <= n,
            r@ == s@.take(i as int),
        decreases n - i,
    {
        r.push(s.get_char(i));
        i = i + 1;
        assert(s@.take(i as int) == s@.take(i as int - 1).push(s@[i as int - 1]));
    }
    assert(s@.take(n as int) == s@);
    r
}

fn letter(c: char) -> (r: Option<Note>)
    ensures
        r == letter_note(c),
{
    match c {
        'A' => Some(Note::A),
        'B' => Some(Note::B),
        'C' => Some(Note::C),
        'D' => Some(Note::D),
        'E' => Some(Note::E),
        'F' => Some(Note::F),
        'G' => Some(Note::G),
        _ => None,
    }
}

pub fn note_of_chars(s: &[char]) -> (r: Option<Note>)
    ensures
        r == parse_note(s@),
{
    if s.len() == 1 {
        letter(s[0])
    } else if s.len() == 2 && s[1] == '#' && s[0] != 'B' && s[0] != 'E' {
        match letter(s[0]) {
            Some(n) => Some(n.transpose(1)),
            None => None,
        }
    } else if s.len() == 2 && s[1] == 'b' {
        match letter(s[0]) {
            Some(n) => Some(n.transpose(-1)),
            None => None,
        }
    } else {
        None
    }
}

impl Note {
    /// Reads a note spelled with sharps or flats (`A`, `A#`, `Bb`, `Cb`, ...).
    pub fn new(s: &str) -> (r: Option<Note>)
        ensures
            r == parse_note(s@),
    {
        let v = chars_of(s);
        note_of_chars(v.as_slice())
    }

    /// Reads a key (`C`, `Am`, `a#m`, `Bbm`, ...) as the keynote of its major key.
    pub fn get_key(s: &str) -> (r: Option<Note>)
        ensures
            r == parse_key(s@),
    {
        let mut v = chars_of(s);
        let ghost root = if s@.len() > 0 {
            s@.take(1).update(0, upper(s@[0])) + s@.skip(1)
        } else {
            s@
        };
        if v.len() > 0 {
            let c = v[0];
            let u = match c {
                'a' => 'A',
                'b' => 'B',
                'c' => 'C',
                'd' => 'D',
                'e' => 'E',
                'f' => 'F',
                'g' => 'G',
                _ => c,
            };
            v.set(0, u);
        }
        assert(v@ == root);
        if v.len() > 1 && v[v.len() - 1] == 'm' {
            let last = v.len() - 1;
            let r = v.as_slice().split_at(last).0;
            assert(r@ == root.take(root.len() - 1));
            match note_of_chars(r) {
                Some(n) => Some(n.transpose(3)),
                None => None,
            }
        } else {
            note_of_chars(v.as_slice())
        }
    }

    /// The canonical spelling, with sharps.
    pub fn get_text(&self) -> (r: String)
        ensures
            r@ == note_text(*self),
    {
        let mut s = String::new();
        match self {
            Note::A => push_seq(&mut s, &['A']),
            Note::ASharp => push_seq(&mut s, &['A', '#']),
            Note::B => push_seq(&mut s, &['B']),
            Note::C => push_seq(&mut s, &['C']),
            Note::CSharp => push_seq(&mut s, &['C', '#']),
            Note::D => push_seq(&mut s, &['D']),
            Note::DSharp => push_seq(&mut s, &['D', '#']),
            Note::E => push_seq(&mut s, &['E']),
            Note::F => push_seq(&mut s, &['F']),
            Note::FSharp => push_seq(&mut s, &['F', '#']),
            Note::G => push_seq(&mut s, &['G']),
            Note::GSharp => push_seq(&mut s, &['G', '#']),
        }
        s
    }

    /// Moves one semitone up.
    pub fn increase(&mut self)
        ensures
            *final(self) == shifted(*old(self), 1),
    {
        *self = match *self {
            Note::A => Note::ASharp,
            Note::ASharp => Note::B,
            Note::B => Note::C,
            Note::C => Note::CSharp,
            Note::CSharp => Note::D,
            Note::D => Note::DSharp,
            Note::DSharp => Note::E,
            Note::E => Note::F,
            Note::F => Note::FSharp,
            Note::FSharp => Note::G,
            Note::G => Note::GSharp,
            Note::GSharp => Note::A,
        }
    }

    /// Moves one semitone down.
    pub fn decrease(&mut self)
        ensures
            *final(self) == shifted(*old(self), -1),
    {
        *self = match *self {
            Note::A => Note::GSharp,
            Note::ASharp => Note::A,
            Note::B => Note::ASharp,
            Note::C => Note::B,
            Note::CSharp => Note::C,
            Note::D => Note::CSharp,
            Note::DSharp => Note::D,
            Note::E => Note::DSharp,
            Note::F => Note::E,
            Note::FSharp => Note::F,
            Note::G => Note::FSharp,
            Note::GSharp => Note::G,
        }
    }

    /// The note `steps` semitones away: up for positive `steps`, down for negative.
    pub fn transpose(&self, steps: i32) -> (r: Note)
        ensures
            r == shifted(*self, steps as int),
    {
        let mut note = *self;
        if steps >= 0 {
            let n: u32 = (steps as u32) % 12;
            let mut i: u32 = 0;
            while i < n
                invariant
                    i <= n,
                    note == shifted(*self, i as int),
                decreases n - i,
            {
                proof {
                    lemma_transpose_compose(*self, i as int, 1);
                }
                note.increase();
                i = i + 1;
            }
            proof {
                lemma_note_at_index(*self, note_index(*self) + n);
                lemma_note_at_index(*self, note_index(*self) + steps);
                vstd::arithmetic::div_mod::lemma_add_mod_noop(note_index(*self), steps as int, 12);
                vstd::arithmetic::div_mod::lemma_add_mod_noop(note_index(*self), n as int, 12);
                vstd::arithmetic::div_mod::lemma_mod_twice(steps as int, 12);
            }
        } else {
            let n: u64 = ((-(steps as i64)) as u64) % 12;
            let mut i: u64 = 0;
            while i < n
                invariant
                    i <= n,
                    note == shifted(*self, -(i as int)),
                decreases n - i,
            {
                proof {
                    lemma_transpose_compose(*self, -(i as int), -1);
                }
                note.decrease();
                i = i + 1;
            }
            proof {
                let m = -(steps as int);
                assert(n as int == m % 12);
                lemma_note_at_index(*self, note_index(*self) - n);
                lemma_note_at_index(*self, note_index(*self) + steps);
                vstd::arithmetic::div_mod::lemma_sub_mod_noop(note_index(*self), m, 12);
                vstd::arithmetic::div_mod::lemma_sub_mod_noop(note_index(*self), n as int, 12);
                vstd::arithmetic::div_mod::lemma_mod_twice(m, 12);
            }
        }
        note
    }
}

} // verus!
