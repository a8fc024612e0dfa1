use vstd::prelude::*;

use crate::fingering::{
    finger_count, frets_in_range, num_text, push_num, rep, Fingering, StringState,
};
use crate::note::{lemma_transpose_compose, note_text, push_seq, shifted, Note, STRINGS};

verus! {

/// Number of frets on the board, the open position included.
pub const FRETS: usize = 25;

/// How many consecutive frets one shape may span.
pub const MAX_CHORD_SIZE: u8 = 4;

/// The note of each string at each fret.
pub type Fretboard = [[Note; FRETS]; STRINGS];

/// The board built from `tuning` holds `tuning[s]` moved up by `f` at string `s`, fret `f`.
pub open spec fn is_board_of(board: Fretboard, tuning: Seq<Note>) -> bool {
    forall|s: int, f: int|
        0 <= s < STRINGS && 0 <= f < FRETS ==> #[trigger] board[s][f] == shifted(tuning[s], f)
}

/// The note that string `i` sounds in state `st`, or none when it is muted.
pub open spec fn sounded(board: Fretboard, i: int, st: StringState) -> Option<Note> {
    match st {
        StringState::Muted => None,
        StringState::Open => Some(board[i][0]),
        StringState::FrettedOn(f) => Some(board[i][f as int]),
    }
}

/// The first fret from `f` up to `end` (excluded) where the string plays one of `notes`.
pub open spec fn first_match(row: [Note; FRETS], notes: Seq<Note>, f: int, end: int) -> Option<int>
    decreases end - f,
{
    if f >= end || f >= FRETS {
        None
    } else if f >= 1 && notes.contains(row[f]) {
        Some(f)
    } else {
        first_match(row, notes, f + 1, end)
    }
}

/// How one string is set when a shape is sought from fret `from`: open when its
/// open note is needed, pressed on the first fret of the four from `from` on that
/// plays a needed note. With `is_open` an open string stays open; without it the
/// pressed fret wins.
pub open spec fn string_choice(row: [Note; FRETS], notes: Seq<Note>, from: int, is_open: bool) -> StringState {
    let first = if notes.contains(row[0]) {
        StringState::Open
    } else {
        StringState::Muted
    };
    match first_match(row, notes, from, from + MAX_CHORD_SIZE) {
        None => first,
        Some(f) => if is_open && first == StringState::Open {
            first
        } else {
            StringState::FrettedOn(f as u8)
        },
    }
}

/// Every string set by `string_choice`.
pub open spec fn chosen(board: Fretboard, notes: Seq<Note>, from: int, is_open: bool) -> Seq<StringState> {
    Seq::new(STRINGS as nat, |i: int| string_choice(board[i], notes, from, is_open))
}

/// Walking from the bass string (the last one) towards the first, mutes each
/// sounding string that does not play `bass`, and stops at the first that does.
/// Only strings below index `n` are looked at.
pub open spec fn mute_to_root(board: Fretboard, st: Seq<StringState>, bass: Note, n: int) -> Seq<StringState>
    decreases n,
{
    if n <= 0 {
        st
    } else if st[n - 1] is Muted {
        mute_to_root(board, st, bass, n - 1)
    } else if sounded(board, n - 1, st[n - 1]) == Some(bass) {
        st
    } else {
        mute_to_root(board, st.update(n - 1, StringState::Muted), bass, n - 1)
    }
}

/// Every string of the shape is muted.
pub open spec fn all_muted(st: Seq<StringState>) -> bool {
    forall|i: int| 0 <= i < st.len() ==> #[trigger] st[i] is Muted
}

/// Some string of the shape sounds note `n`.
pub open spec fn sounds(board: Fretboard, st: Seq<StringState>, n: Note) -> bool {
    exists|i: int| 0 <= i < st.len() && #[trigger] sounded(board, i, st[i]) == Some(n)
}

/// Every note of `notes` is sounded by the shape.
pub open spec fn sounds_all(board: Fretboard, st: Seq<StringState>, notes: Seq<Note>) -> bool {
    forall|k: int| 0 <= k < notes.len() ==> sounds(board, st, #[trigger] notes[k])
}

/// The shape found from fret `from`, if it sounds something and sounds all of `notes`.
pub open spec fn shape_from(
    board: Fretboard,
    notes: Seq<Note>,
    from: int,
    right_bass: bool,
    is_open: bool,
) -> Option<Seq<StringState>> {
    let st0 = chosen(board, notes, from, is_open);
    let st = if right_bass {
        mute_to_root(board, st0, notes[0], STRINGS as int)
    } else {
        st0
    };
    if all_muted(st) || !sounds_all(board, st, notes) {
        None
    } else {
        Some(st)
    }
}

/// The shapes kept after the first `k` tries: try `t` starts at fret `t / 2`, with
/// open strings kept on even tries; a shape is kept when it takes at most four
/// fingers and was not kept before.
pub open spec fn shapes_upto(board: Fretboard, notes: Seq<Note>, k: int) -> Seq<Seq<StringState>>
    decreases k,
{
    if k <= 0 {
        Seq::empty()
    } else {
        let prev = shapes_upto(board, notes, k - 1);
        match shape_from(board, notes, (k - 1) / 2, true, (k - 1) % 2 == 0) {
            Some(st) => if frets_in_range(st) && finger_count(st) <= 4 && !prev.contains(st) {
                prev.push(st)
            } else {
                prev
            },
            None => prev,
        }
    }
}

/// The shapes for `notes` on `board`: all tries from frets 0 to 11.
pub open spec fn shapes(board: Fretboard, notes: Seq<Note>) -> Seq<Seq<StringState>> {
    shapes_upto(board, notes, 24)
}

/// Every shape kept sounds all of `notes`, sounds something, and takes at most four
/// fingers.
pub proof fn lemma_shapes_playable(board: Fretboard, notes: Seq<Note>, k: int)
    requires
        notes.len() > 0,
    ensures
        forall|j: int|
            0 <= j < shapes_upto(board, notes, k).len() ==> {
                let st = #[trigger] shapes_upto(board, notes, k)[j];
                &&& sounds_all(board, st, notes)
                &&& !all_muted(st)
                &&& finger_count(st) <= 4
                &&& frets_in_range(st)
            },
    decreases k,
{
    if k > 0 {
        lemma_shapes_playable(board, notes, k - 1);
        let prev = shapes_upto(board, notes, k - 1);
        match shape_from(board, notes, (k - 1) / 2, true, (k - 1) % 2 == 0) {
            Some(st) => {
                if frets_in_range(st) && finger_count(st) <= 4 && !prev.contains(st) {
                    assert(shapes_upto(board, notes, k) == prev.push(st));
                    assert forall|j: int| 0 <= j < prev.len() + 1 implies {
                        let x = #[trigger] prev.push(st)[j];
                        &&& sounds_all(board, x, notes)
                        &&& !all_muted(x)
                        &&& finger_count(x) <= 4
                        &&& frets_in_range(x)
                    } by {
                        if j < prev.len() {
                            assert(prev.push(st)[j] == prev[j]);
                        }
                    }
                }
            },
            None => {},
        }
    }
}

/// The note at every string and fret for `tuning`.
pub fn get_fretboard(tuning: &[Note; STRINGS]) -> (r: Fretboard)
    ensures
        is_board_of(r, tuning@),
{
    let mut board: Fretboard = [[Note::A; FRETS]; STRINGS];
    let mut s: usize = 0;
    while s < STRINGS
        invariant
            0 <= s <= STRINGS,
            forall|i: int, f: int|
                0 <= i < s && 0 <= f < FRETS ==> #[trigger] board[i][f] == shifted(tuning[i], f),
        decreases STRINGS - s,
    {
        let mut row: [Note; FRETS] = [Note::A; FRETS];
        let mut note = tuning[s];
        let mut f: usize = 0;
        proof {
            crate::note::lemma_note_at_index(tuning[s as int], 0);
        }
        while f < FRETS
            invariant
                0 <= f <= FRETS,
                s < STRINGS,
                note == shifted(tuning[s as int], f as int),
                forall|g: int| 0 <= g < f ==> #[trigger] row[g] == shifted(tuning[s as int], g),
            decreases FRETS - f,
        {
            row[f] = note;
            proof {
                lemma_transpose_compose(tuning[s as int], f as int, 1);
            }
            note.increase();
            f = f + 1;
        }
        board[s] = row;
        s = s + 1;
    }
    board
}

/// A note's name padded with spaces to four columns.
pub open spec fn note_cell(n: Note) -> Seq<char> {
    note_text(n) + rep(seq![' '], 4 - note_text(n).len())
}

/// The names at fret `f` of strings 5 down to `lo`.
pub open spec fn board_row(board: Fretboard, f: int, lo: int) -> Seq<char>
    decreases STRINGS - lo,
{
    if lo < 0 || lo >= STRINGS {
        Seq::empty()
    } else {
        board_row(board, f, lo + 1) + note_cell(board[lo][f])
    }
}

/// The row of bare strings of the fretboard drawing.
pub open spec fn board_strings() -> Seq<char> {
    rep(seq!['|', ' ', ' ', ' '], STRINGS as int)
}

/// The part of the fretboard drawing for fret `f`: the open notes above a line of
/// `=`, every other fret between rows of strings and above a line of `-` with its
/// number.
pub open spec fn board_fret(board: Fretboard, f: int) -> Seq<char> {
    if f == 0 {
        seq!['\n'] + board_row(board, 0, 0) + seq!['\n'] + rep(seq!['='], 21) + seq!['\n']
    } else {
        board_strings() + seq!['\n'] + board_row(board, f, 0) + seq!['\n'] + board_strings()
            + seq!['\n'] + rep(seq!['-'], 21) + seq![' '] + num_text(f) + seq!['\n']
    }
}

/// The drawing of frets `0..n` of the board.
pub open spec fn board_text(board: Fretboard, n: int) -> Seq<char>
    decreases n,
{
    if n <= 0 {
        Seq::empty()
    } else {
        board_text(board, n - 1) + board_fret(board, n - 1)
    }
}

/// The whole fretboard for `tuning` drawn as text, the bass string on the left
/// (see `board_text`).
pub fn fretboard_text(tuning: &[Note; STRINGS]) -> (r: String)
    ensures
        forall|board: Fretboard| is_board_of(board, tuning@) ==> r@ == board_text(board, FRETS as int),
{
    let board = get_fretboard(tuning);
    let mut s = String::new();
    let mut f: usize = 0;
    while f < FRETS
        invariant
            0 <= f <= FRETS,
            s@ == board_text(board, f as int),
        decreases FRETS - f,
    {
        if f != 0 {
            push_board_strings(&mut s);
        }
        s.push('\n');
        let mut lo: usize = STRINGS;
        let ghost before = s@;
        while lo > 0
            invariant
                lo <= STRINGS,
                f < FRETS,
                s@ == before + board_row(board, f as int, lo as int),
            decreases lo,
        {
            lo = lo - 1;
            let n = board[lo][f];
            let t = n.get_text();
            s.append(t.as_str());
            if t.as_str().unicode_len() == 1 {
                push_seq(&mut s, &[' ', ' ', ' ']);
                proof {
                    reveal_with_fuel(rep, 4);
                }
                assert(rep(seq![' '], 3) =~= seq![' ', ' ', ' ']);
            } else {
                push_seq(&mut s, &[' ', ' ']);
                proof {
                    reveal_with_fuel(rep, 3);
                }
                assert(rep(seq![' '], 2) =~= seq![' ', ' ']);
            }
            assert(s@ =~= before + board_row(board, f as int, lo as int));
        }
        s.push('\n');
        if f != 0 {
            push_board_strings(&mut s);
            s.push('\n');
            let mut k: usize = 0;
            while k < 21
                invariant
                    0 <= k <= 21,
                    s@ == before + board_row(board, f as int, 0) + seq!['\n'] + board_strings() + seq!['\n'] + rep(seq!['-'], k as int),
                decreases 21 - k,
            {
                s.push('-');
                k = k + 1;
            }
            s.push(' ');
            push_num(&mut s, f as u8);
            s.push('\n');
        } else {
            let mut k: usize = 0;
            while k < 21
                invariant
                    0 <= k <= 21,
                    s@ == before + board_row(board, f as int, 0) + seq!['\n'] + rep(seq!['='], k as int),
                decreases 21 - k,
            {
                s.push('=');
                k = k + 1;
            }
            s.push('\n');
        }
        f = f + 1;
    }
    proof {
        assert forall|b: Fretboard| is_board_of(b, tuning@) implies b == board by {
            lemma_board_unique(b, board, tuning@);
        }
    }
    s
}

fn push_board_strings(s: &mut String)
    ensures
        final(s)@ == old(s)@ + board_strings(),
{
    let mut i: usize = 0;
    while i < STRINGS
        invariant
            0 <= i <= STRINGS,
            s@ == old(s)@ + rep(seq!['|', ' ', ' ', ' '], i as int),
        decreases STRINGS - i,
    {
        push_seq(s, &['|', ' ', ' ', ' ']);
        i = i + 1;
    }
}

/// Whether `notes` holds `n`.
fn has_note(notes: &Vec<Note>, n: Note) -> (r: bool)
    ensures
        r == notes@.contains(n),
{
    let mut i: usize = 0;
    while i < notes.len()
        invariant
            0 <= i <= notes@.len(),
            forall|k: int| 0 <= k < i ==> notes@[k] != n,
        decreases notes@.len() - i,
    {
        if notes[i] == n {
            return true;
        }
        i = i + 1;
    }
    false
}

/// The note string `string_num` sounds in state `position` (see `sounded`).
pub fn get_note_from_position(board: &Fretboard, position: StringState, string_num: usize) -> (r:
    Option<Note>)
    requires
        string_num < STRINGS,
        position matches StringState::FrettedOn(f) ==> f < FRETS,
    ensures
        r == sounded(*board, string_num as int, position),
{
    match position {
        StringState::Muted => None,
        StringState::Open => Some(board[string_num][0]),
        StringState::FrettedOn(f) => Some(board[string_num][f as usize]),
    }
}

/// The string number seen at step `i` of a walk from the last string to the first.
pub fn get_reversed_string_num(i: usize) -> (r: usize)
    requires
        i < STRINGS,
    ensures
        r == STRINGS - 1 - i,
{
    STRINGS - 1 - i
}

fn scan_string(row: &[Note; FRETS], notes: &Vec<Note>, from: u8, is_open: bool) -> (r: StringState)
    requires
        from < FRETS,
    ensures
        r == string_choice(*row, notes@, from as int, is_open),
{
    let first = if has_note(notes, row[0]) {
        StringState::Open
    } else {
        StringState::Muted
    };
    let end: u8 = from + MAX_CHORD_SIZE;
    let mut f: u8 = from;
    while f < end && (f as usize) < FRETS
        invariant
            from <= f,
            end == from + MAX_CHORD_SIZE,
            from < FRETS,
            first == (if notes@.contains(row[0]) {
                StringState::Open
            } else {
                StringState::Muted
            }),
            first_match(*row, notes@, f as int, end as int) == first_match(
                *row,
                notes@,
                from as int,
                end as int,
            ),
        decreases end - f,
    {
        if f >= 1 && has_note(notes, row[f as usize]) {
            assert(first_match(*row, notes@, f as int, end as int) == Some(f as int));
            if is_open && first == StringState::Open {
                return first;
            }
            return StringState::FrettedOn(f);
        }
        f = f + 1;
    }
    first
}

/// The shape found from fret `from_fret` (see `shape_from`); `notes[0]` is the root.
pub fn generate_from_fret(
    fretboard: &Fretboard,
    notes: &Vec<Note>,
    from_fret: u8,
    right_bass: bool,
    is_open: bool,
) -> (r: Option<[StringState; STRINGS]>)
    requires
        notes@.len() > 0,
        from_fret < FRETS,
    ensures
        match r {
            None => shape_from(*fretboard, notes@, from_fret as int, right_bass, is_open) is None,
            Some(st) => shape_from(*fretboard, notes@, from_fret as int, right_bass, is_open)
                == Some(st@),
        },
{
    let ghost st0 = chosen(*fretboard, notes@, from_fret as int, is_open);
    let mut string_state: [StringState; STRINGS] = [StringState::Muted; STRINGS];
    let mut i: usize = 0;
    while i < STRINGS
        invariant
            0 <= i <= STRINGS,
            from_fret < FRETS,
            st0 == chosen(*fretboard, notes@, from_fret as int, is_open),
            forall|k: int| 0 <= k < i ==> #[trigger] string_state[k] == st0[k],
        decreases STRINGS - i,
    {
        let s = scan_string(&fretboard[i], notes, from_fret, is_open);
        string_state[i] = s;
        i = i + 1;
    }
    assert(string_state@ =~= st0);
    proof {
        lemma_choice_frets(*fretboard, notes@, from_fret as int, is_open);
    }
    if right_bass {
        let bass = notes[0];
        let ghost target = mute_to_root(*fretboard, st0, bass, STRINGS as int);
        let mut n: usize = STRINGS;
        let mut done = false;
        while n > 0 && !done
            invariant
                n <= STRINGS,
                frets_below(string_state@),
                done ==> string_state@ == target,
                !done ==> mute_to_root(*fretboard, string_state@, bass, n as int) == target,
            decreases n + if done {
                0int
            } else {
                1int
            },
        {
            let i = get_reversed_string_num(STRINGS - n);
            if string_state[i] != StringState::Muted {
                let note = get_note_from_position(fretboard, string_state[i], i);
                if note == Some(bass) {
                    done = true;
                } else {
                    string_state[i] = StringState::Muted;
                    assert(frets_below(string_state@));
                    n = n - 1;
                }
            } else {
                n = n - 1;
            }
        }
    }
    let ghost st = string_state@;
    assert(st == if right_bass {
        mute_to_root(*fretboard, st0, notes[0], STRINGS as int)
    } else {
        st0
    });
    let mut any = false;
    let mut i: usize = 0;
    while i < STRINGS
        invariant
            0 <= i <= STRINGS,
            st == string_state@,
            any == exists|k: int| 0 <= k < i && !(#[trigger] string_state@[k] is Muted),
        decreases STRINGS - i,
    {
        if string_state[i] != StringState::Muted {
            any = true;
        }
        i = i + 1;
    }
    if !any {
        return None;
    }
    let mut j: usize = 0;
    while j < notes.len()
        invariant
            0 <= j <= notes@.len(),
            st == string_state@,
            frets_below(st),
            st0 == chosen(*fretboard, notes@, from_fret as int, is_open),
            st == (if right_bass {
                mute_to_root(*fretboard, st0, notes@[0], STRINGS as int)
            } else {
                st0
            }),
            forall|k: int| 0 <= k < j ==> sounds(*fretboard, st, #[trigger] notes@[k]),
        decreases notes@.len() - j,
    {
        let mut found = false;
        let mut i: usize = 0;
        while i < STRINGS
            invariant
                0 <= i <= STRINGS,
                j < notes@.len(),
                st == string_state@,
                frets_below(st),
                found ==> sounds(*fretboard, st, notes@[j as int]),
                !found ==> forall|k: int|
                    0 <= k < i ==> #[trigger] sounded(*fretboard, k, st[k]) != Some(notes@[j as int]),
            decreases STRINGS - i,
        {
            if get_note_from_position(fretboard, string_state[i], i) == Some(notes[j]) {
                found = true;
            }
            i = i + 1;
        }
        if !found {
            assert(!sounds(*fretboard, st, notes@[j as int]));
            assert(!sounds_all(*fretboard, st, notes@));
            return None;
        }
        j = j + 1;
    }
    Some(string_state)
}

/// The shapes that sound `notes` under `tuning`, in the order they are found, each
/// once (see `shapes`); `notes[0]` is the root, which each shape has in the bass.
pub fn get_chords(tuning: &[Note; STRINGS], notes: &Vec<Note>) -> (r: Vec<Fingering>)
    requires
        notes@.len() > 0,
    ensures
        forall|board: Fretboard|
            is_board_of(board, tuning@) ==> r@.map_values(|f: Fingering| f.strings@) == shapes(
                board,
                notes@,
            ),
        forall|board: Fretboard, i: int|
            is_board_of(board, tuning@) && 0 <= i < r@.len() ==> #[trigger] sounds_all(
                board,
                r@[i].strings@,
                notes@,
            ),
        forall|i: int|
            0 <= i < r@.len() ==> {
                &&& #[trigger] r@[i].wf()
                &&& !all_muted(r@[i].strings@)
                &&& finger_count(r@[i].strings@) <= 4
                &&& opt_title(r@[i].title) is None
            },
{
    let none: Option<String> = None;
    let r = get_titled_chords(tuning, notes, &none);
    assert forall|i: int| 0 <= i < r@.len() implies opt_title(#[trigger] r@[i].title) is None by {
        assert(r@[i].wf());
        assert(opt_title(r@[i].title) == opt_title(none));
    }
    r
}

/// As `get_chords`, with every shape labelled with `title`.
pub fn get_titled_chords(tuning: &[Note; STRINGS], notes: &Vec<Note>, title: &Option<String>) -> (r:
    Vec<Fingering>)
    requires
        notes@.len() > 0,
    ensures
        forall|board: Fretboard|
            is_board_of(board, tuning@) ==> r@.map_values(|f: Fingering| f.strings@) == shapes(
                board,
                notes@,
            ),
        forall|board: Fretboard, i: int|
            is_board_of(board, tuning@) && 0 <= i < r@.len() ==> #[trigger] sounds_all(
                board,
                r@[i].strings@,
                notes@,
            ),
        forall|i: int|
            0 <= i < r@.len() ==> {
                &&& #[trigger] r@[i].wf()
                &&& !all_muted(r@[i].strings@)
                &&& finger_count(r@[i].strings@) <= 4
                &&& opt_title(r@[i].title) == opt_title(*title)
            },
{
    let board = get_fretboard(tuning);
    let mut fingerings: Vec<Fingering> = Vec::new();
    let mut t: u8 = 0;
    while t < 24
        invariant
            0 <= t <= 24,
            notes@.len() > 0,
            is_board_of(board, tuning@),
            fingerings@.map_values(|f: Fingering| f.strings@) == shapes_upto(board, notes@, t as int),
            forall|i: int| 0 <= i < fingerings@.len() ==> #[trigger] fingerings@[i].wf(),
            forall|i: int|
                0 <= i < fingerings@.len() ==> opt_title(#[trigger] fingerings@[i].title) == opt_title(
                    *title,
                ),
        decreases 24 - t,
    {
        let ghost prev = fingerings@.map_values(|f: Fingering| f.strings@);
        if let Some(string_state) = generate_from_fret(&board, notes, t / 2, true, t % 2 == 0) {
            if let Some(fing) = Fingering::new(string_state, copy_title(title)) {
                if !holds_shape(&fingerings, &string_state) {
                    fingerings.push(fing);
                    assert(fingerings@.map_values(|f: Fingering| f.strings@) =~= prev.push(
                        string_state@,
                    ));
                }
            }
        }
        t = t + 1;
    }
    proof {
        lemma_shapes_playable(board, notes@, 24);
        assert forall|b: Fretboard| is_board_of(b, tuning@) implies b == board by {
            lemma_board_unique(b, board, tuning@);
        }
        assert forall|i: int| 0 <= i < fingerings@.len() implies {
            &&& !all_muted(fingerings@[i].strings@)
            &&& finger_count(fingerings@[i].strings@) <= 4
            &&& sounds_all(board, fingerings@[i].strings@, notes@)
        } by {
            assert(fingerings@.map_values(|f: Fingering| f.strings@)[i] == fingerings@[i].strings@);
        }
    }
    fingerings
}

/// The characters of an optional label.
pub open spec fn opt_title(o: Option<String>) -> Option<Seq<char>> {
    match o {
        Some(s) => Some(s@),
        None => None,
    }
}

fn copy_title(o: &Option<String>) -> (r: Option<String>)
    ensures
        opt_title(r) == opt_title(*o),
{
    match o {
        Some(s) => Some(s.clone()),
        None => None,
    }
}

proof fn lemma_board_unique(a: Fretboard, b: Fretboard, tuning: Seq<Note>)
    requires
        is_board_of(a, tuning),
        is_board_of(b, tuning),
    ensures
        a == b,
{
    assert forall|s: int| 0 <= s < STRINGS implies a[s] == b[s] by {
        assert forall|f: int| 0 <= f < FRETS implies a[s][f] == b[s][f] by {}
        assert(a[s] =~= b[s]);
    }
    assert(a =~= b);
}

/// Whether one of `found` has exactly the string states `st`.
fn holds_shape(found: &Vec<Fingering>, st: &[StringState; STRINGS]) -> (r: bool)
    ensures
        r == found@.map_values(|f: Fingering| f.strings@).contains(st@),
{
    let ghost shapes = found@.map_values(|f: Fingering| f.strings@);
    let mut i: usize = 0;
    while i < found.len()
        invariant
            0 <= i <= found@.len(),
            shapes == found@.map_values(|f: Fingering| f.strings@),
            forall|k: int| 0 <= k < i ==> shapes[k] != st@,
        decreases found@.len() - i,
    {
        if same_states(&found[i].strings, st) {
            assert(shapes[i as int] == st@);
            return true;
        }
        i = i + 1;
    }
    false
}

fn same_states(a: &[StringState; STRINGS], b: &[StringState; STRINGS]) -> (r: bool)
    ensures
        r == (a@ == b@),
{
    let mut i: usize = 0;
    while i < STRINGS
        invariant
            0 <= i <= STRINGS,
            forall|k: int| 0 <= k < i ==> a@[k] == b@[k],
        decreases STRINGS - i,
    {
        if a[i] != b[i] {
            return false;
        }
        i = i + 1;
    }
    assert(a@ =~= b@);
    true
}

/// Every pressed fret of the shape lies on the board.
pub open spec fn frets_below(st: Seq<StringState>) -> bool {
    forall|i: int| 0 <= i < st.len() && #[trigger] st[i] is FrettedOn ==> st[i]->0 < FRETS
}

proof fn lemma_first_match_range(row: [Note; FRETS], notes: Seq<Note>, f: int, end: int)
    ensures
        first_match(row, notes, f, end) matches Some(g) ==> 1 <= g < FRETS && f <= g,
    decreases end - f,
{
    if f < end && f < FRETS && !(f >= 1 && notes.contains(row[f])) {
        lemma_first_match_range(row, notes, f + 1, end);
    }
}

proof fn lemma_choice_frets(board: Fretboard, notes: Seq<Note>, from: int, is_open: bool)
    ensures
        frets_below(chosen(board, notes, from, is_open)),
        frets_in_range(chosen(board, notes, from, is_open)),
{
    assert forall|i: int|
        0 <= i < STRINGS && #[trigger] chosen(board, notes, from, is_open)[i] is FrettedOn implies 1
            <= chosen(board, notes, from, is_open)[i]->0 < FRETS by {
        lemma_first_match_range(board[i], notes, from, from + MAX_CHORD_SIZE);
    }
}

} // verus!
