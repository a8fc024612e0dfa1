use vstd::prelude::*;

use crate::chord::{chord_notes, is_transposition, Chord};
use crate::fingering::{diagram_lines, Fingering};
use crate::generator::{is_board_of, shapes, Fretboard};
use crate::layout::{diagrams, layout_lines, sum_text_in_fingerings, terminated};
use crate::note::{note_at, shifted, Note, STRINGS};

verus! {

/// A song: its metadata, the chords it uses, its blocks and a general note.
#[derive(Debug)]
pub struct Song {
    pub metadata: Metadata,
    pub chord_list: Vec<Chord>,
    pub blocks: Vec<Block>,
    pub notes: Option<String>,
}

/// Title, artist, key, capo and scrolling speed (in milliseconds) of a song.
#[derive(Debug)]
pub struct Metadata {
    pub title: String,
    pub artist: String,
    pub key: Option<Note>,
    pub capo: Option<u8>,
    pub autoscroll_speed: Option<u64>,
}

/// A part of a song (a verse, a chorus), with an optional title and note.
#[derive(Debug)]
pub struct Block {
    pub title: Option<String>,
    pub notes: Option<String>,
    pub lines: Vec<Line>,
}

/// One line of a block.
#[derive(Debug)]
pub enum Line {
    TextBlock(Row),
    ChordsLine(Vec<Chord>),
    PlainText(String),
    EmptyLine,
}

/// A rhythm mark: at a character position of the text, or before the text.
#[derive(Debug, Clone, Copy, PartialEq, Eq, Structural)]
pub enum Beat {
    OnIndex { index: usize, symbol: char },
    UpBeat(char),
}

/// A chord: at a character position of the text, or before the text.
#[derive(Debug)]
pub enum ChordPosition {
    OnIndex { index: usize, chord: Chord },
    UpBeat(Chord),
}

/// A line of lyrics with its chords and rhythm marks.
#[derive(Debug)]
pub struct Row {
    pub rhythm: Option<Vec<Beat>>,
    pub chords: Option<Vec<ChordPosition>>,
    pub text: Option<String>,
}

/// The characters of an optional string.
pub open spec fn opt_text(o: Option<String>) -> Option<Seq<char>> {
    match o {
        Some(s) => Some(s@),
        None => None,
    }
}

/// The marks of an optional rhythm.
pub open spec fn opt_beats(o: Option<Vec<Beat>>) -> Option<Seq<Beat>> {
    match o {
        Some(v) => Some(v@),
        None => None,
    }
}

/// The chord of a position.
pub open spec fn position_chord(p: ChordPosition) -> Chord {
    match p {
        ChordPosition::OnIndex { chord, .. } => chord,
        ChordPosition::UpBeat(chord) => chord,
    }
}

/// `b` holds the chords of `a` transposed by `k`, pairwise.
pub open spec fn chords_transposed(a: Seq<Chord>, k: int, b: Seq<Chord>) -> bool {
    a.len() == b.len() && forall|i: int|
        0 <= i < a.len() ==> #[trigger] is_transposition(a[i], k, b[i])
}

/// `b` is position `a` with its chord transposed by `k`.
pub open spec fn position_transposed(a: ChordPosition, k: int, b: ChordPosition) -> bool {
    match (a, b) {
        (ChordPosition::UpBeat(x), ChordPosition::UpBeat(y)) => is_transposition(x, k, y),
        (
            ChordPosition::OnIndex { index: i, chord: x },
            ChordPosition::OnIndex { index: j, chord: y },
        ) => i == j && is_transposition(x, k, y),
        _ => false,
    }
}

/// `b` is row `a` with its chords transposed by `k`.
pub open spec fn row_transposed(a: Row, k: int, b: Row) -> bool {
    &&& opt_beats(a.rhythm) == opt_beats(b.rhythm)
    &&& opt_text(a.text) == opt_text(b.text)
    &&& match (a.chords, b.chords) {
        (None, None) => true,
        (Some(x), Some(y)) => x@.len() == y@.len() && forall|i: int|
            0 <= i < x@.len() ==> #[trigger] position_transposed(x@[i], k, y@[i]),
        _ => false,
    }
}

/// `b` is line `a` with its chords transposed by `k`.
pub open spec fn line_transposed(a: Line, k: int, b: Line) -> bool {
    match (a, b) {
        (Line::TextBlock(x), Line::TextBlock(y)) => row_transposed(x, k, y),
        (Line::ChordsLine(x), Line::ChordsLine(y)) => chords_transposed(x@, k, y@),
        (Line::PlainText(x), Line::PlainText(y)) => x@ == y@,
        (Line::EmptyLine, Line::EmptyLine) => true,
        _ => false,
    }
}

/// `b` is block `a` with its chords transposed by `k`.
pub open spec fn block_transposed(a: Block, k: int, b: Block) -> bool {
    &&& opt_text(a.title) == opt_text(b.title)
    &&& opt_text(a.notes) == opt_text(b.notes)
    &&& a.lines@.len() == b.lines@.len()
    &&& forall|i: int|
        0 <= i < a.lines@.len() ==> #[trigger] line_transposed(a.lines@[i], k, b.lines@[i])
}

/// Every chord of the line can have its root respelled.
pub open spec fn line_ok(l: Line) -> bool {
    match l {
        Line::TextBlock(r) => match r.chords {
            Some(cs) => forall|i: int|
                0 <= i < cs@.len() ==> #[trigger] position_chord(cs@[i]).has_root_text(),
            None => true,
        },
        Line::ChordsLine(cs) => forall|i: int| 0 <= i < cs@.len() ==> #[trigger] cs@[i].has_root_text(),
        _ => true,
    }
}

/// Every chord of the block can have its root respelled.
pub open spec fn block_ok(b: Block) -> bool {
    forall|i: int| 0 <= i < b.lines@.len() ==> #[trigger] line_ok(b.lines@[i])
}

/// The notes of the major scale on `k` but its seventh: the degrees that the key
/// detection counts.
pub open spec fn scale_of(k: Note) -> Seq<Note> {
    seq![k, shifted(k, 2), shifted(k, 4), shifted(k, 5), shifted(k, 7), shifted(k, 9)]
}

/// Key `t` of the table of keys, which runs C, C#, D, ..., B.
pub open spec fn table_key(t: int) -> Note {
    note_at(3 + t)
}

/// How many of the first `n` keynotes lie in the scale of `k`.
pub open spec fn key_score(ks: Seq<Note>, k: Note, n: int) -> int
    decreases n,
{
    if n <= 0 {
        0
    } else {
        key_score(ks, k, n - 1) + if scale_of(k).contains(ks[n - 1]) {
            1int
        } else {
            0
        }
    }
}

/// The best of the first `t` keys of the table for keynotes `ks`, with its score:
/// a later key wins only with a higher score, and C with score 0 is where it starts.
pub open spec fn best_key(ks: Seq<Note>, t: int) -> (Note, int)
    decreases t,
{
    if t <= 0 {
        (Note::C, 0)
    } else {
        let prev = best_key(ks, t - 1);
        let s = key_score(ks, table_key(t - 1), ks.len() as int);
        if s > prev.1 {
            (table_key(t - 1), s)
        } else {
            prev
        }
    }
}

/// The keynotes of a list of chords.
pub open spec fn keynotes(cs: Seq<Chord>) -> Seq<Note> {
    cs.map_values(|c: Chord| c.keynote)
}

/// The key of a song with chords `cs`: the key of the table whose scale holds the
/// most of the chords' keynotes, the first such in table order.
pub open spec fn detected_key(cs: Seq<Chord>) -> Note {
    best_key(keynotes(cs), 12).0
}

/// The drawings of the first shape of each chord of `cs` that has one, in order.
pub open spec fn first_diagrams(board: Fretboard, cs: Seq<Chord>) -> Seq<Seq<Seq<char>>>
    decreases cs.len(),
{
    if cs.len() == 0 {
        Seq::empty()
    } else {
        let prev = first_diagrams(board, cs.drop_last());
        let sh = shapes(board, chord_notes(cs.last()));
        if sh.len() > 0 {
            prev.push(diagram_lines(sh[0]))
        } else {
            prev
        }
    }
}

/// Two chords with the same text and the same fields.
pub open spec fn same_chord(a: Chord, b: Chord) -> bool {
    a.text@ == b.text@ && a.fields() == b.fields()
}

/// The chords of a line, in order.
pub open spec fn line_chords(l: Line) -> Seq<Chord> {
    match l {
        Line::TextBlock(r) => match r.chords {
            Some(cs) => cs@.map_values(|p: ChordPosition| position_chord(p)),
            None => Seq::empty(),
        },
        Line::ChordsLine(cs) => cs@,
        _ => Seq::empty(),
    }
}

/// The chords of lines, in order.
pub open spec fn lines_chords(ls: Seq<Line>) -> Seq<Chord>
    decreases ls.len(),
{
    if ls.len() == 0 {
        Seq::empty()
    } else {
        lines_chords(ls.drop_last()) + line_chords(ls.last())
    }
}

/// The chords of blocks, in order.
pub open spec fn blocks_chords(bs: Seq<Block>) -> Seq<Chord>
    decreases bs.len(),
{
    if bs.len() == 0 {
        Seq::empty()
    } else {
        blocks_chords(bs.drop_last()) + lines_chords(bs.last().lines@)
    }
}

/// `s` holds a chord the same as `c`.
pub open spec fn has_chord(s: Seq<Chord>, c: Chord) -> bool {
    exists|i: int| 0 <= i < s.len() && #[trigger] same_chord(s[i], c)
}

/// The chords of `s` in order of first appearance, each once.
pub open spec fn unique_chords(s: Seq<Chord>) -> Seq<Chord>
    decreases s.len(),
{
    if s.len() == 0 {
        Seq::empty()
    } else {
        let d = unique_chords(s.drop_last());
        if has_chord(d, s.last()) {
            d
        } else {
            d.push(s.last())
        }
    }
}

/// `a` and `b` hold the same chords, pairwise.
pub open spec fn same_chords(a: Seq<Chord>, b: Seq<Chord>) -> bool {
    a.len() == b.len() && forall|i: int| 0 <= i < a.len() ==> #[trigger] same_chord(a[i], b[i])
}

/// The standard tuning, from the highest string: E, B, G, D, A, E.
pub open spec fn standard_tuning_spec() -> Seq<Note> {
    seq![Note::E, Note::B, Note::G, Note::D, Note::A, Note::E]
}

/// The standard tuning, from the highest string.
pub fn standard_tuning() -> (r: [Note; STRINGS])
    ensures
        r@ == standard_tuning_spec(),
{
    let r = [Note::E, Note::B, Note::G, Note::D, Note::A, Note::E];
    assert(r@ =~= standard_tuning_spec());
    r
}

fn copy_text(o: &Option<String>) -> (r: Option<String>)
    ensures
        opt_text(r) == opt_text(*o),
{
    match o {
        Some(s) => Some(s.clone()),
        None => None,
    }
}

fn copy_beats(o: &Option<Vec<Beat>>) -> (r: Option<Vec<Beat>>)
    ensures
        opt_beats(r) == opt_beats(*o),
{
    match o {
        None => None,
        Some(v) => {
            let mut w: Vec<Beat> = Vec::new();
            let mut i: usize = 0;
            while i < v.len()
                invariant
                    0 <= i <= v@.len(),
                    w@ == v@.take(i as int),
                decreases v@.len() - i,
            {
                w.push(v[i]);
                i = i + 1;
                assert(w@ =~= v@.take(i as int));
            }
            assert(v@.take(i as int) =~= v@);
            Some(w)
        },
    }
}

fn transpose_chords(cs: &Vec<Chord>, steps: i32) -> (r: Vec<Chord>)
    requires
        forall|i: int| 0 <= i < cs@.len() ==> #[trigger] cs@[i].has_root_text(),
    ensures
        chords_transposed(cs@, steps as int, r@),
        forall|i: int| 0 <= i < r@.len() ==> #[trigger] r@[i].has_root_text(),
{
    let mut out: Vec<Chord> = Vec::new();
    let mut i: usize = 0;
    while i < cs.len()
        invariant
            0 <= i <= cs@.len(),
            forall|k: int| 0 <= k < cs@.len() ==> #[trigger] cs@[k].has_root_text(),
            out@.len() == i,
            forall|k: int| 0 <= k < i ==> #[trigger] is_transposition(cs@[k], steps as int, out@[k]),
            forall|k: int| 0 <= k < i ==> #[trigger] out@[k].has_root_text(),
        decreases cs@.len() - i,
    {
        out.push(cs[i].transpose(steps));
        i = i + 1;
    }
    out
}

fn transpose_row(row: &Row, steps: i32) -> (r: Row)
    requires
        line_ok(Line::TextBlock(*row)),
    ensures
        row_transposed(*row, steps as int, r),
        line_ok(Line::TextBlock(r)),
{
    let chords = match &row.chords {
        None => None,
        Some(cs) => {
            let mut out: Vec<ChordPosition> = Vec::new();
            let mut i: usize = 0;
            while i < cs.len()
                invariant
                    0 <= i <= cs@.len(),
                    forall|k: int|
                        0 <= k < cs@.len() ==> #[trigger] position_chord(cs@[k]).has_root_text(),
                    out@.len() == i,
                    forall|k: int|
                        0 <= k < i ==> #[trigger] position_transposed(cs@[k], steps as int, out@[k]),
                    forall|k: int|
                        0 <= k < i ==> #[trigger] position_chord(out@[k]).has_root_text(),
                decreases cs@.len() - i,
            {
                assert(position_chord(cs@[i as int]).has_root_text());
                let p = match &cs[i] {
                    ChordPosition::OnIndex { index, chord } => ChordPosition::OnIndex {
                        index: *index,
                        chord: chord.transpose(steps),
                    },
                    ChordPosition::UpBeat(chord) => ChordPosition::UpBeat(chord.transpose(steps)),
                };
                out.push(p);
                i = i + 1;
            }
            Some(out)
        },
    };
    Row { rhythm: copy_beats(&row.rhythm), chords, text: copy_text(&row.text) }
}

fn transpose_line(line: &Line, steps: i32) -> (r: Line)
    requires
        line_ok(*line),
    ensures
        line_transposed(*line, steps as int, r),
        line_ok(r),
{
    match line {
        Line::TextBlock(row) => Line::TextBlock(transpose_row(row, steps)),
        Line::ChordsLine(cs) => Line::ChordsLine(transpose_chords(cs, steps)),
        Line::PlainText(t) => Line::PlainText(t.clone()),
        Line::EmptyLine => Line::EmptyLine,
    }
}

fn transpose_block(block: &Block, steps: i32) -> (r: Block)
    requires
        block_ok(*block),
    ensures
        block_transposed(*block, steps as int, r),
        block_ok(r),
{
    let mut lines: Vec<Line> = Vec::new();
    let mut i: usize = 0;
    while i < block.lines.len()
        invariant
            0 <= i <= block.lines@.len(),
            block_ok(*block),
            lines@.len() == i,
            forall|k: int|
                0 <= k < i ==> #[trigger] line_transposed(block.lines@[k], steps as int, lines@[k]),
            forall|k: int| 0 <= k < i ==> #[trigger] line_ok(lines@[k]),
        decreases block.lines@.len() - i,
    {
        assert(line_ok(block.lines@[i as int]));
        lines.push(transpose_line(&block.lines[i], steps));
        i = i + 1;
    }
    Block { title: copy_text(&block.title), notes: copy_text(&block.notes), lines }
}

/// Adds `c` to `list` unless a chord the same is there.
fn add_chord(list: &mut Vec<Chord>, c: &Chord, Ghost(seen): Ghost<Seq<Chord>>)
    requires
        same_chords(old(list)@, unique_chords(seen)),
    ensures
        same_chords(final(list)@, unique_chords(seen.push(*c))),
{
    let ghost d = unique_chords(seen);
    assert(seen.push(*c).drop_last() =~= seen);
    let mut i: usize = 0;
    while i < list.len()
        invariant
            0 <= i <= list@.len(),
            d == unique_chords(seen),
            seen.push(*c).drop_last() == seen,
            same_chords(list@, d),
            forall|k: int| 0 <= k < i ==> !same_chord(#[trigger] d[k], *c),
        decreases list@.len() - i,
    {
        assert(same_chord(list@[i as int], d[i as int]));
        if list[i].same(c) {
            assert(same_chord(d[i as int], *c));
            assert(has_chord(d, *c));
            return;
        }
        i = i + 1;
    }
    list.push(c.copy());
    assert(same_chords(list@, d.push(*c)));
}

fn scale_holds(k: Note, n: Note) -> (r: bool)
    ensures
        r == scale_of(k).contains(n),
{
    let s = [k, k.transpose(2), k.transpose(4), k.transpose(5), k.transpose(7), k.transpose(9)];
    assert(s@ =~= scale_of(k));
    let mut i: usize = 0;
    while i < 6
        invariant
            0 <= i <= 6,
            s@ == scale_of(k),
            forall|j: int| 0 <= j < i ==> s@[j] != n,
        decreases 6 - i,
    {
        if s[i] == n {
            assert(s@[i as int] == n);
            return true;
        }
        i = i + 1;
    }
    false
}

impl Song {
    /// Every chord of the song can have its root respelled, as every chord read
    /// from a symbol can.
    pub open spec fn wf(&self) -> bool {
        &&& forall|i: int| 0 <= i < self.chord_list@.len() ==> #[trigger] self.chord_list@[i].has_root_text()
        &&& forall|i: int| 0 <= i < self.blocks@.len() ==> #[trigger] block_ok(self.blocks@[i])
    }

    /// An empty song with a title and an artist.
    pub fn new(title: &str, artist: &str) -> (r: Song)
        ensures
            r.metadata.title@ == title@,
            r.metadata.artist@ == artist@,
            r.metadata.key is None,
            r.metadata.capo is None,
            r.metadata.autoscroll_speed is None,
            r.chord_list@.len() == 0,
            r.blocks@.len() == 0,
            r.notes is None,
            r.wf(),
    {
        Song {
            metadata: Metadata {
                title: String::from_str(title),
                artist: String::from_str(artist),
                key: None,
                capo: None,
                autoscroll_speed: None,
            },
            chord_list: Vec::new(),
            blocks: Vec::new(),
            notes: None,
        }
    }

    /// Transposes the key and every chord of the song by `steps` semitones.
    pub fn transpose(&mut self, steps: i32)
        requires
            old(self).wf(),
        ensures
            final(self).wf(),
            final(self).metadata.key == (match old(self).metadata.key {
                Some(k) => Some(shifted(k, steps as int)),
                None => None,
            }),
            final(self).metadata.title@ == old(self).metadata.title@,
            final(self).metadata.artist@ == old(self).metadata.artist@,
            final(self).metadata.capo == old(self).metadata.capo,
            final(self).metadata.autoscroll_speed == old(self).metadata.autoscroll_speed,
            opt_text(final(self).notes) == opt_text(old(self).notes),
            chords_transposed(old(self).chord_list@, steps as int, final(self).chord_list@),
            final(self).blocks@.len() == old(self).blocks@.len(),
            forall|i: int|
                0 <= i < old(self).blocks@.len() ==> #[trigger] block_transposed(
                    old(self).blocks@[i],
                    steps as int,
                    final(self).blocks@[i],
                ),
    {
        if let Some(key) = self.metadata.key {
            self.metadata.key = Some(key.transpose(steps));
        }
        let chords = transpose_chords(&self.chord_list, steps);
        let mut blocks: Vec<Block> = Vec::new();
        let mut i: usize = 0;
        while i < self.blocks.len()
            invariant
                0 <= i <= self.blocks@.len(),
                forall|k: int| 0 <= k < self.blocks@.len() ==> #[trigger] block_ok(self.blocks@[k]),
                blocks@.len() == i,
                forall|k: int|
                    0 <= k < i ==> #[trigger] block_transposed(
                        self.blocks@[k],
                        steps as int,
                        blocks@[k],
                    ),
                forall|k: int| 0 <= k < i ==> #[trigger] block_ok(blocks@[k]),
            decreases self.blocks@.len() - i,
        {
            assert(block_ok(self.blocks@[i as int]));
            blocks.push(transpose_block(&self.blocks[i], steps));
            i = i + 1;
        }
        self.chord_list = chords;
        self.blocks = blocks;
    }

    /// The shapes of each chord of the song under the standard tuning.
    pub fn get_fingerings(&self) -> (r: Vec<Vec<Fingering>>)
        ensures
            r@.len() == self.chord_list@.len(),
            forall|board: Fretboard, i: int|
                #![trigger is_board_of(board, standard_tuning_spec()), r@[i]]
                is_board_of(board, standard_tuning_spec()) && 0 <= i < r@.len() ==> r@[i]@.map_values(
                    |f: Fingering| f.strings@,
                ) == shapes(board, chord_notes(self.chord_list@[i])),
            forall|i: int, j: int|
                0 <= i < r@.len() && 0 <= j < r@[i]@.len() ==> #[trigger] r@[i]@[j].wf(),
    {
        let tuning = standard_tuning();
        let mut fings: Vec<Vec<Fingering>> = Vec::new();
        let mut i: usize = 0;
        while i < self.chord_list.len()
            invariant
                0 <= i <= self.chord_list@.len(),
                tuning@ == standard_tuning_spec(),
                fings@.len() == i,
                forall|board: Fretboard, k: int|
                    #![trigger is_board_of(board, tuning@), fings@[k]]
                    is_board_of(board, tuning@) && 0 <= k < i ==> fings@[k]@.map_values(
                        |f: Fingering| f.strings@,
                    ) == shapes(board, chord_notes(self.chord_list@[k])),
                forall|k: int, j: int|
                    0 <= k < i && 0 <= j < fings@[k]@.len() ==> #[trigger] fings@[k]@[j].wf(),
            decreases self.chord_list@.len() - i,
        {
            fings.push(self.chord_list[i].get_fingerings(&tuning));
            i = i + 1;
        }
        fings
    }

    /// The first shape of each chord of the song under the standard tuning, laid out
    /// side by side in lines `width` columns wide (see `layout_lines`).
    pub fn get_fingerings_text(&self, width: usize) -> (r: String)
        ensures
            forall|board: Fretboard|
                is_board_of(board, standard_tuning_spec()) ==> r@ == terminated(
                    layout_lines(first_diagrams(board, self.chord_list@), width as int, 0),
                ),
    {
        let tuning = standard_tuning();
        let mut firsts: Vec<Fingering> = Vec::new();
        let mut i: usize = 0;
        while i < self.chord_list.len()
            invariant
                0 <= i <= self.chord_list@.len(),
                tuning@ == standard_tuning_spec(),
                forall|board: Fretboard|
                    is_board_of(board, tuning@) ==> diagrams(firsts@) == first_diagrams(
                        board,
                        self.chord_list@.take(i as int),
                    ),
                forall|k: int| 0 <= k < firsts@.len() ==> #[trigger] firsts@[k].wf(),
            decreases self.chord_list@.len() - i,
        {
            let ghost before = firsts@;
            let mut v = self.chord_list[i].get_fingerings(&tuning);
            if v.len() > 0 {
                let f = v.remove(0);
                firsts.push(f);
            }
            proof {
                let c = self.chord_list@[i as int];
                assert(self.chord_list@.take(i + 1).drop_last() =~= self.chord_list@.take(i as int));
                assert(self.chord_list@.take(i + 1).last() == c);
                assert forall|board: Fretboard| is_board_of(board, tuning@) implies diagrams(firsts@)
                    == first_diagrams(board, self.chord_list@.take(i + 1)) by {
                    let sh = shapes(board, chord_notes(c));
                    if firsts@.len() > before.len() {
                        assert(sh.len() > 0);
                        assert(sh[0] == firsts@.last().strings@);
                        assert(diagrams(firsts@) =~= diagrams(before).push(diagram_lines(sh[0])));
                    } else {
                        assert(sh.len() == 0);
                    }
                }
            }
            i = i + 1;
        }
        assert(self.chord_list@.take(i as int) =~= self.chord_list@);
        sum_text_in_fingerings(&firsts, width)
    }

    /// The chords of the song in order of first appearance, each once (see
    /// `unique_chords`).
    pub fn get_chord_list(&self) -> (r: Vec<Chord>)
        ensures
            same_chords(r@, unique_chords(blocks_chords(self.blocks@))),
    {
        let mut list: Vec<Chord> = Vec::new();
        let mut b: usize = 0;
        while b < self.blocks.len()
            invariant
                0 <= b <= self.blocks@.len(),
                same_chords(list@, unique_chords(blocks_chords(self.blocks@.take(b as int)))),
            decreases self.blocks@.len() - b,
        {
            let lines = &self.blocks[b].lines;
            let ghost base = blocks_chords(self.blocks@.take(b as int));
            let mut l: usize = 0;
            while l < lines.len()
                invariant
                    0 <= l <= lines@.len(),
                    same_chords(list@, unique_chords(base + lines_chords(lines@.take(l as int)))),
                decreases lines@.len() - l,
            {
                let ghost seen = base + lines_chords(lines@.take(l as int));
                let ghost cs = line_chords(lines@[l as int]);
                match &lines[l] {
                    Line::TextBlock(row) => {
                        if let Some(ps) = &row.chords {
                            let mut k: usize = 0;
                            while k < ps.len()
                                invariant
                                    0 <= k <= ps@.len(),
                                    cs == ps@.map_values(|p: ChordPosition| position_chord(p)),
                                    same_chords(list@, unique_chords(seen + cs.take(k as int))),
                                decreases ps@.len() - k,
                            {
                                let c = match &ps[k] {
                                    ChordPosition::OnIndex { chord, .. } => chord,
                                    ChordPosition::UpBeat(chord) => chord,
                                };
                                assert(seen + cs.take(k + 1) =~= (seen + cs.take(k as int)).push(*c));
                                add_chord(&mut list, c, Ghost(seen + cs.take(k as int)));
                                k = k + 1;
                            }
                            assert(cs.take(k as int) =~= cs);
                        } else {
                            assert(seen + cs =~= seen);
                        }
                    },
                    Line::ChordsLine(v) => {
                        let mut k: usize = 0;
                        while k < v.len()
                            invariant
                                0 <= k <= v@.len(),
                                cs == v@,
                                same_chords(list@, unique_chords(seen + cs.take(k as int))),
                            decreases v@.len() - k,
                        {
                            assert(seen + cs.take(k + 1) =~= (seen + cs.take(k as int)).push(v@[k as int]));
                            add_chord(&mut list, &v[k], Ghost(seen + cs.take(k as int)));
                            k = k + 1;
                        }
                        assert(cs.take(k as int) =~= cs);
                    },
                    _ => {
                        assert(seen + cs =~= seen);
                    },
                }
                assert(lines@.take(l + 1).drop_last() =~= lines@.take(l as int));
                assert(base + lines_chords(lines@.take(l + 1)) =~= seen + cs);
                l = l + 1;
            }
            assert(lines@.take(l as int) =~= lines@);
            assert(self.blocks@.take(b + 1).drop_last() =~= self.blocks@.take(b as int));
            b = b + 1;
        }
        assert(self.blocks@.take(b as int) =~= self.blocks@);
        list
    }

    /// Picks the key of the song from the keynotes of its chords (see
    /// `detected_key`), records it in the metadata and returns it.
    pub fn detect_key(&mut self) -> (r: Note)
        ensures
            r == detected_key(old(self).chord_list@),
            final(self).metadata.key == Some(r),
            final(self).metadata.title@ == old(self).metadata.title@,
            final(self).metadata.artist@ == old(self).metadata.artist@,
            final(self).metadata.capo == old(self).metadata.capo,
            final(self).metadata.autoscroll_speed == old(self).metadata.autoscroll_speed,
            final(self).chord_list@ == old(self).chord_list@,
            final(self).blocks@ == old(self).blocks@,
            final(self).notes == old(self).notes,
    {
        let ghost ks = keynotes(self.chord_list@);
        let mut key = Note::C;
        let mut best: usize = 0;
        let mut t: usize = 0;
        while t < 12
            invariant
                0 <= t <= 12,
                ks == keynotes(self.chord_list@),
                (key, best as int) == best_key(ks, t as int),
            decreases 12 - t,
        {
            let candidate = Note::C.transpose(t as i32);
            proof {
                crate::note::lemma_note_at_index(Note::C, 3 + t);
            }
            let mut score: usize = 0;
            let mut j: usize = 0;
            while j < self.chord_list.len()
                invariant
                    0 <= j <= self.chord_list@.len(),
                    ks == keynotes(self.chord_list@),
                    score <= j,
                    score as int == key_score(ks, candidate, j as int),
                decreases self.chord_list@.len() - j,
            {
                if scale_holds(candidate, self.chord_list[j].keynote) {
                    score = score + 1;
                }
                j = j + 1;
            }
            assert(candidate == table_key(t as int));
            if score > best {
                best = score;
                key = candidate;
            }
            t = t + 1;
        }
        self.metadata.key = Some(key);
        key
    }
}

} // verus!
