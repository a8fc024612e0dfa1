use vstd::prelude::*;

use crate::chord::Chord;
use crate::fingering::rep;
use crate::note::chars_of;
use crate::generator::{is_board_of, Fretboard};
use crate::layout::{layout_lines, terminated};
use crate::song::{
    first_diagrams, position_chord, standard_tuning_spec, Beat, Block, ChordPosition, Line, Row, Song,
};

verus! {

/// `n` spaces.
pub open spec fn spaces(n: int) -> Seq<char> {
    rep(seq![' '], n)
}

/// `a - b`, or 0 when `b` is larger.
pub open spec fn sat_sub(a: int, b: int) -> int {
    if a >= b {
        a - b
    } else {
        0
    }
}

/// `t` without its first `n` characters (empty when `t` is shorter).
pub open spec fn clip_skip(t: Seq<char>, n: int) -> Seq<char> {
    if n >= t.len() {
        Seq::empty()
    } else if n <= 0 {
        t
    } else {
        t.skip(n)
    }
}

/// The first `n` characters of `t` (all of `t` when it is shorter).
pub open spec fn clip_take(t: Seq<char>, n: int) -> Seq<char> {
    if n >= t.len() {
        t
    } else if n <= 0 {
        Seq::empty()
    } else {
        t.take(n)
    }
}

/// The symbol of a rhythm mark.
pub open spec fn beat_symbol(b: Beat) -> char {
    match b {
        Beat::OnIndex { symbol, .. } => symbol,
        Beat::UpBeat(s) => s,
    }
}

/// The position in the text of a chord placed there, or -1.
pub open spec fn pos_index(p: ChordPosition) -> int {
    match p {
        ChordPosition::OnIndex { index, .. } => index as int,
        ChordPosition::UpBeat(_) => -1,
    }
}

/// The names of the first `k` placed chords, each followed by a space.
pub open spec fn chord_words(cs: Seq<ChordPosition>, k: int) -> Seq<char>
    decreases k,
{
    if k <= 0 {
        Seq::empty()
    } else {
        chord_words(cs, k - 1) + position_chord(cs[k - 1]).text@ + seq![' ']
    }
}

/// The names of the first `k` chords, each followed by a space.
pub open spec fn chord_names(cs: Seq<Chord>, k: int) -> Seq<char>
    decreases k,
{
    if k <= 0 {
        Seq::empty()
    } else {
        chord_names(cs, k - 1) + cs[k - 1].text@ + seq![' ']
    }
}

/// The symbols of the first `k` rhythm marks, each followed by a space.
pub open spec fn beat_words(bs: Seq<Beat>, k: int) -> Seq<char>
    decreases k,
{
    if k <= 0 {
        Seq::empty()
    } else {
        beat_words(bs, k - 1) + seq![beat_symbol(bs[k - 1]), ' ']
    }
}

/// After the first `k` chords of a row with text `t`: the width taken before the
/// text by chords played before it, the chord line so far, for each chord placed
/// in the text its position, the chord and the piece of text up to the next placed
/// chord, the text before the first placed chord, and whether none was placed yet.
pub open spec fn pass_chords(cs: Seq<ChordPosition>, t: Seq<char>, k: int) -> (
    int,
    Seq<char>,
    Seq<(int, Chord, Seq<char>)>,
    Seq<char>,
    bool,
)
    decreases k,
{
    if k <= 0 {
        (0, Seq::empty(), Seq::empty(), Seq::empty(), true)
    } else {
        let p = pass_chords(cs, t, k - 1);
        match cs[k - 1] {
            ChordPosition::UpBeat(c) => (
                p.0 + 1 + c.text@.len(),
                p.1 + c.text@ + seq![' '],
                p.2,
                p.3,
                p.4,
            ),
            ChordPosition::OnIndex { index, chord } => {
                let i = index as int;
                let start = if i > 0 && p.3.len() == 0 && p.4 {
                    clip_take(t, i)
                } else {
                    p.3
                };
                let slice = if k < cs.len() && cs[k] is OnIndex {
                    clip_take(clip_skip(t, i), sat_sub(pos_index(cs[k]), i))
                } else {
                    clip_skip(t, i)
                };
                (p.0, p.1, p.2.push((i, chord, slice)), start, false)
            },
        }
    }
}

/// After the first `k` rhythm marks: the width of the marks played before the
/// text, the column reached, the position of the first mark placed in the text,
/// and the rhythm line so far.
pub open spec fn pass_beats(bs: Seq<Beat>, k: int) -> (int, int, Option<int>, Seq<char>)
    decreases k,
{
    if k <= 0 {
        (0, 0, None, Seq::empty())
    } else {
        let p = pass_beats(bs, k - 1);
        match bs[k - 1] {
            Beat::UpBeat(s) => (p.0 + 2, p.1, p.2, p.3 + seq![s, ' ']),
            Beat::OnIndex { index, symbol } => {
                let dif = sat_sub(index as int, p.1);
                (
                    p.0,
                    p.1 + dif + 2,
                    if p.2 is None {
                        Some(index as int)
                    } else {
                        p.2
                    },
                    p.3 + spaces(dif) + seq![symbol, ' '],
                )
            },
        }
    }
}

/// The rhythm line of a row that has chords and text, with the width taken before
/// the text once the marks played before it are counted.
pub open spec fn rhythm_with_chords(bs: Seq<Beat>, w: int) -> (Seq<char>, int) {
    let p = pass_beats(bs, bs.len() as int);
    if p.0 > w {
        (p.3, p.0)
    } else {
        match p.2 {
            Some(ix) => (p.3.take(ix) + spaces(w - p.0) + p.3.skip(ix), w),
            None => (p.3, w),
        }
    }
}

/// After the first `j` placed chords: the chord line, the text line, the rhythm
/// line and the number of spaces put into the rhythm line. A chord longer than
/// its piece of text stretches the text, with `-` inside a word and spaces between
/// words, and moves the rhythm along.
pub open spec fn pass_pairs(
    ps: Seq<(int, Chord, Seq<char>)>,
    w: int,
    j: int,
    c0: Seq<char>,
    t0: Seq<char>,
    r0: Seq<char>,
) -> (Seq<char>, Seq<char>, Seq<char>, int)
    decreases j,
{
    if j <= 0 {
        (c0, t0, r0, 0)
    } else {
        let p = pass_pairs(ps, w, j - 1, c0, t0, r0);
        let ib = ps[j - 1].0;
        let name = ps[j - 1].1.text@;
        let slice = ps[j - 1].2;
        let c1 = p.0 + name;
        if slice.len() <= name.len() {
            if j < ps.len() {
                let next = ps[j].2;
                let gap = name.len() - slice.len() + 1;
                let fill = if !(slice.len() > 0 && slice.last() == ' ') && !(next.len() > 0
                    && next[0] == ' ') && next.len() > 0 {
                    rep(seq!['-'], gap)
                } else {
                    spaces(gap)
                };
                let pos = if ib + w + p.3 <= p.2.len() {
                    ib + w + p.3
                } else {
                    p.2.len() as int
                };
                if p.2.len() > 0 {
                    (c1 + seq![' '], p.1 + slice + fill, p.2.insert(pos, ' '), p.3 + 1)
                } else {
                    (c1 + seq![' '], p.1 + slice + fill, p.2, p.3)
                }
            } else {
                (c1, p.1 + slice, p.2, p.3)
            }
        } else {
            (c1 + spaces(slice.len() - name.len()), p.1 + slice, p.2, p.3)
        }
    }
}

/// The chord line, the rhythm line and the text line of a row, aligned: each
/// chord and mark placed in the text stands above its position, and those played
/// before the text stand before it.
pub open spec fn row_strings(r: Row) -> (Seq<char>, Seq<char>, Seq<char>) {
    match r.text {
        None => {
            let c = match r.chords {
                Some(cs) => chord_words(cs@, cs@.len() as int),
                None => Seq::empty(),
            };
            let b = match r.rhythm {
                Some(bs) => beat_words(bs@, bs@.len() as int),
                None => Seq::empty(),
            };
            (c + b, Seq::empty(), Seq::empty())
        },
        Some(text) => {
            let t = text@;
            match r.chords {
                Some(cs) => {
                    let p = pass_chords(cs@, t, cs@.len() as int);
                    let rw = match r.rhythm {
                        Some(bs) => rhythm_with_chords(bs@, p.0),
                        None => (Seq::empty(), p.0),
                    };
                    let w = rw.1;
                    let start = if p.4 && p.3.len() == 0 && p.2.len() == 0 {
                        t
                    } else {
                        p.3
                    };
                    let c0 = if p.1.len() == 0 {
                        spaces(w)
                    } else {
                        p.1
                    } + spaces(start.len() as int);
                    let t0 = spaces(w) + start;
                    let q = pass_pairs(p.2, w, p.2.len() as int, c0, t0, rw.0);
                    (q.0, q.2, q.1)
                },
                None => match r.rhythm {
                    Some(bs) => {
                        let p = pass_beats(bs@, bs@.len() as int);
                        (Seq::empty(), p.3, spaces(p.0) + t)
                    },
                    None => (Seq::empty(), Seq::empty(), t),
                },
            }
        },
    }
}

/// A row as text: its chord line and rhythm line when asked for and not empty,
/// each ended by a line break, then its text line.
pub open spec fn row_text(r: Row, needs_chords: bool, needs_rhythm: bool) -> Seq<char> {
    let s = row_strings(r);
    (if needs_chords && s.0.len() > 0 {
        s.0 + seq!['\n']
    } else {
        Seq::empty()
    }) + (if needs_rhythm && s.1.len() > 0 {
        s.1 + seq!['\n']
    } else {
        Seq::empty()
    }) + s.2
}

/// A line of a block as text.
pub open spec fn line_text(l: Line, chords: bool, rhythm: bool) -> Seq<char> {
    match l {
        Line::TextBlock(r) => row_text(r, chords, rhythm),
        Line::ChordsLine(cs) => chord_names(cs@, cs@.len() as int),
        Line::PlainText(t) => t@,
        Line::EmptyLine => Seq::empty(),
    }
}

/// The first `k` lines as text, with line breaks between them.
pub open spec fn lines_text(ls: Seq<Line>, chords: bool, rhythm: bool, k: int) -> Seq<char>
    decreases k,
{
    if k <= 0 {
        Seq::empty()
    } else if k == 1 {
        line_text(ls[0], chords, rhythm)
    } else {
        lines_text(ls, chords, rhythm, k - 1) + seq!['\n'] + line_text(ls[k - 1], chords, rhythm)
    }
}

/// A block as text: a line break unless it is the first block, its title (after a
/// line break when not empty) and a space, its note when asked for, then its lines.
pub open spec fn block_text(b: Block, chords: bool, rhythm: bool, notes: bool, first: bool) -> Seq<
    char,
> {
    (if first {
        Seq::empty()
    } else {
        seq!['\n']
    }) + (match b.title {
        Some(t) => (if t@.len() > 0 {
            seq!['\n']
        } else {
            Seq::empty()
        }) + t@ + seq![' '],
        None => Seq::empty(),
    }) + (match b.notes {
        Some(n) => if notes {
            (if b.title is None {
                seq!['\n']
            } else {
                Seq::empty()
            }) + n@
        } else {
            Seq::empty()
        },
        None => Seq::empty(),
    }) + (if b.lines@.len() > 0 {
        seq!['\n']
    } else {
        Seq::empty()
    }) + lines_text(b.lines@, chords, rhythm, b.lines@.len() as int)
}

/// The first `k` blocks as text.
pub open spec fn song_text(bs: Seq<Block>, chords: bool, rhythm: bool, notes: bool, k: int) -> Seq<
    char,
>
    decreases k,
{
    if k <= 0 {
        Seq::empty()
    } else {
        song_text(bs, chords, rhythm, notes, k - 1) + block_text(
            bs[k - 1],
            chords,
            rhythm,
            notes,
            k == 1,
        )
    }
}

fn push_all(v: &mut Vec<char>, s: &Vec<char>)
    ensures
        final(v)@ == old(v)@ + s@,
{
    let mut i: usize = 0;
    while i < s.len()
        invariant
            0 <= i <= s@.len(),
            v@ == old(v)@ + s@.take(i as int),
        decreases s@.len() - i,
    {
        v.push(s[i]);
        i = i + 1;
        assert(v@ =~= old(v)@ + s@.take(i as int));
    }
    assert(s@.take(i as int) =~= s@);
}

fn push_many(v: &mut Vec<char>, c: char, n: usize)
    ensures
        final(v)@ == old(v)@ + rep(seq![c], n as int),
{
    let mut i: usize = 0;
    while i < n
        invariant
            0 <= i <= n,
            v@ == old(v)@ + rep(seq![c], i as int),
        decreases n - i,
    {
        v.push(c);
        i = i + 1;
        assert(v@ =~= old(v)@ + rep(seq![c], i as int));
    }
}

fn clip_skip_v(t: &Vec<char>, n: usize) -> (r: Vec<char>)
    ensures
        r@ == clip_skip(t@, n as int),
{
    let mut r: Vec<char> = Vec::new();
    if n >= t.len() {
        return r;
    }
    let mut i: usize = n;
    while i < t.len()
        invariant
            n <= i <= t@.len(),
            n < t@.len(),
            r@ == t@.subrange(n as int, i as int),
        decreases t@.len() - i,
    {
        r.push(t[i]);
        i = i + 1;
        assert(r@ =~= t@.subrange(n as int, i as int));
    }
    assert(t@.subrange(n as int, i as int) =~= clip_skip(t@, n as int));
    r
}

fn clip_take_v(t: &Vec<char>, n: usize) -> (r: Vec<char>)
    ensures
        r@ == clip_take(t@, n as int),
{
    let mut r: Vec<char> = Vec::new();
    let mut i: usize = 0;
    while i < n && i < t.len()
        invariant
            0 <= i <= t@.len(),
            i <= n,
            r@ == t@.take(i as int),
        decreases t@.len() - i,
    {
        r.push(t[i]);
        i = i + 1;
        assert(r@ =~= t@.take(i as int));
    }
    assert(t@.take(i as int) =~= clip_take(t@, n as int));
    r
}

fn string_of(v: &Vec<char>) -> (r: String)
    ensures
        r@ == v@,
{
    let mut s = String::new();
    let mut i: usize = 0;
    while i < v.len()
        invariant
            0 <= i <= v@.len(),
            s@ == v@.take(i as int),
        decreases v@.len() - i,
    {
        s.push(v[i]);
        i = i + 1;
        assert(s@ =~= v@.take(i as int));
    }
    assert(v@.take(i as int) =~= v@);
    s
}

fn chord_of(p: &ChordPosition) -> (r: &Chord)
    ensures
        *r == position_chord(*p),
{
    match p {
        ChordPosition::OnIndex { chord, .. } => chord,
        ChordPosition::UpBeat(chord) => chord,
    }
}

proof fn lemma_spaces_len(n: int)
    requires
        n >= 0,
    ensures
        spaces(n).len() == n,
    decreases n,
{
    if n > 0 {
        lemma_spaces_len(n - 1);
    }
}

proof fn lemma_beats_bounds(bs: Seq<Beat>, k: int)
    requires
        0 <= k <= bs.len(),
    ensures
        0 <= pass_beats(bs, k).1 <= pass_beats(bs, k).3.len(),
        0 <= pass_beats(bs, k).0 <= pass_beats(bs, k).3.len(),
        pass_beats(bs, k).0 + pass_beats(bs, k).1 <= pass_beats(bs, k).3.len(),
        pass_beats(bs, k).2 matches Some(ix) ==> 0 <= ix <= pass_beats(bs, k).3.len(),
    decreases k,
{
    if k > 0 {
        lemma_beats_bounds(bs, k - 1);
        let p = pass_beats(bs, k - 1);
        match bs[k - 1] {
            Beat::UpBeat(_) => {},
            Beat::OnIndex { index, .. } => {
                lemma_spaces_len(sat_sub(index as int, p.1));
            },
        }
    }
}

/// The rhythm line and the width before the text (see `pass_beats`).
fn beats_line(bs: &Vec<Beat>) -> (r: (Vec<char>, usize, Option<usize>))
    ensures
        pass_beats(bs@, bs@.len() as int) == (
            r.1 as int,
            pass_beats(bs@, bs@.len() as int).1,
            match r.2 {
                Some(ix) => Some(ix as int),
                None => None::<int>,
            },
            r.0@,
        ),
{
    let mut rs: Vec<char> = Vec::new();
    let mut wfb: usize = 0;
    let mut added: usize = 0;
    let mut start: Option<usize> = None;
    let mut k: usize = 0;
    while k < bs.len()
        invariant
            0 <= k <= bs@.len(),
            pass_beats(bs@, k as int) == (
                wfb as int,
                added as int,
                match start {
                    Some(ix) => Some(ix as int),
                    None => None::<int>,
                },
                rs@,
            ),
        decreases bs@.len() - k,
    {
        proof {
            lemma_beats_bounds(bs@, k as int);
        }
        match bs[k] {
            Beat::UpBeat(s) => {
                rs.push(s);
                rs.push(' ');
                let line_len = rs.len();
                assert(wfb + 2 <= line_len);
                wfb = wfb + 2;
                assert(rs@ =~= pass_beats(bs@, k + 1).3);
            },
            Beat::OnIndex { index, symbol } => {
                let dif: usize = if index >= added {
                    index - added
                } else {
                    0
                };
                push_many(&mut rs, ' ', dif);
                rs.push(symbol);
                rs.push(' ');
                let line_len = rs.len();
                proof {
                    lemma_spaces_len(dif as int);
                }
                assert(added + dif + 2 <= line_len);
                added = added + dif + 2;
                if start.is_none() {
                    start = Some(index);
                }
                assert(rs@ =~= pass_beats(bs@, k + 1).3);
            },
        }
        k = k + 1;
    }
    (rs, wfb, start)
}

/// The placed chords kept by `chord_pass`: position in the text, index of the
/// chord among the row's chords, and the piece of text under it.
pub open spec fn pairs_match(
    pe: Seq<(usize, usize, Vec<char>)>,
    ps: Seq<(int, Chord, Seq<char>)>,
    cs: Seq<ChordPosition>,
) -> bool {
    &&& pe.len() == ps.len()
    &&& forall|j: int|
        0 <= j < pe.len() ==> {
            &&& (#[trigger] pe[j]).0 as int == ps[j].0
            &&& pe[j].1 < cs.len()
            &&& position_chord(cs[pe[j].1 as int]) == ps[j].1
            &&& pe[j].2@ == ps[j].2
        }
}

proof fn lemma_spaces(n: int)
    requires
        n >= 0,
    ensures
        spaces(n).len() == n,
        forall|i: int| 0 <= i < n ==> #[trigger] spaces(n)[i] == ' ',
    decreases n,
{
    if n > 0 {
        lemma_spaces(n - 1);
        assert forall|i: int| 0 <= i < n implies #[trigger] spaces(n)[i] == ' ' by {
            if i < n - 1 {
                assert(spaces(n)[i] == spaces(n - 1)[i]);
            }
        }
    }
}

proof fn lemma_chords_width(cs: Seq<ChordPosition>, t: Seq<char>, k: int)
    requires
        0 <= k <= cs.len(),
    ensures
        pass_chords(cs, t, k).0 == pass_chords(cs, t, k).1.len(),
        pass_chords(cs, t, k).2.len() <= k,
    decreases k,
{
    if k > 0 {
        lemma_chords_width(cs, t, k - 1);
    }
}

/// The first pass over the chords of a row with text `t` (see `pass_chords`).
fn chord_pass(cs: &Vec<ChordPosition>, t: &Vec<char>) -> (r: (
    Vec<char>,
    Vec<(usize, usize, Vec<char>)>,
    Vec<char>,
    bool,
))
    ensures
        pass_chords(cs@, t@, cs@.len() as int).1 == r.0@,
        pairs_match(r.1@, pass_chords(cs@, t@, cs@.len() as int).2, cs@),
        pass_chords(cs@, t@, cs@.len() as int).3 == r.2@,
        pass_chords(cs@, t@, cs@.len() as int).4 == r.3,
{
    let mut cstr: Vec<char> = Vec::new();
    let mut pairs: Vec<(usize, usize, Vec<char>)> = Vec::new();
    let mut start: Vec<char> = Vec::new();
    let mut first = true;
    let mut k: usize = 0;
    while k < cs.len()
        invariant
            0 <= k <= cs@.len(),
            pass_chords(cs@, t@, k as int).1 == cstr@,
            pairs_match(pairs@, pass_chords(cs@, t@, k as int).2, cs@),
            pass_chords(cs@, t@, k as int).3 == start@,
            pass_chords(cs@, t@, k as int).4 == first,
        decreases cs@.len() - k,
    {
        let ghost prev = pass_chords(cs@, t@, k as int);
        match &cs[k] {
            ChordPosition::UpBeat(c) => {
                let name = chars_of(c.text.as_str());
                push_all(&mut cstr, &name);
                cstr.push(' ');
            },
            ChordPosition::OnIndex { index, chord } => {
                let i = *index;
                if i > 0 && start.len() == 0 && first {
                    start = clip_take_v(t, i);
                }
                first = false;
                let rest = clip_skip_v(t, i);
                let slice = if k + 1 < cs.len() {
                    match &cs[k + 1] {
                        ChordPosition::OnIndex { index: next, .. } => {
                            let n = if *next >= i {
                                *next - i
                            } else {
                                0
                            };
                            clip_take_v(&rest, n)
                        },
                        ChordPosition::UpBeat(_) => rest,
                    }
                } else {
                    rest
                };
                let ghost before = pairs@;
                pairs.push((i, k, slice));
                proof {
                    let ps = pass_chords(cs@, t@, k + 1).2;
                    assert(ps == prev.2.push((i as int, *chord, slice@)));
                    assert forall|j: int| 0 <= j < pairs@.len() implies {
                        &&& (#[trigger] pairs@[j]).0 as int == ps[j].0
                        &&& pairs@[j].1 < cs@.len()
                        &&& position_chord(cs@[pairs@[j].1 as int]) == ps[j].1
                        &&& pairs@[j].2@ == ps[j].2
                    } by {
                        if j < before.len() {
                            assert(pairs@[j] == before[j]);
                        }
                    }
                }
            },
        }
        k = k + 1;
    }
    (cstr, pairs, start, first)
}

/// The last pass, over the chords placed in the text (see `pass_pairs`).
fn pair_pass(
    cs: &Vec<ChordPosition>,
    pairs: &Vec<(usize, usize, Vec<char>)>,
    w: usize,
    cstr: &mut Vec<char>,
    tstr: &mut Vec<char>,
    rstr: &mut Vec<char>,
    Ghost(ps): Ghost<Seq<(int, Chord, Seq<char>)>>,
)
    requires
        pairs_match(pairs@, ps, cs@),
    ensures
        pass_pairs(ps, w as int, ps.len() as int, old(cstr)@, old(tstr)@, old(rstr)@).0
            == final(cstr)@,
        pass_pairs(ps, w as int, ps.len() as int, old(cstr)@, old(tstr)@, old(rstr)@).1
            == final(tstr)@,
        pass_pairs(ps, w as int, ps.len() as int, old(cstr)@, old(tstr)@, old(rstr)@).2
            == final(rstr)@,
{
    let ghost c0 = cstr@;
    let ghost t0 = tstr@;
    let ghost r0 = rstr@;
    let mut air: usize = 0;
    let mut j: usize = 0;
    while j < pairs.len()
        invariant
            0 <= j <= pairs@.len(),
            pairs_match(pairs@, ps, cs@),
            air <= j,
            pass_pairs(ps, w as int, j as int, c0, t0, r0) == (cstr@, tstr@, rstr@, air as int),
        decreases pairs@.len() - j,
    {
        let ghost p = pass_pairs(ps, w as int, j as int, c0, t0, r0);
        assert(pairs@[j as int].0 as int == ps[j as int].0);
        let ib = pairs[j].0;
        let pk = pairs[j].1;
        let slice = &pairs[j].2;
        let name = chars_of(chord_of(&cs[pk]).text.as_str());
        push_all(cstr, &name);
        if slice.len() <= name.len() {
            if j + 1 < pairs.len() {
                assert(pairs@[j + 1].2@ == ps[j + 1].2);
                cstr.push(' ');
                push_all(tstr, slice);
                let next = &pairs[j + 1].2;
                let gap = name.len() - slice.len();
                let ends_space = slice.len() > 0 && slice[slice.len() - 1] == ' ';
                let next_space = next.len() > 0 && next[0] == ' ';
                let fill = if !ends_space && !next_space && next.len() > 0 {
                    '-'
                } else {
                    ' '
                };
                push_many(tstr, fill, gap);
                tstr.push(fill);
                assert(rep(seq![fill], gap + 1) == rep(seq![fill], gap as int) + seq![fill]);
                if rstr.len() > 0 {
                    let rl = rstr.len();
                    let pos = if ib <= rl && w <= rl - ib && air <= rl - ib - w {
                        ib + w + air
                    } else {
                        rl
                    };
                    rstr.insert(pos, ' ');
                    air = air + 1;
                }
            } else {
                push_all(tstr, slice);
            }
        } else {
            push_many(cstr, ' ', slice.len() - name.len());
            push_all(tstr, slice);
        }
        j = j + 1;
    }
}

impl Row {
    /// The chord line, the rhythm line and the text line of the row (see
    /// `row_strings`).
    pub fn get_strings(&self) -> (r: (String, String, String))
        ensures
            (r.0@, r.1@, r.2@) == row_strings(*self),
    {
        let mut cstr: Vec<char> = Vec::new();
        let mut rstr: Vec<char> = Vec::new();
        let mut tstr: Vec<char> = Vec::new();
        match &self.text {
            None => {
                if let Some(cs) = &self.chords {
                    let mut k: usize = 0;
                    while k < cs.len()
                        invariant
                            0 <= k <= cs@.len(),
                            cstr@ == chord_words(cs@, k as int),
                        decreases cs@.len() - k,
                    {
                        let name = chars_of(chord_of(&cs[k]).text.as_str());
                        push_all(&mut cstr, &name);
                        cstr.push(' ');
                        k = k + 1;
                    }
                }
                let ghost c = cstr@;
                if let Some(bs) = &self.rhythm {
                    let mut k: usize = 0;
                    while k < bs.len()
                        invariant
                            0 <= k <= bs@.len(),
                            cstr@ == c + beat_words(bs@, k as int),
                        decreases bs@.len() - k,
                    {
                        match bs[k] {
                            Beat::UpBeat(s) => cstr.push(s),
                            Beat::OnIndex { symbol, .. } => cstr.push(symbol),
                        }
                        cstr.push(' ');
                        k = k + 1;
                        assert(cstr@ =~= c + beat_words(bs@, k as int));
                    }
                } else {
                    assert(cstr@ =~= c + Seq::<char>::empty());
                }
            },
            Some(text) => {
                let t = chars_of(text.as_str());
                match &self.chords {
                    Some(cs) => {
                        let (c1, pairs, start, first) = chord_pass(cs, &t);
                        proof {
                            lemma_chords_width(cs@, t@, cs@.len() as int);
                        }
                        let ghost ps = pass_chords(cs@, t@, cs@.len() as int).2;
                        cstr = c1;
                        let w0 = cstr.len();
                        let mut w = w0;
                        match &self.rhythm {
                            Some(bs) => {
                                let (rs, wfb, st) = beats_line(bs);
                                proof {
                                    lemma_beats_bounds(bs@, bs@.len() as int);
                                }
                                rstr = rs;
                                if wfb > w {
                                    w = wfb;
                                } else if let Some(ix) = st {
                                    let ghost old_r = rstr@;
                                    let mut k: usize = 0;
                                    while k < w - wfb
                                        invariant
                                            0 <= k <= w - wfb,
                                            ix <= old_r.len(),
                                            rstr@ == old_r.take(ix as int) + spaces(k as int)
                                                + old_r.skip(ix as int),
                                        decreases w - wfb - k,
                                    {
                                        proof {
                                            lemma_spaces(k as int);
                                            lemma_spaces(k + 1);
                                        }
                                        rstr.insert(ix, ' ');
                                        k = k + 1;
                                        assert(rstr@ =~= old_r.take(ix as int) + spaces(k as int)
                                            + old_r.skip(ix as int));
                                    }
                                }
                            },
                            None => {},
                        }
                        let first_text = if first && start.len() == 0 && pairs.len() == 0 {
                            clip_skip_v(&t, 0)
                        } else {
                            start
                        };
                        push_many(&mut tstr, ' ', w);
                        push_all(&mut tstr, &first_text);
                        if cstr.len() == 0 {
                            push_many(&mut cstr, ' ', w);
                        }
                        push_many(&mut cstr, ' ', first_text.len());
                        pair_pass(cs, &pairs, w, &mut cstr, &mut tstr, &mut rstr, Ghost(ps));
                    },
                    None => match &self.rhythm {
                        Some(bs) => {
                            let (rs, wfb, _st) = beats_line(bs);
                            rstr = rs;
                            push_many(&mut tstr, ' ', wfb);
                            push_all(&mut tstr, &t);
                        },
                        None => {
                            push_all(&mut tstr, &t);
                        },
                    },
                }
            },
        }
        (string_of(&cstr), string_of(&rstr), string_of(&tstr))
    }
    /// The row as text (see `row_text`): the chord line and the rhythm line when
    /// asked for, then the text.
    pub fn to_string(&self, needs_chords: bool, needs_rhythm: bool) -> (r: String)
        ensures
            r@ == row_text(*self, needs_chords, needs_rhythm),
    {
        let (chords, rhythm, text) = self.get_strings();
        let mut s = String::new();
        if needs_chords && chords.as_str().unicode_len() > 0 {
            s.append(chords.as_str());
            s.push('\n');
        }
        if needs_rhythm && rhythm.as_str().unicode_len() > 0 {
            s.append(rhythm.as_str());
            s.push('\n');
        }
        s.append(text.as_str());
        assert(s@ =~= row_text(*self, needs_chords, needs_rhythm));
        s
    }
}

fn line_to_string(line: &Line, chords: bool, rhythm: bool) -> (r: String)
    ensures
        r@ == line_text(*line, chords, rhythm),
{
    match line {
        Line::TextBlock(row) => row.to_string(chords, rhythm),
        Line::ChordsLine(cs) => {
            let mut s = String::new();
            let mut k: usize = 0;
            while k < cs.len()
                invariant
                    0 <= k <= cs@.len(),
                    s@ == chord_names(cs@, k as int),
                decreases cs@.len() - k,
            {
                s.append(cs[k].text.as_str());
                s.push(' ');
                k = k + 1;
            }
            s
        },
        Line::PlainText(t) => t.clone(),
        Line::EmptyLine => String::new(),
    }
}

fn block_to_string(b: &Block, chords: bool, rhythm: bool, notes: bool, first: bool) -> (r: String)
    ensures
        r@ == block_text(*b, chords, rhythm, notes, first),
{
    let mut s = String::new();
    if !first {
        s.push('\n');
    }
    let ghost s1 = s@;
    if let Some(title) = &b.title {
        if title.as_str().unicode_len() > 0 {
            s.push('\n');
        }
        s.append(title.as_str());
        s.push(' ');
    }
    let ghost s2 = s@;
    if let Some(n) = &b.notes {
        if notes {
            if b.title.is_none() {
                s.push('\n');
            }
            s.append(n.as_str());
        }
    }
    let ghost s3 = s@;
    if b.lines.len() > 0 {
        s.push('\n');
    }
    let ghost s4 = s@;
    let mut k: usize = 0;
    while k < b.lines.len()
        invariant
            0 <= k <= b.lines@.len(),
            s@ == s4 + lines_text(b.lines@, chords, rhythm, k as int),
        decreases b.lines@.len() - k,
    {
        if k > 0 {
            s.push('\n');
        }
        let l = line_to_string(&b.lines[k], chords, rhythm);
        s.append(l.as_str());
        k = k + 1;
        assert(s@ =~= s4 + lines_text(b.lines@, chords, rhythm, k as int));
    }
    assert(s@ =~= block_text(*b, chords, rhythm, notes, first));
    s
}

impl Song {
    /// The song as text, block after block (see `song_text`); `chords`, `rhythm`
    /// and `notes` say whether chord lines, rhythm lines and notes are shown.
    pub fn to_string(&self, chords: bool, rhythm: bool, notes: bool) -> (r: String)
        ensures
            r@ == song_text(self.blocks@, chords, rhythm, notes, self.blocks@.len() as int),
    {
        let mut s = String::new();
        let mut k: usize = 0;
        while k < self.blocks.len()
            invariant
                0 <= k <= self.blocks@.len(),
                s@ == song_text(self.blocks@, chords, rhythm, notes, k as int),
            decreases self.blocks@.len() - k,
        {
            let b = block_to_string(&self.blocks[k], chords, rhythm, notes, k == 0);
            s.append(b.as_str());
            k = k + 1;
        }
        s
    }
}

/// A song as shown: "artist - title" and a blank line when both are known, the
/// song's note when asked for, the first shape of each chord laid out `width`
/// columns wide when chords and shapes are asked for and a width is known, then
/// the blocks.
pub open spec fn song_as_text(
    s: Song,
    board: Fretboard,
    chords: bool,
    rhythm: bool,
    fingerings: bool,
    notes: bool,
    width: Option<usize>,
) -> Seq<char> {
    (if s.metadata.artist@.len() > 0 && s.metadata.title@.len() > 0 {
        s.metadata.artist@ + seq![' ', '-', ' '] + s.metadata.title@ + seq!['\n', '\n']
    } else {
        Seq::empty()
    }) + (match s.notes {
        Some(n) => if notes {
            n@ + seq!['\n']
        } else {
            Seq::empty()
        },
        None => Seq::empty(),
    }) + (match width {
        Some(w) => if chords && fingerings {
            terminated(layout_lines(first_diagrams(board, s.chord_list@), w as int, 0))
        } else {
            Seq::empty()
        },
        None => Seq::empty(),
    }) + song_text(s.blocks@, chords, rhythm, notes, s.blocks@.len() as int)
}

impl Song {
    /// The song as shown (see `song_as_text`); `width` is the width of the
    /// terminal, when there is one.
    pub fn get_song_as_text(
        &self,
        chords: bool,
        rhythm: bool,
        fingerings: bool,
        notes: bool,
        width: Option<usize>,
    ) -> (r: String)
        ensures
            forall|board: Fretboard|
                is_board_of(board, standard_tuning_spec()) ==> r@ == song_as_text(
                    *self,
                    board,
                    chords,
                    rhythm,
                    fingerings,
                    notes,
                    width,
                ),
    {
        let mut s = String::new();
        if self.metadata.artist.as_str().unicode_len() > 0
            && self.metadata.title.as_str().unicode_len() > 0 {
            s.append(self.metadata.artist.as_str());
            s.push(' ');
            s.push('-');
            s.push(' ');
            s.append(self.metadata.title.as_str());
            s.push('\n');
            s.push('\n');
        }
        if let Some(n) = &self.notes {
            if notes {
                s.append(n.as_str());
                s.push('\n');
            }
        }
        let ghost head = s@;
        let mut shapes_text = String::new();
        if let Some(w) = width {
            if chords && fingerings {
                shapes_text = self.get_fingerings_text(w);
            }
        }
        s.append(shapes_text.as_str());
        let body = self.to_string(chords, rhythm, notes);
        s.append(body.as_str());
        proof {
            assert forall|board: Fretboard| is_board_of(board, standard_tuning_spec()) implies s@
                == song_as_text(*self, board, chords, rhythm, fingerings, notes, width) by {
                assert(s@ =~= song_as_text(*self, board, chords, rhythm, fingerings, notes, width));
            }
        }
        s
    }
}

} // verus!
