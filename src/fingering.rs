use vstd::prelude::*;

use std::collections::BTreeMap;

use crate::note::{push_seq, STRINGS};

verus! {

broadcast use {vstd::laws_cmp::group_laws_cmp, vstd::std_specs::btree::group_btree_axioms};

/// Highest fret that a shape may use.
pub const MAX_FRET: u8 = 24;

/// Width in characters of every line of a drawn shape.
pub const DIAGRAM_WIDTH: usize = 14;

/// How one string is played.
#[derive(Debug, Clone, Copy, PartialEq, Eq, Structural)]
pub enum StringState {
    Open,
    Muted,
    FrettedOn(u8),
}

/// A hand shape across the strings, with its window of frets and its barres.
/// `strings[0]` is the highest string.
#[derive(Debug, Clone, PartialEq)]
pub struct Fingering {
    pub fret_num: u8,
    pub chord_size: u8,
    pub strings: [StringState; STRINGS],
    pub bars: Option<BTreeMap<u8, u8>>,
    pub title: Option<String>,
}

/// The string is pressed on fret `f`.
pub open spec fn pressed_on(st: StringState, f: int) -> bool {
    st is FrettedOn && st->0 == f
}

/// Every pressed string is pressed on a fret from 1 to 24.
pub open spec fn frets_in_range(s: Seq<StringState>) -> bool {
    forall|i: int| 0 <= i < s.len() && #[trigger] s[i] is FrettedOn ==> 1 <= s[i]->0 <= MAX_FRET
}

/// The lowest fret pressed among the first `n` strings, 25 if none is pressed.
pub open spec fn min_fret(s: Seq<StringState>, n: int) -> int
    decreases n,
{
    if n <= 0 {
        25
    } else {
        let m = min_fret(s, n - 1);
        if s[n - 1] is FrettedOn && (s[n - 1]->0 as int) < m {
            s[n - 1]->0 as int
        } else {
            m
        }
    }
}

/// The highest fret pressed among the first `n` strings, 0 if none is pressed.
pub open spec fn max_fret(s: Seq<StringState>, n: int) -> int
    decreases n,
{
    if n <= 0 {
        0
    } else {
        let m = max_fret(s, n - 1);
        if s[n - 1] is FrettedOn && (s[n - 1]->0 as int) > m {
            s[n - 1]->0 as int
        } else {
            m
        }
    }
}

/// The first fret of the drawn window: the lowest pressed fret, or 1 when no
/// string is pressed.
pub open spec fn window_start(s: Seq<StringState>) -> int {
    if max_fret(s, s.len() as int) == 0 {
        1
    } else {
        min_fret(s, s.len() as int)
    }
}

/// The number of frets in the drawn window, 0 when no string is pressed.
pub open spec fn window_size(s: Seq<StringState>) -> int {
    if max_fret(s, s.len() as int) == 0 {
        0
    } else {
        max_fret(s, s.len() as int) - min_fret(s, s.len() as int) + 1
    }
}

/// The highest index below `n` of a string pressed on fret `f`, or -1.
pub open spec fn last_on(s: Seq<StringState>, f: int, n: int) -> int
    decreases n,
{
    if n <= 0 {
        -1
    } else if pressed_on(s[n - 1], f) {
        n - 1
    } else {
        last_on(s, f, n - 1)
    }
}

/// The number of strings below index `n` pressed on fret `f`.
pub open spec fn count_on(s: Seq<StringState>, f: int, n: int) -> int
    decreases n,
{
    if n <= 0 {
        0
    } else {
        count_on(s, f, n - 1) + if pressed_on(s[n - 1], f) {
            1int
        } else {
            0
        }
    }
}

/// A barre on fret `f` up to string `h` is impossible: one of strings `0..=h` is
/// open, or is pressed on a lower fret.
pub open spec fn blocked(s: Seq<StringState>, f: int, h: int) -> bool {
    exists|i: int|
        0 <= i <= h && i < s.len() && (#[trigger] s[i] is Open || (s[i] is FrettedOn && (s[i]->0 as int)
            < f))
}

/// The barre on fret `f`: the highest string pressed there is its head, when at
/// least two strings are pressed there and no string up to the head is open or
/// pressed on a lower fret.
pub open spec fn bar_on(s: Seq<StringState>, f: int) -> Option<int> {
    let h = last_on(s, f, s.len() as int);
    if count_on(s, f, s.len() as int) >= 2 && !blocked(s, f, h) {
        Some(h)
    } else {
        None
    }
}

/// The number of barres on frets below `f`.
pub open spec fn bars_below(s: Seq<StringState>, f: int) -> int
    decreases f,
{
    if f <= 1 {
        0
    } else {
        bars_below(s, f - 1) + if bar_on(s, f - 1) is Some {
            1int
        } else {
            0
        }
    }
}

/// The number of strings below index `n` pressed on a fret without a barre.
pub open spec fn unbarred(s: Seq<StringState>, n: int) -> int
    decreases n,
{
    if n <= 0 {
        0
    } else {
        unbarred(s, n - 1) + if s[n - 1] is FrettedOn && bar_on(s, s[n - 1]->0 as int) is None {
            1int
        } else {
            0
        }
    }
}

/// Fingers the shape takes: one per pressed string outside a barre, one per barre.
pub open spec fn finger_count(s: Seq<StringState>) -> int {
    unbarred(s, s.len() as int) + bars_below(s, MAX_FRET + 1)
}

/// The barres on frets 1 to 24, as a map from fret to head string.
pub open spec fn bar_map(s: Seq<StringState>) -> Map<u8, u8> {
    Map::new(
        |f: u8| 1 <= f <= MAX_FRET && bar_on(s, f as int) is Some,
        |f: u8| bar_on(s, f as int)->0 as u8,
    )
}

/// `n` copies of `p`, one after another.
pub open spec fn rep(p: Seq<char>, n: int) -> Seq<char>
    decreases n,
{
    if n <= 0 {
        Seq::empty()
    } else {
        rep(p, n - 1) + p
    }
}

/// The mark of a string in the top row.
pub open spec fn head_cell(st: StringState) -> Seq<char> {
    match st {
        StringState::Open => seq!['O', ' '],
        StringState::Muted => seq!['X', ' '],
        StringState::FrettedOn(_) => seq![' ', ' '],
    }
}

/// The mark of a string in the row of fret `f`.
pub open spec fn dot_cell(st: StringState, f: int) -> Seq<char> {
    if pressed_on(st, f) {
        seq!['o', ' ']
    } else {
        seq!['|', ' ']
    }
}

/// Top-row marks of strings `s.len() - 1` down to `lo`.
pub open spec fn head_cells(s: Seq<StringState>, lo: int) -> Seq<char>
    decreases s.len() - lo,
{
    if lo < 0 || lo >= s.len() {
        Seq::empty()
    } else {
        head_cells(s, lo + 1) + head_cell(s[lo])
    }
}

/// Marks for fret `f` of strings `s.len() - 1` down to `lo`.
pub open spec fn dot_cells(s: Seq<StringState>, f: int, lo: int) -> Seq<char>
    decreases s.len() - lo,
{
    if lo < 0 || lo >= s.len() {
        Seq::empty()
    } else {
        dot_cells(s, f, lo + 1) + dot_cell(s[lo], f)
    }
}

/// The decimal digits of `n`, for `n` below 100.
pub open spec fn num_text(n: int) -> Seq<char> {
    let d = seq!['0', '1', '2', '3', '4', '5', '6', '7', '8', '9'];
    if n < 10 {
        seq![d[n]]
    } else {
        seq![d[n / 10], d[n % 10]]
    }
}

/// The row that shows which strings are pressed on fret `f`: a barre drawn with
/// `>` from the head string to the first, or an `o` on each pressed string.
pub open spec fn fret_row(s: Seq<StringState>, f: int) -> Seq<char> {
    let marks = match bar_on(s, f) {
        Some(h) => rep(seq!['|', ' '], 5 - h) + rep(seq!['>', '>'], h) + seq!['>', ' '],
        None => dot_cells(s, f, 0),
    };
    marks + num_text(f) + if f < 10 {
        seq![' ']
    } else {
        Seq::empty()
    }
}

/// The row of bare strings.
pub open spec fn strings_row() -> Seq<char> {
    rep(seq!['|', ' '], 6) + seq![' ', ' ']
}

/// The line under a fret.
pub open spec fn fret_line() -> Seq<char> {
    rep(seq!['-'], 11) + seq![' ', ' ', ' ']
}

/// The four lines that draw fret `f`.
pub open spec fn fret_lines(s: Seq<StringState>, f: int) -> Seq<Seq<char>> {
    seq![strings_row(), fret_row(s, f), strings_row(), fret_line()]
}

/// The lines for the first `n` frets of the window starting at `start`.
pub open spec fn window_lines(s: Seq<StringState>, start: int, n: int) -> Seq<Seq<char>>
    decreases n,
{
    if n <= 0 {
        Seq::empty()
    } else {
        window_lines(s, start, n - 1) + fret_lines(s, start + n - 1)
    }
}

/// The lines of the drawing of a shape: the open and muted marks, the nut (`=`
/// on the first fret, `-` elsewhere), then four lines per fret of the window.
/// A shape that presses no string ends with an empty line.
pub open spec fn diagram_lines(s: Seq<StringState>) -> Seq<Seq<char>> {
    let top = head_cells(s, 0) + seq![' ', ' '];
    let nut = if window_start(s) == 1 {
        rep(seq!['='], 11)
    } else {
        rep(seq!['-'], 11)
    } + seq![' ', ' ', ' '];
    if window_size(s) == 0 {
        seq![top, nut, Seq::empty()]
    } else {
        seq![top, nut] + window_lines(s, window_start(s), window_size(s))
    }
}

/// Lines joined with line breaks between them.
pub open spec fn join_lines(ls: Seq<Seq<char>>) -> Seq<char>
    decreases ls.len(),
{
    if ls.len() == 0 {
        Seq::empty()
    } else if ls.len() == 1 {
        ls[0]
    } else {
        join_lines(ls.drop_last()) + seq!['\n'] + ls.last()
    }
}

impl Fingering {
    /// The fields are what `new` computes from `strings`.
    pub open spec fn wf(&self) -> bool {
        let s = self.strings@;
        &&& frets_in_range(s)
        &&& self.fret_num as int == window_start(s)
        &&& self.chord_size as int == window_size(s)
        &&& finger_count(s) <= 4
        &&& match self.bars {
            None => bars_below(s, MAX_FRET + 1) == 0,
            Some(m) => m@ == bar_map(s) && bars_below(s, MAX_FRET + 1) > 0,
        }
    }

    /// Builds the shape for `strings`, labelled with `title`; `None` when a pressed
    /// fret lies outside 1 to 24 or when the shape takes more than four fingers.
    pub fn new(strings: [StringState; STRINGS], title: Option<String>) -> (r: Option<Fingering>)
        ensures
            match r {
                None => !frets_in_range(strings@) || finger_count(strings@) > 4,
                Some(f) => f.strings == strings && f.wf() && f.title == title,
            },
    {
        let mut i: usize = 0;
        let mut fret_num: u8 = 25;
        let mut max: u8 = 0;
        while i < STRINGS
            invariant
                0 <= i <= STRINGS,
                frets_in_range(strings@.take(i as int)),
                fret_num as int == min_fret(strings@, i as int),
                max as int == max_fret(strings@, i as int),
            decreases STRINGS - i,
        {
            if let StringState::FrettedOn(f) = strings[i] {
                if f < 1 || f > MAX_FRET {
                    assert(!frets_in_range(strings@)) by {
                        assert(strings@[i as int] is FrettedOn);
                    }
                    return None;
                }
                if f < fret_num {
                    fret_num = f;
                }
                if f > max {
                    max = f;
                }
            }
            i = i + 1;
            assert forall|k: int|
                0 <= k < i && #[trigger] strings@.take(i as int)[k] is FrettedOn implies 1
                    <= strings@.take(i as int)[k]->0 <= MAX_FRET by {
                if k < i - 1 {
                    assert(strings@.take(i as int)[k] == strings@.take(i as int - 1)[k]);
                }
            }
        }
        assert(strings@.take(STRINGS as int) =~= strings@);
        proof {
            lemma_min_le_max(strings@, STRINGS as int);
        }
        let chord_size: u8 = if max == 0 {
            fret_num = 1;
            0
        } else {
            max - fret_num + 1
        };

        let mut bars: BTreeMap<u8, u8> = BTreeMap::new();
        let mut n_bars: u8 = 0;
        let mut f: u8 = 1;
        assert(bars@ =~= Map::new(
            |g: u8| 1 <= g < f && bar_on(strings@, g as int) is Some,
            |g: u8| bar_on(strings@, g as int)->0 as u8,
        ));
        while f <= MAX_FRET
            invariant
                1 <= f <= MAX_FRET + 1,
                n_bars as int == bars_below(strings@, f as int),
                n_bars <= f,
                bars@ == Map::new(
                    |g: u8| 1 <= g < f && bar_on(strings@, g as int) is Some,
                    |g: u8| bar_on(strings@, g as int)->0 as u8,
                ),
            decreases MAX_FRET + 1 - f,
        {
            if let Some(h) = bar_head(&strings, f) {
                bars.insert(f, h);
                n_bars = n_bars + 1;
            }
            f = f + 1;
            assert(bars@ =~= Map::new(
                |g: u8| 1 <= g < f && bar_on(strings@, g as int) is Some,
                |g: u8| bar_on(strings@, g as int)->0 as u8,
            ));
        }
        assert(bars@ =~= bar_map(strings@));

        let mut fretted: u8 = 0;
        let mut i: usize = 0;
        while i < STRINGS
            invariant
                0 <= i <= STRINGS,
                fretted as int == unbarred(strings@, i as int),
                fretted <= i,
                frets_in_range(strings@),
            decreases STRINGS - i,
        {
            if let StringState::FrettedOn(g) = strings[i] {
                if bar_head(&strings, g).is_none() {
                    fretted = fretted + 1;
                }
            }
            i = i + 1;
        }
        if fretted as u32 + n_bars as u32 > 4 {
            return None;
        }
        Some(
            Fingering {
                fret_num,
                chord_size,
                strings,
                bars: if n_bars == 0 {
                    None
                } else {
                    Some(bars)
                },
                title,
            },
        )
    }
}

impl Fingering {
    /// The lines of the drawing (see `diagram_lines`).
    pub fn get_lines(&self) -> (r: Vec<String>)
        requires
            self.wf(),
        ensures
            r@.map_values(|l: String| l@) == diagram_lines(self.strings@),
    {
        let ghost s = self.strings@;
        proof {
            lemma_min_le_max(s, STRINGS as int);
        }
        let mut lines: Vec<String> = Vec::new();
        let mut top = String::new();
        let mut k: usize = STRINGS;
        while k > 0
            invariant
                k <= STRINGS,
                s == self.strings@,
                top@ == head_cells(s, k as int),
            decreases k,
        {
            k = k - 1;
            match self.strings[k] {
                StringState::Open => push_seq(&mut top, &['O', ' ']),
                StringState::Muted => push_seq(&mut top, &['X', ' ']),
                StringState::FrettedOn(_) => push_seq(&mut top, &[' ', ' ']),
            }
        }
        push_seq(&mut top, &[' ', ' ']);
        lines.push(top);
        let mut nut = String::new();
        if self.fret_num == 1 {
            push_rep_char(&mut nut, '=', 11);
        } else {
            push_rep_char(&mut nut, '-', 11);
        }
        push_seq(&mut nut, &[' ', ' ', ' ']);
        lines.push(nut);
        if self.chord_size == 0 {
            lines.push(String::new());
            assert(lines@.map_values(|l: String| l@) =~= diagram_lines(s));
            return lines;
        }
        let ghost head = seq![lines@[0]@, lines@[1]@];
        assert(lines@.map_values(|l: String| l@) =~= head);
        let mut i: u8 = 0;
        while i < self.chord_size
            invariant
                self.wf(),
                s == self.strings@,
                i <= self.chord_size,
                self.fret_num >= 1,
                self.fret_num as int + self.chord_size - 1 <= MAX_FRET,
                lines@.map_values(|l: String| l@) == head + window_lines(
                    s,
                    self.fret_num as int,
                    i as int,
                ),
            decreases self.chord_size - i,
        {
            let f: u8 = self.fret_num + i;
            let ghost before = lines@;
            let a = strings_line();
            let b = self.fret_mark_line(f);
            let c = strings_line();
            let mut sep = String::new();
            push_rep_char(&mut sep, '-', 11);
            push_seq(&mut sep, &[' ', ' ', ' ']);
            let ghost block = seq![a@, b@, c@, sep@];
            assert(block == fret_lines(s, f as int));
            lines.push(a);
            lines.push(b);
            lines.push(c);
            lines.push(sep);
            assert(lines@.map_values(|l: String| l@) =~= before.map_values(|l: String| l@) + block);
            i = i + 1;
            assert(lines@.map_values(|l: String| l@) =~= head + window_lines(
                s,
                self.fret_num as int,
                i as int,
            ));
        }
        assert(head + window_lines(s, self.fret_num as int, i as int) =~= diagram_lines(s));
        lines
    }

    fn fret_mark_line(&self, f: u8) -> (r: String)
        requires
            self.wf(),
            1 <= f <= MAX_FRET,
        ensures
            r@ == fret_row(self.strings@, f as int),
    {
        let mut row = String::new();
        let mut head: Option<u8> = None;
        if let Some(m) = &self.bars {
            if let Some(h) = m.get(&f) {
                head = Some(*h);
            }
        }
        proof {
            if self.bars is None {
                lemma_no_bars(self.strings@, MAX_FRET + 1, f as int);
            }
        }
        match head {
            Some(h) => {
                proof {
                    lemma_bar_head_bound(self.strings@, f as int);
                }
                push_rep(&mut row, &['|', ' '], 5 - h as usize);
                push_rep(&mut row, &['>', '>'], h as usize);
                push_seq(&mut row, &['>', ' ']);
            },
            None => {
                let mut k: usize = STRINGS;
                while k > 0
                    invariant
                        k <= STRINGS,
                        row@ == dot_cells(self.strings@, f as int, k as int),
                    decreases k,
                {
                    k = k - 1;
                    if self.strings[k] == StringState::FrettedOn(f) {
                        push_seq(&mut row, &['o', ' ']);
                    } else {
                        push_seq(&mut row, &['|', ' ']);
                    }
                }
            },
        }
        push_num(&mut row, f);
        if f < 10 {
            row.push(' ');
        }
        row
    }

    /// The drawing: its lines joined with line breaks.
    pub fn get_text(&self) -> (r: String)
        requires
            self.wf(),
        ensures
            r@ == join_lines(diagram_lines(self.strings@)),
    {
        let lines = self.get_lines();
        let ghost ls = lines@.map_values(|l: String| l@);
        let mut text = String::new();
        let mut i: usize = 0;
        while i < lines.len()
            invariant
                0 <= i <= lines@.len(),
                ls == lines@.map_values(|l: String| l@),
                text@ == join_lines(ls.take(i as int)),
            decreases lines@.len() - i,
        {
            if i > 0 {
                text.push('\n');
            }
            text.append(lines[i].as_str());
            i = i + 1;
            assert(ls.take(i as int).drop_last() =~= ls.take(i as int - 1));
        }
        assert(ls.take(i as int) =~= ls);
        text
    }
}

fn strings_line() -> (r: String)
    ensures
        r@ == strings_row(),
{
    let mut l = String::new();
    push_rep(&mut l, &['|', ' '], 6);
    push_seq(&mut l, &[' ', ' ']);
    l
}

/// Appends `n` copies of `p` to `s`.
fn push_rep(s: &mut String, p: &[char], n: usize)
    ensures
        final(s)@ == old(s)@ + rep(p@, n as int),
{
    let mut i: usize = 0;
    while i < n
        invariant
            0 <= i <= n,
            s@ == old(s)@ + rep(p@, i as int),
        decreases n - i,
    {
        push_seq(s, p);
        i = i + 1;
        assert(old(s)@ + rep(p@, i as int) =~= old(s)@ + rep(p@, i - 1) + p@);
    }
}

/// Appends `n` copies of `c` to `s`.
fn push_rep_char(s: &mut String, c: char, n: usize)
    ensures
        final(s)@ == old(s)@ + rep(seq![c], n as int),
{
    let p = [c];
    assert(p@ =~= seq![c]);
    push_rep(s, &p, n);
}

/// Appends the decimal digits of `n` to `s`.
pub fn push_num(s: &mut String, n: u8)
    requires
        n < 100,
    ensures
        final(s)@ == old(s)@ + num_text(n as int),
{
    let d = ['0', '1', '2', '3', '4', '5', '6', '7', '8', '9'];
    assert(d@ =~= seq!['0', '1', '2', '3', '4', '5', '6', '7', '8', '9']);
    if n < 10 {
        s.push(d[n as usize]);
    } else {
        s.push(d[(n / 10) as usize]);
        s.push(d[(n % 10) as usize]);
    }
    assert(final(s)@ =~= old(s)@ + num_text(n as int));
}

proof fn lemma_no_bars(s: Seq<StringState>, f: int, g: int)
    requires
        bars_below(s, f) == 0,
        1 <= g < f,
    ensures
        bar_on(s, g) is None,
    decreases f,
{
    lemma_bars_below_nonneg(s, f - 1);
    if g < f - 1 {
        lemma_no_bars(s, f - 1, g);
    }
}

proof fn lemma_bars_below_nonneg(s: Seq<StringState>, f: int)
    ensures
        bars_below(s, f) >= 0,
    decreases f,
{
    if f > 1 {
        lemma_bars_below_nonneg(s, f - 1);
    }
}

proof fn lemma_bar_head_bound(s: Seq<StringState>, f: int)
    requires
        bar_on(s, f) is Some,
    ensures
        0 <= bar_on(s, f)->0 < s.len(),
{
    lemma_last_on_bound(s, f, s.len() as int);
    lemma_count_pos(s, f, s.len() as int);
}

proof fn lemma_last_on_bound(s: Seq<StringState>, f: int, n: int)
    requires
        n <= s.len(),
    ensures
        -1 <= last_on(s, f, n) < n || (n <= 0 && last_on(s, f, n) == -1),
    decreases n,
{
    if n > 0 {
        lemma_last_on_bound(s, f, n - 1);
    }
}

proof fn lemma_count_pos(s: Seq<StringState>, f: int, n: int)
    requires
        n <= s.len(),
    ensures
        count_on(s, f, n) > 0 ==> last_on(s, f, n) >= 0,
        count_on(s, f, n) >= 0,
    decreases n,
{
    if n > 0 {
        lemma_count_pos(s, f, n - 1);
    }
}

proof fn lemma_min_le_max(s: Seq<StringState>, n: int)
    requires
        frets_in_range(s),
        0 <= n <= s.len(),
    ensures
        max_fret(s, n) >= 0,
        max_fret(s, n) == 0 ==> min_fret(s, n) == 25,
        max_fret(s, n) > 0 ==> 1 <= min_fret(s, n) <= max_fret(s, n) <= MAX_FRET,
    decreases n,
{
    if n > 0 {
        lemma_min_le_max(s, n - 1);
        if s[n - 1] is FrettedOn {
            assert(1 <= s[n - 1]->0 <= MAX_FRET);
            if max_fret(s, n - 1) == 0 {
                assert(min_fret(s, n) == s[n - 1]->0);
                assert(max_fret(s, n) == s[n - 1]->0);
            }
        }
    }
}

/// The head of the barre on fret `f` (see `bar_on`).
fn bar_head(strings: &[StringState; STRINGS], f: u8) -> (r: Option<u8>)
    ensures
        match r {
            Some(h) => bar_on(strings@, f as int) == Some(h as int) && h < STRINGS,
            None => bar_on(strings@, f as int) is None,
        },
{
    let mut last: usize = 0;
    let mut count: usize = 0;
    let mut i: usize = 0;
    while i < STRINGS
        invariant
            0 <= i <= STRINGS,
            count as int == count_on(strings@, f as int, i as int),
            count <= i,
            count > 0 ==> last as int == last_on(strings@, f as int, i as int),
            count == 0 ==> last_on(strings@, f as int, i as int) == -1,
            last < STRINGS,
        decreases STRINGS - i,
    {
        if strings[i] == StringState::FrettedOn(f) {
            last = i;
            count = count + 1;
        }
        i = i + 1;
    }
    if count < 2 {
        return None;
    }
    let mut j: usize = 0;
    while j <= last
        invariant
            0 <= j <= last + 1,
            last < STRINGS,
            last as int == last_on(strings@, f as int, STRINGS as int),
            count_on(strings@, f as int, STRINGS as int) >= 2,
            forall|k: int|
                0 <= k < j ==> !(#[trigger] strings@[k] is Open || (strings@[k] is FrettedOn && (
                strings@[k]->0 as int) < f)),
        decreases last + 1 - j,
    {
        match strings[j] {
            StringState::Open => {
                assert(strings@[j as int] is Open);
                assert(blocked(strings@, f as int, last as int));
                return None;
            },
            StringState::FrettedOn(g) => {
                if g < f {
                    assert(strings@[j as int] is FrettedOn && (strings@[j as int]->0 as int) < f);
                    assert(blocked(strings@, f as int, last as int));
                    return None;
                }
            },
            StringState::Muted => {},
        }
        j = j + 1;
    }
    Some(last as u8)
}

/// `rep(p, n)` is `n` times as long as `p`.
pub proof fn lemma_rep_len(p: Seq<char>, n: int)
    requires
        n >= 0,
    ensures
        rep(p, n).len() == p.len() * n,
    decreases n,
{
    if n > 0 {
        lemma_rep_len(p, n - 1);
        let a = rep(p, n - 1).len() as int;
        let b = p.len() as int;
        assert(a + b == b * n) by (nonlinear_arith)
            requires
                a == b * (n - 1),
        ;
    } else {
        assert(p.len() * n == 0) by (nonlinear_arith)
            requires
                n == 0,
        ;
    }
}

proof fn lemma_cells_len(s: Seq<StringState>, f: int, lo: int)
    requires
        0 <= lo <= s.len(),
    ensures
        head_cells(s, lo).len() == 2 * (s.len() - lo),
        dot_cells(s, f, lo).len() == 2 * (s.len() - lo),
    decreases s.len() - lo,
{
    if lo < s.len() {
        lemma_cells_len(s, f, lo + 1);
    }
}

proof fn lemma_window_widths(s: Seq<StringState>, start: int, n: int)
    requires
        s.len() == STRINGS,
        n >= 0,
        start >= 1,
        start + n <= 100,
    ensures
        forall|i: int|
            0 <= i < window_lines(s, start, n).len() ==> #[trigger] window_lines(
                s,
                start,
                n,
            )[i].len() == DIAGRAM_WIDTH,
        window_lines(s, start, n).len() == 4 * n,
    decreases n,
{
    if n > 0 {
        lemma_window_widths(s, start, n - 1);
        let f = start + n - 1;
        lemma_rep_len(seq!['|', ' '], 6);
        lemma_rep_len(seq!['-'], 11);
        lemma_cells_len(s, f, 0);
        assert(num_text(f).len() + if f < 10 {
            1int
        } else {
            0
        } == 2);
        match bar_on(s, f) {
            Some(h) => {
                lemma_bar_head_bound(s, f);
                lemma_rep_len(seq!['|', ' '], 5 - h);
                lemma_rep_len(seq!['>', '>'], h);
                let a = rep(seq!['|', ' '], 5 - h).len() as int;
                let b = rep(seq!['>', '>'], h).len() as int;
                assert(seq!['|', ' '].len() == 2 && seq!['>', '>'].len() == 2);
                assert(a + b == 10) by (nonlinear_arith)
                    requires
                        a == 2 * (5 - h),
                        b == 2 * h,
                ;
            },
            None => {
                assert(dot_cells(s, f, 0).len() == 12);
            },
        }
        assert(fret_row(s, f).len() == DIAGRAM_WIDTH);
        let w = window_lines(s, start, n);
        assert(w == window_lines(s, start, n - 1) + fret_lines(s, f));
        assert forall|i: int| 0 <= i < w.len() implies #[trigger] w[i].len() == DIAGRAM_WIDTH by {
            if i < window_lines(s, start, n - 1).len() {
                assert(w[i] == window_lines(s, start, n - 1)[i]);
            } else {
                assert(w[i] == fret_lines(s, f)[i - window_lines(s, start, n - 1).len()]);
            }
        }
    }
}

/// Every line of the drawing of a well-formed shape is at most 14 characters wide.
pub proof fn lemma_diagram_widths(s: Seq<StringState>)
    requires
        s.len() == STRINGS,
        frets_in_range(s),
    ensures
        forall|i: int|
            0 <= i < diagram_lines(s).len() ==> #[trigger] diagram_lines(s)[i].len()
                <= DIAGRAM_WIDTH,
{
    lemma_min_le_max(s, STRINGS as int);
    lemma_cells_len(s, 0, 0);
    lemma_rep_len(seq!['='], 11);
    lemma_rep_len(seq!['-'], 11);
    let d = diagram_lines(s);
    if window_size(s) != 0 {
        lemma_window_widths(s, window_start(s), window_size(s));
        let w = window_lines(s, window_start(s), window_size(s));
        assert forall|i: int| 0 <= i < d.len() implies #[trigger] d[i].len() <= DIAGRAM_WIDTH by {
            if i >= 2 {
                assert(d[i] == w[i - 2]);
            }
        }
    }
}

} // verus!
