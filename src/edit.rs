use vstd::prelude::*;

use crate::chord::{chord_model, Chord};
use crate::note::chars_of;
use crate::song::{Beat, ChordPosition};

verus! {

/// The rhythm marks among the first `k` characters of an edited rhythm line:
/// every character but a space is a mark, played before the text when it stands in
/// the first `ws` columns, else placed at its column less `ws`.
pub open spec fn edited_beats(line: Seq<char>, ws: int, k: int) -> Seq<Beat>
    decreases k,
{
    if k <= 0 {
        Seq::empty()
    } else {
        let prev = edited_beats(line, ws, k - 1);
        let c = line[k - 1];
        if c == ' ' {
            prev
        } else if ws > k - 1 {
            prev.push(Beat::UpBeat(c))
        } else {
            prev.push(Beat::OnIndex { index: (k - 1 - ws) as usize, symbol: c })
        }
    }
}

/// After the first `k` characters of `line`: the word being read, and the words
/// read so far with the column each starts at. Words are runs of characters
/// other than spaces; a word counts once a space ends it.
pub open spec fn words_upto(line: Seq<char>, k: int) -> (Seq<char>, Seq<(int, Seq<char>)>)
    decreases k,
{
    if k <= 0 {
        (Seq::empty(), Seq::empty())
    } else {
        let p = words_upto(line, k - 1);
        let c = line[k - 1];
        if c != ' ' {
            (p.0.push(c), p.1)
        } else if p.0.len() == 0 {
            p
        } else {
            (Seq::empty(), p.1.push((k - 1 - p.0.len(), p.0)))
        }
    }
}

/// The words of a line with the column each starts at.
pub open spec fn words(line: Seq<char>) -> Seq<(int, Seq<char>)> {
    words_upto(line.push(' '), line.len() + 1int).1
}

/// The chords among the first `k` words: for each word that reads as a chord, the
/// column it stands at less `ws` (none when it stands in the first `ws` columns,
/// before the text) and its text.
pub open spec fn edited_chords(ws: Seq<(int, Seq<char>)>, skip: int, k: int) -> Seq<
    (Option<int>, Seq<char>),
>
    decreases k,
{
    if k <= 0 {
        Seq::empty()
    } else {
        let prev = edited_chords(ws, skip, k - 1);
        let w = ws[k - 1];
        if chord_model(w.1) is Some {
            prev.push(
                (
                    if skip > w.0 {
                        None
                    } else {
                        Some(w.0 - skip)
                    },
                    w.1,
                ),
            )
        } else {
            prev
        }
    }
}

/// Each position holds the chord read from the text listed for it, before the text
/// or at the column listed.
pub open spec fn positions_match(v: Seq<ChordPosition>, ps: Seq<(Option<int>, Seq<char>)>) -> bool {
    &&& v.len() == ps.len()
    &&& forall|j: int|
        0 <= j < v.len() ==> match #[trigger] v[j] {
            ChordPosition::UpBeat(c) => ps[j].0 is None && c.text@ == ps[j].1 && chord_model(
                ps[j].1,
            ) == Some(c.fields()),
            ChordPosition::OnIndex { index, chord } => ps[j].0 == Some(index as int)
                && chord.text@ == ps[j].1 && chord_model(ps[j].1) == Some(chord.fields()),
        }
}

/// The rhythm marks of an edited rhythm line whose text starts after
/// `whitespaces` columns (see `edited_beats`); `None` when there is none.
pub fn rhythm_from_edited(line: &str, whitespaces: usize) -> (r: Option<Vec<Beat>>)
    ensures
        match r {
            None => edited_beats(line@, whitespaces as int, line@.len() as int).len() == 0,
            Some(v) => v@ == edited_beats(line@, whitespaces as int, line@.len() as int) && v@.len()
                > 0,
        },
{
    let cs = chars_of(line);
    let mut beats: Vec<Beat> = Vec::new();
    let mut i: usize = 0;
    while i < cs.len()
        invariant
            0 <= i <= cs@.len(),
            cs@ == line@,
            beats@ == edited_beats(line@, whitespaces as int, i as int),
        decreases cs@.len() - i,
    {
        let c = cs[i];
        if c != ' ' {
            beats.push(
                if whitespaces > i {
                    Beat::UpBeat(c)
                } else {
                    Beat::OnIndex { index: i - whitespaces, symbol: c }
                },
            );
        }
        i = i + 1;
    }
    if beats.len() == 0 {
        None
    } else {
        Some(beats)
    }
}

/// The chords of an edited chord line whose text starts after `whitespaces`
/// columns (see `edited_chords`); words that are not chords are left out, and
/// `None` stands for no chord.
pub fn chords_from_edited(line: &str, whitespaces: usize) -> (r: Option<Vec<ChordPosition>>)
    ensures
        match r {
            None => edited_chords(words(line@), whitespaces as int, words(line@).len() as int).len()
                == 0,
            Some(v) => positions_match(
                v@,
                edited_chords(words(line@), whitespaces as int, words(line@).len() as int),
            ) && v@.len() > 0,
        },
{
    let mut cs = chars_of(line);
    cs.push(' ');
    let ghost full = line@.push(' ');
    let mut chords: Vec<ChordPosition> = Vec::new();
    let mut word: Vec<char> = Vec::new();
    let mut done: usize = 0;
    let mut i: usize = 0;
    while i < cs.len()
        invariant
            0 <= i <= cs@.len(),
            cs@ == full,
            full == line@.push(' '),
            words_upto(full, i as int).0 == word@,
            done as int == words_upto(full, i as int).1.len(),
            positions_match(
                chords@,
                edited_chords(words_upto(full, i as int).1, whitespaces as int, done as int),
            ),
            word@.len() <= i,
            done <= i,
        decreases cs@.len() - i,
    {
        let ghost before = words_upto(full, i as int).1;
        let c = cs[i];
        if c != ' ' {
            word.push(c);
        } else if word.len() > 0 {
            let start = i - word.len();
            let text = string_of_chars(&word);
            let ghost after = before.push((start as int, word@));
            assert(after == words_upto(full, i + 1).1);
            proof {
                lemma_edited_prefix(before, after, whitespaces as int, done as int);
            }
            if let Some(chord) = Chord::new(text.as_str()) {
                let p = if whitespaces > start {
                    ChordPosition::UpBeat(chord)
                } else {
                    ChordPosition::OnIndex { index: start - whitespaces, chord }
                };
                let ghost prev = chords@;
                chords.push(p);
                assert forall|j: int| 0 <= j < chords@.len() implies match #[trigger] chords@[j] {
                    ChordPosition::UpBeat(c) => edited_chords(after, whitespaces as int, done + 1)[j].0 is None
                        && c.text@ == edited_chords(after, whitespaces as int, done + 1)[j].1
                        && chord_model(edited_chords(after, whitespaces as int, done + 1)[j].1)
                        == Some(c.fields()),
                    ChordPosition::OnIndex { index, chord } => edited_chords(
                        after,
                        whitespaces as int,
                        done + 1,
                    )[j].0 == Some(index as int) && chord.text@ == edited_chords(
                        after,
                        whitespaces as int,
                        done + 1,
                    )[j].1 && chord_model(edited_chords(after, whitespaces as int, done + 1)[j].1)
                        == Some(chord.fields()),
                } by {
                    if j < prev.len() {
                        assert(chords@[j] == prev[j]);
                    }
                }
            }
            word.clear();
            done = done + 1;
        }
        i = i + 1;
    }
    assert(cs@.len() == line@.len() + 1);
    if chords.len() == 0 {
        None
    } else {
        Some(chords)
    }
}

proof fn lemma_edited_prefix(
    before: Seq<(int, Seq<char>)>,
    after: Seq<(int, Seq<char>)>,
    skip: int,
    k: int,
)
    requires
        0 <= k <= before.len(),
        after.len() == before.len() + 1,
        forall|j: int| 0 <= j < before.len() ==> after[j] == before[j],
    ensures
        edited_chords(after, skip, k) == edited_chords(before, skip, k),
    decreases k,
{
    if k > 0 {
        lemma_edited_prefix(before, after, skip, k - 1);
    }
}

fn string_of_chars(v: &Vec<char>) -> (r: String)
    ensures
        r@ == v@,
{
    let mut s = String::new();
    let mut i: usize = 0;
    while i < v.len()
        invariant
            0 <= i <= v@.len(),
            s@ == v@.take(i as int),
        decreases v@.len() - i,
    {
        s.push(v[i]);
        i = i + 1;
        assert(s@ =~= v@.take(i as int));
    }
    assert(v@.take(i as int) =~= v@);
    s
}

} // verus!
