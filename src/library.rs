use vstd::prelude::*;

use crate::note::chars_of;

verus! {

/// Characters that cannot stand in the name of a file of the song library.
pub open spec fn forbidden(c: char) -> bool {
    c == '<' || c == '>' || c == ':' || c == '/' || c == '\\' || c == '|' || c == '?' || c == '*'
        || c == '`'
}

/// `text` with every forbidden character replaced by `_`, for use as a file name.
pub fn get_without_forbidden_chars(text: &str) -> (r: String)
    ensures
        r@ == text@.map_values(|c: char| if forbidden(c) { '_' } else { c }),
{
    let v = chars_of(text);
    let mut s = String::new();
    let mut i: usize = 0;
    while i < v.len()
        invariant
            0 <= i <= v@.len(),
            v@ == text@,
            s@ == text@.take(i as int).map_values(|c: char| if forbidden(c) { '_' } else { c }),
        decreases v@.len() - i,
    {
        let c = v[i];
        let forbidden_char = c == '<' || c == '>' || c == ':' || c == '/' || c == '\\' || c == '|'
            || c == '?' || c == '*' || c == '`';
        s.push(if forbidden_char { '_' } else { c });
        i = i + 1;
        assert(s@ =~= text@.take(i as int).map_values(|c: char| if forbidden(c) { '_' } else { c }));
    }
    assert(text@.take(i as int) =~= text@);
    s
}

} // verus!
