//! Joining pieces of text.

use vstd::prelude::*;
use vstd::string::*;

verus! {

/// The pieces of `parts` in order, with `separator` between each two.
pub open spec fn joined(parts: Seq<Seq<char>>, separator: Seq<char>) -> Seq<char>
    decreases parts.len(),
{
    if parts.len() == 0 {
        Seq::empty()
    } else if parts.len() == 1 {
        parts[0]
    } else {
        joined(parts.drop_last(), separator) + separator + parts.last()
    }
}

/// The characters of each text of `texts`.
pub open spec fn texts_of(texts: Seq<String>) -> Seq<Seq<char>> {
    Seq::new(texts.len(), |i: int| texts[i]@)
}

/// Returns the texts of `parts` in order, with `separator` between each two.
pub fn join(parts: &Vec<String>, separator: &str) -> (text: String)
    ensures
        text@ == joined(texts_of(parts@), separator@),
{
    let ghost pieces = texts_of(parts@);
    let mut text = String::new();
    let mut index: usize = 0;
    while index < parts.len()
        invariant
            index <= parts@.len(),
            pieces == texts_of(parts@),
            text@ == joined(pieces.take(index as int), separator@),
        decreases parts@.len() - index,
    {
        proof {
            assert(pieces.take(index + 1).drop_last() =~= pieces.take(index as int));
            assert(pieces.take(index + 1).last() == parts@[index as int]@);
        }
        if index > 0 {
            text.append(separator);
        }
        text.append(parts[index].as_str());
        proof {
            if index == 0 {
                assert(text@ =~= pieces[0]);
            }
        }
        index = index + 1;
    }
    proof {
        assert(pieces.take(parts@.len() as int) =~= pieces);
    }
    text
}

} // verus!
