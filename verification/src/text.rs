//! Views of lists of strings.

use vstd::prelude::*;

verus! {

/// The character sequences of a list of strings, in order.
pub open spec fn texts(strings: Seq<String>) -> Seq<Seq<char>> {
    strings.map_values(|s: String| s@)
}

/// Appending a string appends its characters' sequence to the view.
pub proof fn lemma_texts_push(strings: Seq<String>, last: String)
    ensures
        texts(strings.push(last)) == texts(strings).push(last@),
{
    assert(texts(strings.push(last)) =~= texts(strings).push(last@));
}

} // verus!
