//! Indexing that counts from the end when the index is negative.

use vstd::prelude::*;

verus! {

/// The item that `index` selects in `items`: counted from the front when
/// `index` is zero or more, from the back when it is negative (`-1` is the
/// last item). `None` where no such item exists.
pub open spec fn pick<T>(items: Seq<T>, index: int) -> Option<T> {
    let at = if index < 0 {
        items.len() + index
    } else {
        index
    };
    if 0 <= at < items.len() {
        Some(items[at])
    } else {
        None
    }
}

/// Lists that can be indexed from either end without panicking.
pub trait NegativeIndex<T> {
    /// The items of the list, front to back.
    spec fn items(&self) -> Seq<T>;

    /// The item at `index`, or `None` when the list is too short.
    fn neg_index(&self, index: isize) -> (found: Option<&T>)
        ensures
            match found {
                Some(item) => pick(self.items(), index as int) == Some(*item),
                None => pick(self.items(), index as int) is None,
            },
    ;
}

impl<T> NegativeIndex<T> for Vec<T> {
    open spec fn items(&self) -> Seq<T> {
        self@
    }

    fn neg_index(&self, index: isize) -> (found: Option<&T>) {
        let length: i128 = self.len() as i128;
        let at: i128 = if index < 0 {
            length + index as i128
        } else {
            index as i128
        };
        if 0 <= at && at < length {
            Some(&self[at as usize])
        } else {
            None
        }
    }
}

} // verus!
