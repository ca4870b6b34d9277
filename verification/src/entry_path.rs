//! Paths of archive entries as ordered components, and the volume name that
//! such a path lies under.
//!
//! An archive written from a directory that holds one sub-directory per
//! volume lists its entries as `./<volume>/<path inside the volume>`. The
//! volume name of an entry is found in the chain of the path's ancestors: it
//! is the final name of the third ancestor counted from the end of the chain.

use crate::negative_index::{pick, NegativeIndex};
use crate::text::{lemma_texts_push, texts};
use vstd::prelude::*;
use vstd::string::*;

verus! {

/// The component that stands for the root directory.
pub open spec fn root_name() -> Seq<char> {
    seq!['/']
}

/// The component that stands for the current directory.
pub open spec fn cur_dir_name() -> Seq<char> {
    seq!['.']
}

/// The component that stands for the parent directory.
pub open spec fn parent_dir_name() -> Seq<char> {
    seq!['.', '.']
}

/// Whether a path text starts at the root directory.
pub open spec fn is_rooted(text: Seq<char>) -> bool {
    text.len() > 0 && text[0] == '/'
}

/// The pieces of `text` between its separators, in order. A text with `k`
/// separators has `k + 1` pieces, some of which may be empty.
pub open spec fn split_pieces(text: Seq<char>) -> Seq<Seq<char>>
    decreases text.len(),
{
    if text.len() == 0 {
        seq![Seq::<char>::empty()]
    } else {
        let before = split_pieces(text.drop_last());
        if text.last() == '/' {
            before.push(Seq::<char>::empty())
        } else {
            before.drop_last().push(before.last().push(text.last()))
        }
    }
}

/// Whether the piece at `position` among a path's pieces is one of the path's
/// components: empty pieces are not, and `.` is only as the first piece of a
/// path that does not start at the root.
pub open spec fn keeps_piece(piece: Seq<char>, position: int, rooted: bool) -> bool {
    piece.len() > 0 && (piece != cur_dir_name() || (position == 0 && !rooted))
}

/// The pieces that are components, in order.
pub open spec fn kept_pieces(pieces: Seq<Seq<char>>, rooted: bool) -> Seq<Seq<char>>
    decreases pieces.len(),
{
    if pieces.len() == 0 {
        Seq::<Seq<char>>::empty()
    } else {
        let before = kept_pieces(pieces.drop_last(), rooted);
        if keeps_piece(pieces.last(), pieces.len() - 1, rooted) {
            before.push(pieces.last())
        } else {
            before
        }
    }
}

/// The root component, for a text that starts at the root.
pub open spec fn root_prefix(text: Seq<char>) -> Seq<Seq<char>> {
    if is_rooted(text) {
        seq![root_name()]
    } else {
        Seq::<Seq<char>>::empty()
    }
}

/// The components of a path text: the root, if the text starts with a
/// separator, then every non-empty piece, without the `.` pieces that do not
/// lead a relative path.
pub open spec fn path_components(text: Seq<char>) -> Seq<Seq<char>> {
    root_prefix(text) + kept_pieces(split_pieces(text), is_rooted(text))
}

/// Whether a component names a file or directory, rather than the root, the
/// current directory or the parent directory.
pub open spec fn is_plain_name(component: Seq<char>) -> bool {
    component != root_name() && component != cur_dir_name() && component != parent_dir_name()
}

/// How many ancestors a path has, itself included. A relative path ends its
/// chain with the empty path; a rooted one ends it with the root.
pub open spec fn ancestor_count(components: Seq<Seq<char>>) -> nat {
    if components.len() > 0 && components[0] == root_name() {
        components.len()
    } else {
        components.len() + 1
    }
}

/// The chain of ancestors of a path, from the path itself upwards: each is the
/// one before it without its last component.
pub open spec fn ancestors(components: Seq<Seq<char>>) -> Seq<Seq<Seq<char>>> {
    Seq::new(ancestor_count(components), |k: int| components.take(components.len() - k))
}

/// The last component of a path, if it names a file or directory.
pub open spec fn final_name(components: Seq<Seq<char>>) -> Option<Seq<char>> {
    if components.len() > 0 && is_plain_name(components.last()) {
        Some(components.last())
    } else {
        None
    }
}

/// The volume that an entry path lies under: the final name of the third
/// ancestor from the end of the chain. A path with fewer than three ancestors
/// names no volume.
pub open spec fn volume_name_of(components: Seq<Seq<char>>) -> Option<Seq<char>> {
    match pick(ancestors(components), -3) {
        Some(ancestor) => final_name(ancestor),
        None => None,
    }
}

/// Whether a sequence of components is one that a path text can have: no
/// component is empty, only the first can be the root or `.`, and no other
/// holds a separator.
pub open spec fn well_formed(components: Seq<Seq<char>>) -> bool {
    forall|i: int|
        0 <= i < components.len() ==> {
            &&& (#[trigger] components[i]).len() > 0
            &&& (components[i] == root_name() || components[i] == cur_dir_name() ==> i == 0)
            &&& (components[i] != root_name() ==> !components[i].contains('/'))
        }
}

/// A text always has at least one piece, and no piece holds a separator.
pub proof fn lemma_split_pieces(text: Seq<char>)
    ensures
        split_pieces(text).len() >= 1,
        forall|i: int|
            0 <= i < split_pieces(text).len() ==> !(#[trigger] split_pieces(text)[i]).contains('/'),
    decreases text.len(),
{
    if text.len() > 0 {
        lemma_split_pieces(text.drop_last());
        let before = split_pieces(text.drop_last());
        if text.last() != '/' {
            let grown = before.last().push(text.last());
            assert forall|i: int| 0 <= i < split_pieces(text).len() implies !(
            #[trigger] split_pieces(text)[i]).contains('/') by {
                if i == before.len() - 1 {
                    assert(split_pieces(text)[i] == grown);
                    assert(!before[i].contains('/'));
                    if grown.contains('/') {
                        let j = choose|j: int| 0 <= j < grown.len() && grown[j] == '/';
                        assert(j < before[i].len());
                        assert(before[i][j] == '/');
                    }
                } else {
                    assert(split_pieces(text)[i] == before[i]);
                }
            }
        } else {
            assert forall|i: int| 0 <= i < split_pieces(text).len() implies !(
            #[trigger] split_pieces(text)[i]).contains('/') by {
                if i < before.len() {
                    assert(split_pieces(text)[i] == before[i]);
                }
            }
        }
    }
}

/// The pieces put together again, with a separator between each two.
pub open spec fn join_pieces(pieces: Seq<Seq<char>>) -> Seq<char>
    decreases pieces.len(),
{
    if pieces.len() == 0 {
        Seq::<char>::empty()
    } else if pieces.len() == 1 {
        pieces[0]
    } else {
        join_pieces(pieces.drop_last()) + seq!['/'] + pieces.last()
    }
}

/// Splitting loses nothing: the pieces of a text join into the text.
pub proof fn lemma_split_then_join_pieces(text: Seq<char>)
    ensures
        join_pieces(split_pieces(text)) == text,
    decreases text.len(),
{
    if text.len() == 0 {
        assert(split_pieces(text)[0] =~= text);
    } else {
        let shorter = text.drop_last();
        let before = split_pieces(shorter);
        lemma_split_then_join_pieces(shorter);
        lemma_split_pieces(shorter);
        if text.last() == '/' {
            let after = before.push(Seq::<char>::empty());
            assert(after.drop_last() =~= before);
            assert(join_pieces(after) =~= shorter.push('/'));
        } else {
            let grown = before.last().push(text.last());
            let after = before.drop_last().push(grown);
            assert(after.drop_last() =~= before.drop_last());
            assert(join_pieces(after) =~= join_pieces(before).push(text.last()));
        }
        assert(shorter.push(text.last()) =~= text);
    }
}

/// Every kept piece is one of the pieces, non-empty, and `.` only in the
/// first place of a relative path.
pub proof fn lemma_kept_pieces(pieces: Seq<Seq<char>>, rooted: bool)
    ensures
        kept_pieces(pieces, rooted).len() <= pieces.len(),
        forall|i: int|
            0 <= i < kept_pieces(pieces, rooted).len() ==> {
                &&& pieces.contains(#[trigger] kept_pieces(pieces, rooted)[i])
                &&& kept_pieces(pieces, rooted)[i].len() > 0
                &&& (kept_pieces(pieces, rooted)[i] == cur_dir_name() ==> i == 0 && !rooted)
            },
    decreases pieces.len(),
{
    if pieces.len() > 0 {
        let shorter = pieces.drop_last();
        lemma_kept_pieces(shorter, rooted);
        let before = kept_pieces(shorter, rooted);
        assert forall|i: int| 0 <= i < kept_pieces(pieces, rooted).len() implies {
            &&& pieces.contains(#[trigger] kept_pieces(pieces, rooted)[i])
            &&& kept_pieces(pieces, rooted)[i].len() > 0
            &&& (kept_pieces(pieces, rooted)[i] == cur_dir_name() ==> i == 0 && !rooted)
        } by {
            if i < before.len() {
                assert(kept_pieces(pieces, rooted)[i] == before[i]);
                assert(shorter.contains(before[i]));
                let j = choose|j: int| 0 <= j < shorter.len() && shorter[j] == before[i];
                assert(pieces[j] == before[i]);
            } else {
                assert(kept_pieces(pieces, rooted)[i] == pieces.last());
                assert(pieces[pieces.len() - 1] == pieces.last());
                if pieces.last() == cur_dir_name() {
                    assert(pieces.len() == 1);
                    assert(shorter.len() == 0);
                }
            }
        }
    }
}

/// The components of any text are well formed.
pub proof fn lemma_path_components_well_formed(text: Seq<char>)
    ensures
        well_formed(path_components(text)),
{
    let rooted = is_rooted(text);
    let pieces = split_pieces(text);
    let kept = kept_pieces(pieces, rooted);
    let components = path_components(text);
    lemma_split_pieces(text);
    lemma_kept_pieces(pieces, rooted);
    assert(root_name().len() == 1 && cur_dir_name().len() == 1);
    assert(root_name()[0] == '/' && cur_dir_name()[0] == '.');
    assert forall|i: int| 0 <= i < components.len() implies {
        &&& (#[trigger] components[i]).len() > 0
        &&& (components[i] == root_name() || components[i] == cur_dir_name() ==> i == 0)
        &&& (components[i] != root_name() ==> !components[i].contains('/'))
    } by {
        let shift: int = if rooted { 1 } else { 0 };
        if rooted && i == 0 {
            assert(components[i] == root_name());
        } else {
            assert(components[i] == kept[i - shift]);
            assert(pieces.contains(kept[i - shift]));
            let j = choose|j: int| 0 <= j < pieces.len() && pieces[j] == kept[i - shift];
            assert(!pieces[j].contains('/'));
            if components[i] == root_name() {
                assert(components[i][0] == '/');
                assert(components[i].contains('/'));
            }
        }
    }
}

/// A path with fewer than three ancestors names no volume.
pub proof fn lemma_shallow_path_names_no_volume(components: Seq<Seq<char>>)
    requires
        ancestor_count(components) < 3,
    ensures
        volume_name_of(components) is None,
{
}

/// A relative path names the volume by its second component, a rooted path by
/// its third; it names none where that component is missing or is not a plain
/// name.
pub proof fn lemma_volume_name_position(components: Seq<Seq<char>>)
    ensures
        volume_name_of(components) == (if components.len() > 0 && components[0] == root_name() {
            if components.len() >= 3 && is_plain_name(components[2]) {
                Some(components[2])
            } else {
                None
            }
        } else {
            if components.len() >= 2 && is_plain_name(components[1]) {
                Some(components[1])
            } else {
                None
            }
        }),
{
    let chain = ancestors(components);
    if chain.len() >= 3 {
        let at = chain.len() - 3;
        assert(pick(chain, -3) == Some(chain[at]));
        assert(chain[at] == components.take(components.len() - at));
    }
}

/// An entry laid out as `./<volume>/...` lies under `<volume>`.
pub proof fn lemma_volume_is_top_level_directory(components: Seq<Seq<char>>)
    requires
        components.len() >= 2,
        components[0] == cur_dir_name(),
        is_plain_name(components[1]),
    ensures
        volume_name_of(components) == Some(components[1]),
{
    lemma_volume_name_position(components);
    assert(cur_dir_name()[0] == '.' && root_name()[0] == '/');
}

/// The path of one archive entry, as its components in order.
#[derive(Clone, Debug, PartialEq, Eq)]
pub struct ArchiveEntryPath {
    components: Vec<String>,
}

impl View for ArchiveEntryPath {
    type V = Seq<Seq<char>>;

    closed spec fn view(&self) -> Seq<Seq<char>> {
        texts(self.components@)
    }
}

/// Whether `name` is exactly the one character `c`.
fn is_single_char(name: &str, c: char) -> (yes: bool)
    ensures
        yes == (name@ == seq![c]),
{
    if name.unicode_len() == 1 {
        let first = name.get_char(0);
        proof {
            if first == c {
                assert(name@ =~= seq![c]);
            } else {
                assert(seq![c][0] == c);
            }
        }
        first == c
    } else {
        assert(seq![c].len() == 1);
        false
    }
}

/// Whether `name` is a plain file or directory name.
fn names_plainly(name: &str) -> (yes: bool)
    ensures
        yes == is_plain_name(name@),
{
    let length = name.unicode_len();
    proof {
        assert(root_name().len() == 1 && cur_dir_name().len() == 1 && parent_dir_name().len() == 2);
    }
    if length == 1 {
        let only = name.get_char(0);
        proof {
            assert(root_name()[0] == '/' && cur_dir_name()[0] == '.');
            if only == '/' {
                assert(name@ =~= root_name());
            }
            if only == '.' {
                assert(name@ =~= cur_dir_name());
            }
        }
        only != '/' && only != '.'
    } else if length == 2 {
        let first = name.get_char(0);
        let second = name.get_char(1);
        proof {
            assert(parent_dir_name()[0] == '.' && parent_dir_name()[1] == '.');
            if first == '.' && second == '.' {
                assert(name@ =~= parent_dir_name());
            }
        }
        !(first == '.' && second == '.')
    } else {
        true
    }
}

impl ArchiveEntryPath {
    /// Reads a path text into its components.
    pub fn from_text(text: &str) -> (path: ArchiveEntryPath)
        ensures
            path@ == path_components(text@),
            well_formed(path@),
    {
        let length = text.unicode_len();
        let mut components: Vec<String> = Vec::new();
        let mut start: usize = 0;
        let mut at: usize = 0;
        let mut rooted = false;
        let mut lone_dot = false;
        proof {
            assert(text@.take(0) =~= Seq::<char>::empty());
            assert(split_pieces(text@.take(0)).drop_last() =~= Seq::<Seq<char>>::empty());
            assert(texts(components@) =~= Seq::<Seq<char>>::empty());
            assert(text@.subrange(0, 0) =~= Seq::<char>::empty());
            assert(cur_dir_name().len() == 1);
        }
        for c in scan: text.chars()
            invariant
                scan.seq() == text@,
                length == text@.len(),
                at == scan.index(),
                start <= at,
                rooted == is_rooted(text@.take(at as int)),
                split_pieces(text@.take(at as int)).len() >= 1,
                split_pieces(text@.take(at as int)).last() == text@.subrange(
                    start as int,
                    at as int,
                ),
                (start == 0) == (split_pieces(text@.take(at as int)).len() == 1),
                lone_dot == (text@.subrange(start as int, at as int) == cur_dir_name()),
                texts(components@) == root_prefix(text@.take(at as int)) + kept_pieces(
                    split_pieces(text@.take(at as int)).drop_last(),
                    rooted,
                ),
        {
            let ghost seen = text@.take(at as int);
            let ghost grown = text@.take(at + 1);
            let ghost pieces = split_pieces(seen);
            proof {
                assert(grown.drop_last() =~= seen);
                assert(grown.last() == c);
                assert(is_rooted(grown) == (if at == 0 { c == '/' } else { rooted }));
                assert(text@.subrange(start as int, at + 1) =~= text@.subrange(
                    start as int,
                    at as int,
                ).push(c));
                assert(cur_dir_name().len() == 1 && cur_dir_name()[0] == '.');
            }
            if c == '/' {
                if at == 0 {
                    rooted = true;
                    let root = "/".to_owned();
                    proof {
                        reveal_strlit("/");
                        assert(root@ =~= root_name());
                        lemma_texts_push(components@, root);
                    }
                    components.push(root);
                }
                let keep = start < at && !(lone_dot && (rooted || start > 0));
                proof {
                    assert(split_pieces(grown) == pieces.push(Seq::<char>::empty()));
                    assert(split_pieces(grown).drop_last() =~= pieces);
                    assert(text@.subrange(at + 1, at + 1) =~= Seq::<char>::empty());
                    assert(keep == keeps_piece(pieces.last(), pieces.len() - 1, rooted));
                    if at == 0 {
                        assert(pieces.drop_last() =~= Seq::<Seq<char>>::empty());
                    }
                }
                if keep {
                    let piece = text.substring_char(start, at).to_owned();
                    proof {
                        lemma_texts_push(components@, piece);
                    }
                    components.push(piece);
                }
                proof {
                    let tail = kept_pieces(pieces, rooted);
                    let shorter = kept_pieces(pieces.drop_last(), rooted);
                    assert(tail == if keep {
                        shorter.push(pieces.last())
                    } else {
                        shorter
                    });
                    if at == 0 {
                        assert(shorter =~= Seq::<Seq<char>>::empty());
                        assert(texts(components@) =~= seq![root_name()]);
                    } else {
                        assert(root_prefix(grown) == root_prefix(seen));
                    }
                    assert(texts(components@) =~= root_prefix(grown) + tail);
                }
                start = at + 1;
                lone_dot = false;
            } else {
                proof {
                    assert(split_pieces(grown) == pieces.drop_last().push(pieces.last().push(c)));
                    assert(split_pieces(grown).drop_last() =~= pieces.drop_last());
                    assert(root_prefix(grown) == root_prefix(seen));
                    let piece = text@.subrange(start as int, at + 1);
                    if start == at {
                        assert(piece =~= seq![c]);
                        assert((piece == cur_dir_name()) == (c == '.'));
                    } else {
                        assert(piece.len() >= 2);
                    }
                }
                lone_dot = start == at && c == '.';
            }
            at = at + 1;
        }
        proof {
            assert(text@.take(at as int) =~= text@);
        }
        let keep = start < at && !(lone_dot && (rooted || start > 0));
        if keep {
            let piece = text.substring_char(start, at).to_owned();
            proof {
                lemma_texts_push(components@, piece);
            }
            components.push(piece);
        }
        proof {
            let pieces = split_pieces(text@);
            assert(keep == keeps_piece(pieces.last(), pieces.len() - 1, rooted));
            assert(texts(components@) =~= path_components(text@));
            lemma_path_components_well_formed(text@);
        }
        ArchiveEntryPath { components }
    }

    /// The components, in order.
    pub fn components(&self) -> (components: &Vec<String>)
        ensures
            texts(components@) == self@,
    {
        &self.components
    }

    /// How many components each ancestor has, from the path itself upwards.
    pub fn ancestor_depths(&self) -> (depths: Vec<usize>)
        ensures
            depths@.len() == ancestors(self@).len(),
            forall|k: int|
                0 <= k < depths@.len() ==> #[trigger] ancestors(self@)[k] == self@.take(
                    depths@[k] as int,
                ),
            forall|k: int| 0 <= k < depths@.len() ==> depths@[k] == self@.len() - k,
    {
        let count = self.components.len();
        let rooted = count > 0 && is_single_char(self.components[0].as_str(), '/');
        let mut depths: Vec<usize> = Vec::new();
        let mut depth = count;
        while depth > 0
            invariant
                depth <= count,
                count == self@.len(),
                depths@.len() == count - depth,
                forall|k: int| 0 <= k < depths@.len() ==> depths@[k] == count - k,
            decreases depth,
        {
            depths.push(depth);
            depth = depth - 1;
        }
        if !rooted {
            depths.push(0);
        }
        depths
    }

    /// The volume that the entry lies under, if its path is deep enough to
    /// name one.
    pub fn volume_name(&self) -> (name: Option<String>)
        ensures
            match name {
                Some(volume) => volume_name_of(self@) == Some(volume@),
                None => volume_name_of(self@) is None,
            },
    {
        let depths = self.ancestor_depths();
        match depths.neg_index(-3) {
            None => None,
            Some(depth) => {
                let depth: usize = *depth;
                proof {
                    let chosen = depths@.len() - 3;
                    assert(ancestors(self@)[chosen] == self@.take(depth as int));
                    assert(pick(ancestors(self@), -3) == Some(ancestors(self@)[chosen]));
                }
                if depth == 0 {
                    None
                } else {
                    let last = &self.components[depth - 1];
                    if names_plainly(last.as_str()) {
                        Some(last.clone())
                    } else {
                        None
                    }
                }
            },
        }
    }
}

} // verus!
