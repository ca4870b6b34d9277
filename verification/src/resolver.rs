//! Resolving a path given by the user into the directory to mount and the
//! name of the file in it.
//!
//! The file system is not touched here. [`resolve_step`] decides what is to
//! be done to it next, and [`resolve_path`] splits the canonical path that
//! comes back.

use crate::entry_path::{cur_dir_name, is_rooted, parent_dir_name};
use crate::errors::PathResolutionError;
use vstd::prelude::*;
use vstd::string::*;

verus! {

/// Whether a segment of `text` ends just before position `at`: the text ends
/// there, or a separator stands there.
pub open spec fn ends_segment(text: Seq<char>, at: int) -> bool {
    at >= text.len() || text[at] == '/'
}

/// Whether the segment of `text` that starts at `from` is a name: not empty,
/// not `.` and not `..`.
pub open spec fn plain_segment_at(text: Seq<char>, from: int) -> bool {
    &&& !ends_segment(text, from)
    &&& !(text[from] == '.' && ends_segment(text, from + 1))
    &&& !(text[from] == '.' && !ends_segment(text, from + 1) && text[from + 1] == '.'
        && ends_segment(text, from + 2))
}

/// Whether `text` has the form of a canonical path: it starts at the root,
/// and it is the root alone or every separator in it is followed by a name.
pub open spec fn is_canonical(text: Seq<char>) -> bool {
    &&& is_rooted(text)
    &&& (text.len() == 1 || forall|i: int|
        0 <= i < text.len() && text[i] == '/' ==> plain_segment_at(text, i + 1))
}

/// Where the last separator of `text` stands, or `-1` if it has none.
pub open spec fn last_separator(text: Seq<char>) -> int
    decreases text.len(),
{
    if text.len() == 0 {
        -1
    } else if text.last() == '/' {
        text.len() - 1
    } else {
        last_separator(text.drop_last())
    }
}

/// The path of the file `name` in the directory `parent`.
pub open spec fn join(parent: Seq<char>, name: Seq<char>) -> Seq<char> {
    if parent == seq!['/'] {
        parent + name
    } else {
        parent + seq!['/'] + name
    }
}

/// The directory and file name of a canonical path: what stands before and
/// after its last separator, the directory of a file directly under the root
/// being the root.
pub open spec fn split_canonical(text: Seq<char>) -> Result<
    (Seq<char>, Seq<char>),
    PathResolutionError,
> {
    let cut = last_separator(text);
    if !is_canonical(text) {
        Err(PathResolutionError::NotCanonical)
    } else if text.len() == 1 {
        Err(PathResolutionError::NoParent)
    } else if cut == 0 {
        Ok((seq!['/'], text.subrange(1, text.len() as int)))
    } else {
        Ok((text.take(cut), text.subrange(cut + 1, text.len() as int)))
    }
}

/// An absolute directory and the name of a file in it.
#[derive(Clone, Debug, PartialEq, Eq)]
pub struct ResolvedPath {
    /// The directory that holds the file, as a canonical path.
    pub parent_dir: String,
    /// The name of the file inside `parent_dir`.
    pub filename: String,
}

impl ResolvedPath {
    /// The directory is a canonical path, and the file name is one segment
    /// that names a file.
    pub open spec fn wf(&self) -> bool {
        &&& is_canonical(self.parent_dir@)
        &&& self.filename@.len() > 0
        &&& !self.filename@.contains('/')
        &&& self.filename@ != cur_dir_name()
        &&& self.filename@ != parent_dir_name()
    }
}

/// The last separator stands inside the text, is a separator, and no
/// separator follows it.
pub proof fn lemma_last_separator(text: Seq<char>)
    ensures
        -1 <= last_separator(text) < text.len(),
        last_separator(text) >= 0 ==> text[last_separator(text)] == '/',
        forall|i: int| last_separator(text) < i < text.len() ==> text[i] != '/',
        is_rooted(text) ==> last_separator(text) >= 0,
    decreases text.len(),
{
    if text.len() > 0 && text.last() != '/' {
        let shorter = text.drop_last();
        lemma_last_separator(shorter);
        assert forall|i: int| last_separator(text) < i < text.len() implies text[i] != '/' by {
            if i < shorter.len() {
                assert(shorter[i] == text[i]);
            }
        }
        if is_rooted(text) && shorter.len() > 0 {
            assert(shorter[0] == text[0]);
        }
    }
}

/// The two parts of a canonical path other than the root join into the path
/// again; the directory is itself canonical, and the file name is one
/// segment that names a file.
pub proof fn lemma_split_then_join(text: Seq<char>)
    requires
        split_canonical(text) is Ok,
    ensures
        ({
            let (parent, name) = split_canonical(text)->Ok_0;
            &&& join(parent, name) == text
            &&& is_canonical(parent)
            &&& name.len() > 0
            &&& !name.contains('/')
            &&& name != cur_dir_name()
            &&& name != parent_dir_name()
        }),
{
    lemma_last_separator(text);
    let cut = last_separator(text);
    let (parent, name) = split_canonical(text)->Ok_0;
    assert(plain_segment_at(text, cut + 1));
    assert(name.len() == text.len() - cut - 1);
    assert(!name.contains('/')) by {
        if name.contains('/') {
            let j = choose|j: int| 0 <= j < name.len() && name[j] == '/';
            assert(text[cut + 1 + j] == '/');
        }
    }
    assert(name != cur_dir_name()) by {
        if name == cur_dir_name() {
            assert(cur_dir_name().len() == 1 && cur_dir_name()[0] == '.');
            assert(name[0] == text[cut + 1]);
        }
    }
    assert(name != parent_dir_name()) by {
        if name == parent_dir_name() {
            assert(parent_dir_name().len() == 2);
            assert(parent_dir_name()[0] == '.' && parent_dir_name()[1] == '.');
            assert(name[0] == text[cut + 1] && name[1] == text[cut + 2]);
        }
    }
    if cut == 0 {
        assert(parent + name =~= text);
    } else {
        assert(parent.len() == cut);
        assert(parent != seq!['/']) by {
            assert(seq!['/'].len() == 1);
            if cut == 1 {
                assert(plain_segment_at(text, 1));
            }
        }
        assert(parent + seq!['/'] + name =~= text);
        assert(parent[0] == text[0]);
        assert forall|i: int| 0 <= i < parent.len() && parent[i] == '/' implies plain_segment_at(
            parent,
            i + 1,
        ) by {
            assert(text[i] == '/');
            assert(plain_segment_at(text, i + 1));
            assert(i + 1 < cut);
            assert(parent[i + 1] == text[i + 1]);
            if i + 2 < cut {
                assert(parent[i + 2] == text[i + 2]);
            }
            if i + 3 < cut {
                assert(parent[i + 3] == text[i + 3]);
            }
        }
    }
}

/// What one pass over a path text finds.
struct Scan {
    /// Whether the text has canonical form.
    canonical: bool,
    /// How many characters the text has.
    length: usize,
    /// Where the last segment starts: just behind the last separator.
    start: usize,
}

/// Reads `text` once, checking every segment.
fn scan_path(text: &str) -> (scan: Scan)
    ensures
        scan.canonical == is_canonical(text@),
        scan.length == text@.len(),
        scan.start == last_separator(text@) + 1,
{
    let length = text.unicode_len();
    let mut at: usize = 0;
    let mut start: usize = 0;
    let mut rooted = false;
    let mut dots = true;
    let mut named = true;
    proof {
        assert(text@.take(0) =~= Seq::<char>::empty());
    }
    for c in chars: text.chars()
        invariant
            chars.seq() == text@,
            length == text@.len(),
            at == chars.index(),
            start <= at,
            start == last_separator(text@.take(at as int)) + 1,
            rooted == is_rooted(text@.take(at as int)),
            forall|j: int| start <= j < at ==> text@[j] != '/',
            dots == (forall|j: int| start <= j < at ==> text@[j] == '.'),
            named == (forall|i: int|
                0 <= i < start - 1 && text@[i] == '/' ==> plain_segment_at(text@, i + 1)),
    {
        proof {
            assert(text@.take(at + 1).drop_last() =~= text@.take(at as int));
            assert(is_rooted(text@.take(at + 1)) == (if at == 0 {
                c == '/'
            } else {
                rooted
            }));
        }
        if c == '/' {
            if at == 0 {
                rooted = true;
            } else {
                let plain = start < at && !(dots && at - start <= 2);
                proof {
                    if start > 0 {
                        lemma_last_separator(text@.take(at as int));
                        assert(text@[start - 1] == '/');
                        assert(ends_segment(text@, at as int));
                        if start < at {
                            assert(text@[start as int] != '/');
                        }
                        if start + 1 < at {
                            assert(text@[start + 1] != '/');
                        }
                        assert(plain == plain_segment_at(text@, start as int));
                    }
                }
                named = named && (start == 0 || plain);
            }
            start = at + 1;
            dots = true;
        } else {
            dots = dots && c == '.';
        }
        at = at + 1;
    }
    proof {
        assert(text@.take(at as int) =~= text@);
        lemma_last_separator(text@);
    }
    let plain = start < at && !(dots && at - start <= 2);
    proof {
        if rooted {
            assert(text@[start - 1] == '/');
            assert(ends_segment(text@, at as int));
            if start < at {
                assert(text@[start as int] != '/');
            }
            if start + 1 < at {
                assert(text@[start + 1] != '/');
            }
            assert(plain == plain_segment_at(text@, start as int));
            if length > 1 {
                if named && plain {
                    assert forall|i: int| 0 <= i < text@.len() && text@[i] == '/' implies
                        plain_segment_at(text@, i + 1) by {
                        if i >= start - 1 {
                            assert(i == start - 1);
                        }
                    }
                }
            }
        }
    }
    Scan { canonical: rooted && (length == 1 || (named && plain)), length, start }
}

/// Splits a canonical path into the directory to mount and the file name.
///
/// A canonical path starts at the root and has no empty segment, no `.` and
/// no `..`. A text of any other form is refused, and so is the root, which
/// has no parent.
pub fn resolve_path(canonical: &str) -> (resolved: Result<ResolvedPath, PathResolutionError>)
    ensures
        match resolved {
            Ok(path) => {
                &&& split_canonical(canonical@) == Ok::<
                    (Seq<char>, Seq<char>),
                    PathResolutionError,
                >((path.parent_dir@, path.filename@))
                &&& join(path.parent_dir@, path.filename@) == canonical@
                &&& path.wf()
            },
            Err(error) => split_canonical(canonical@) == Err::<
                (Seq<char>, Seq<char>),
                PathResolutionError,
            >(error),
        },
{
    let scan = scan_path(canonical);
    if !scan.canonical {
        Err(PathResolutionError::NotCanonical)
    } else if scan.length == 1 {
        Err(PathResolutionError::NoParent)
    } else {
        proof {
            lemma_last_separator(canonical@);
            lemma_split_then_join(canonical@);
        }
        let cut = scan.start - 1;
        let parent_dir = if cut == 0 {
            proof {
                reveal_strlit("/");
                assert("/"@ =~= seq!['/']);
            }
            "/".to_owned()
        } else {
            proof {
                assert(canonical@.subrange(0, cut as int) =~= canonical@.take(cut as int));
            }
            canonical.substring_char(0, cut).to_owned()
        };
        let filename = canonical.substring_char(cut + 1, scan.length).to_owned();
        Ok(ResolvedPath { parent_dir, filename })
    }
}

/// What making a path canonical gave.
#[derive(Debug, PartialEq, Eq)]
pub enum Canonical {
    /// The path does not exist or cannot be reached.
    Missing,
    /// The canonical path exists but is not text.
    NotText,
    /// The canonical path.
    Text(String),
}

/// What the file system answered to the last [`ResolveAction`].
#[derive(Debug, PartialEq, Eq)]
pub enum ResolveEvent {
    /// Nothing has been asked yet.
    Started,
    /// Whether anything exists at the path.
    Probed { exists: bool },
    /// Whether the empty file could be written.
    Created { done: bool },
    /// The canonical form of the path.
    Canonicalized(Canonical),
}

/// What is to be done next to resolve a path.
#[derive(Debug, PartialEq, Eq)]
pub enum ResolveAction {
    /// Find out whether anything exists at the path.
    Probe,
    /// Write an empty file at the path.
    CreatePlaceholder,
    /// Make the path canonical: absolute, with every link followed.
    Canonicalize,
    /// Stop: the path is resolved, or it cannot be.
    Finish(Result<ResolvedPath, PathResolutionError>),
}

/// A [`ResolveAction`] as plain values.
pub ghost enum Step {
    /// Find out whether anything exists at the path.
    Probe,
    /// Write an empty file at the path.
    CreatePlaceholder,
    /// Make the path canonical.
    Canonicalize,
    /// Stop, with the directory and the file name or with the failure.
    Finish(Result<(Seq<char>, Seq<char>), PathResolutionError>),
}

impl View for ResolveAction {
    type V = Step;

    open spec fn view(&self) -> Step {
        match self {
            ResolveAction::Probe => Step::Probe,
            ResolveAction::CreatePlaceholder => Step::CreatePlaceholder,
            ResolveAction::Canonicalize => Step::Canonicalize,
            ResolveAction::Finish(Ok(path)) => Step::Finish(
                Ok((path.parent_dir@, path.filename@)),
            ),
            ResolveAction::Finish(Err(error)) => Step::Finish(Err(*error)),
        }
    }
}

/// What resolving ends in, given the canonical form of the path.
pub open spec fn resolution(canonical: Canonical) -> Result<
    (Seq<char>, Seq<char>),
    PathResolutionError,
> {
    match canonical {
        Canonical::Missing => Err(PathResolutionError::Unresolvable),
        Canonical::NotText => Err(PathResolutionError::NotText),
        Canonical::Text(text) => split_canonical(text@),
    }
}

/// The step that follows the answer `event`.
///
/// The path is probed only where a missing file is to be created, and a file
/// is created only where the probe found nothing. Once the file is there, or
/// is not asked for, the path is made canonical, and its canonical form
/// decides how resolving ends.
pub open spec fn next_step(create_if_missing: bool, event: ResolveEvent) -> Step {
    match event {
        ResolveEvent::Started => if create_if_missing {
            Step::Probe
        } else {
            Step::Canonicalize
        },
        ResolveEvent::Probed { exists } => if exists {
            Step::Canonicalize
        } else {
            Step::CreatePlaceholder
        },
        ResolveEvent::Created { done } => if done {
            Step::Canonicalize
        } else {
            Step::Finish(Err(PathResolutionError::CannotCreate))
        },
        ResolveEvent::Canonicalized(canonical) => Step::Finish(resolution(canonical)),
    }
}

/// What exists is never written to: a file is created only after a probe
/// that found nothing, so resolving a second time creates nothing.
pub proof fn lemma_creates_only_what_is_missing(create_if_missing: bool, event: ResolveEvent)
    ensures
        next_step(create_if_missing, event) is CreatePlaceholder <==> event
            == (ResolveEvent::Probed { exists: false }),
{
}

/// A path that had to be created resolves as one that was there before: how
/// resolving ends depends on the canonical path alone.
pub proof fn lemma_created_resolves_as_existing(canonical: Canonical)
    ensures
        next_step(true, ResolveEvent::Canonicalized(canonical)) == next_step(
            false,
            ResolveEvent::Canonicalized(canonical),
        ),
        next_step(true, ResolveEvent::Canonicalized(canonical)) == Step::Finish(
            resolution(canonical),
        ),
{
}

/// Decides the next step of resolving a path from the answer to the last one.
pub fn resolve_step(create_if_missing: bool, event: ResolveEvent) -> (action: ResolveAction)
    ensures
        action@ == next_step(create_if_missing, event),
        action matches ResolveAction::Finish(Ok(path)) ==> path.wf(),
{
    match event {
        ResolveEvent::Started => if create_if_missing {
            ResolveAction::Probe
        } else {
            ResolveAction::Canonicalize
        },
        ResolveEvent::Probed { exists } => if exists {
            ResolveAction::Canonicalize
        } else {
            ResolveAction::CreatePlaceholder
        },
        ResolveEvent::Created { done } => if done {
            ResolveAction::Canonicalize
        } else {
            ResolveAction::Finish(Err(PathResolutionError::CannotCreate))
        },
        ResolveEvent::Canonicalized(canonical) => match canonical {
            Canonical::Missing => ResolveAction::Finish(Err(PathResolutionError::Unresolvable)),
            Canonical::NotText => ResolveAction::Finish(Err(PathResolutionError::NotText)),
            Canonical::Text(text) => ResolveAction::Finish(resolve_path(text.as_str())),
        },
    }
}

} // verus!
