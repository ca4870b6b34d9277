//! Listing a gzip-compressed tar archive and finding the volumes in it.
//!
//! Decompression and the tar format belong to the `flate2` and `tar` crates.
//! They are reached through the small functions at the top of this file,
//! whose contracts are believed, not proved. Everything below them is
//! verified.

use crate::entry_path::{
    ancestor_count, cur_dir_name, is_plain_name, lemma_volume_is_top_level_directory,
    path_components, volume_name_of, ArchiveEntryPath,
};
use crate::errors::ArchiveReadError;
use crate::text::{lemma_texts_push, texts};
use flate2::read::GzDecoder;
use tar::{Archive, Entries};
use vstd::prelude::*;

verus! {

/// `flate2::read::GzDecoder`, a reader that decompresses what it reads.
#[verifier::external_type_specification]
#[verifier::external_body]
#[verifier::reject_recursive_types(R)]
pub struct ExGzDecoder<R>(GzDecoder<R>);

/// A `tar::Archive` that reads from a gzip decoder over bytes in memory.
#[verifier::external_body]
pub struct TarGzArchive<'a> {
    inner: Archive<GzDecoder<&'a [u8]>>,
}

/// The `tar::Entries` iterator of a [`TarGzArchive`].
#[verifier::external_body]
pub struct TarGzEntries<'r, 'a> {
    inner: Entries<'r, GzDecoder<&'a [u8]>>,
}

/// The compressed bytes that a decoder was made over.
pub uninterp spec fn gz_input(decoder: GzDecoder<&[u8]>) -> Seq<u8>;

/// The compressed bytes that an archive reads.
pub uninterp spec fn archive_input(archive: TarGzArchive<'_>) -> Seq<u8>;

/// How many bytes an archive has read so far.
pub uninterp spec fn archive_position(archive: TarGzArchive<'_>) -> nat;

/// What listing the entries of the gzip-compressed tar stream `compressed`
/// gives, entry by entry: the text of the entry's path, or `None` where the
/// stream or the entry cannot be decoded or the path is not text.
pub uninterp spec fn listed_paths(compressed: Seq<u8>) -> Seq<Option<Seq<char>>>;

/// What an iterator over entries has yet to give, in the form of
/// [`listed_paths`].
pub uninterp spec fn pending(entries: TarGzEntries<'_, '_>) -> Seq<Option<Seq<char>>>;

/// `GzDecoder::new`: a decoder that reads the compressed `bytes`.
#[verifier::external_body]
fn gz_decoder<'a>(bytes: &'a [u8]) -> (decoder: GzDecoder<&'a [u8]>)
    ensures
        gz_input(decoder) == bytes@,
{
    GzDecoder::new(bytes)
}

/// `Archive::new`: an archive over the decoder's output, with nothing read
/// from it yet.
#[verifier::external_body]
fn tar_archive<'a>(decoder: GzDecoder<&'a [u8]>) -> (archive: TarGzArchive<'a>)
    ensures
        archive_input(archive) == gz_input(decoder),
        archive_position(archive) == 0,
{
    TarGzArchive { inner: Archive::new(decoder) }
}

/// `Archive::entries`: the iterator over the archive's entries. The call is
/// refused exactly when the archive has been read from before; otherwise the
/// iterator has the whole listing of the archive's input to give.
#[verifier::external_body]
fn archive_entries<'r, 'a>(archive: &'r mut TarGzArchive<'a>) -> (entries: Option<
    TarGzEntries<'r, 'a>,
>)
    ensures
        entries is Some <==> archive_position(*old(archive)) == 0,
        entries matches Some(listing) ==> pending(listing) == listed_paths(
            archive_input(*old(archive)),
        ),
{
    match archive.inner.entries() {
        Ok(entries) => Some(TarGzEntries { inner: entries }),
        Err(_) => None,
    }
}

/// `Entries::next`, with the entry it gives turned into the text of its path
/// by `Entry::path`: hands out the first of what was pending, which is then
/// pending no more, and `None` once nothing is pending. The record handed out
/// is `None` where `next` or `path` gave an error or the path is not text.
#[verifier::external_body]
fn next_path(entries: &mut TarGzEntries<'_, '_>) -> (item: Option<Option<String>>)
    ensures
        pending(*old(entries)).len() == 0 ==> item is None && pending(*final(entries)).len() == 0,
        pending(*old(entries)).len() > 0 ==> {
            &&& item matches Some(record)
            &&& record_text(record) == pending(*old(entries))[0]
            &&& pending(*final(entries)) == pending(*old(entries)).drop_first()
        },
{
    match entries.inner.next() {
        None => None,
        Some(Err(_)) => Some(None),
        Some(Ok(entry)) => match entry.path() {
            Ok(path) => Some(path.to_str().map(str::to_owned)),
            Err(_) => Some(None),
        },
    }
}

/// The view of one listed record.
pub open spec fn record_text(record: Option<String>) -> Option<Seq<char>> {
    match record {
        Some(text) => Some(text@),
        None => None,
    }
}

/// The views of listed records, in order.
pub open spec fn record_texts(records: Seq<Option<String>>) -> Seq<Option<Seq<char>>> {
    records.map_values(|record: Option<String>| record_text(record))
}

/// The views of entry paths, in order.
pub open spec fn path_views(paths: Seq<ArchiveEntryPath>) -> Seq<Seq<Seq<char>>> {
    paths.map_values(|path: ArchiveEntryPath| path@)
}

/// The entry paths that a listing stands for: the components of every
/// record's text, in the order of the listing. One record that could not be
/// decoded spoils the whole listing.
pub open spec fn directory_tree(records: Seq<Option<Seq<char>>>) -> Result<
    Seq<Seq<Seq<char>>>,
    ArchiveReadError,
> {
    if exists|i: int| 0 <= i < records.len() && records[i] is None {
        Err(ArchiveReadError::Malformed)
    } else {
        Ok(records.map_values(|record: Option<Seq<char>>| path_components(record->0)))
    }
}

/// The volume names of the entries that name one, in the order of the
/// entries.
pub open spec fn named_volumes(paths: Seq<Seq<Seq<char>>>) -> Seq<Seq<char>>
    decreases paths.len(),
{
    if paths.len() == 0 {
        Seq::<Seq<char>>::empty()
    } else {
        let before = named_volumes(paths.drop_last());
        match volume_name_of(paths.last()) {
            Some(volume) => before.push(volume),
            None => before,
        }
    }
}

/// `items` without every item that equals the one just before it.
pub open spec fn collapse_repeats<T>(items: Seq<T>) -> Seq<T>
    decreases items.len(),
{
    if items.len() == 0 {
        Seq::<T>::empty()
    } else {
        let before = collapse_repeats(items.drop_last());
        if items.len() >= 2 && items[items.len() - 2] == items.last() {
            before
        } else {
            before.push(items.last())
        }
    }
}

/// The volume names that a list of entry paths holds: the name of each entry
/// that names one, with adjacent repeats collapsed into one.
pub open spec fn volume_names(paths: Seq<Seq<Seq<char>>>) -> Seq<Seq<char>> {
    collapse_repeats(named_volumes(paths))
}

/// Collapsing keeps the last item last, and gives nothing only for nothing.
pub proof fn lemma_collapse_last<T>(items: Seq<T>)
    ensures
        collapse_repeats(items).len() <= items.len(),
        items.len() > 0 ==> collapse_repeats(items).len() > 0 && collapse_repeats(items).last()
            == items.last(),
    decreases items.len(),
{
    if items.len() > 0 {
        lemma_collapse_last(items.drop_last());
    }
}

/// After collapsing, no item equals the one before it.
pub proof fn lemma_collapse_leaves_no_adjacent_repeat<T>(items: Seq<T>)
    ensures
        forall|i: int|
            0 <= i < collapse_repeats(items).len() - 1 ==> #[trigger] collapse_repeats(items)[i]
                != collapse_repeats(items)[i + 1],
    decreases items.len(),
{
    if items.len() > 0 {
        let shorter = items.drop_last();
        lemma_collapse_leaves_no_adjacent_repeat(shorter);
        lemma_collapse_last(shorter);
        let before = collapse_repeats(shorter);
        assert forall|i: int| 0 <= i < collapse_repeats(items).len() - 1 implies #[trigger]
        collapse_repeats(items)[i] != collapse_repeats(items)[i + 1] by {
            if i + 1 < before.len() {
                assert(collapse_repeats(items)[i] == before[i]);
                assert(collapse_repeats(items)[i + 1] == before[i + 1]);
            } else {
                assert(collapse_repeats(items)[i] == before.last());
                assert(before.last() == shorter.last());
                assert(shorter.last() == items[items.len() - 2]);
            }
        }
    }
}

/// Collapsing neither invents an item nor loses one.
pub proof fn lemma_collapse_keeps_members<T>(items: Seq<T>)
    ensures
        forall|item: T| collapse_repeats(items).contains(item) <==> items.contains(item),
    decreases items.len(),
{
    if items.len() > 0 {
        let shorter = items.drop_last();
        lemma_collapse_keeps_members(shorter);
        let before = collapse_repeats(shorter);
        let after = collapse_repeats(items);
        assert forall|item: T| after.contains(item) <==> items.contains(item) by {
            if after.contains(item) {
                let i = choose|i: int| 0 <= i < after.len() && after[i] == item;
                if i < before.len() {
                    assert(before[i] == item);
                    assert(before.contains(item));
                    assert(shorter.contains(item));
                    let j = choose|j: int| 0 <= j < shorter.len() && shorter[j] == item;
                    assert(items[j] == item);
                } else {
                    assert(items[items.len() - 1] == item);
                }
            }
            if items.contains(item) {
                let j = choose|j: int| 0 <= j < items.len() && items[j] == item;
                if j < shorter.len() {
                    assert(shorter[j] == item);
                    assert(shorter.contains(item));
                    assert(before.contains(item));
                    let i = choose|i: int| 0 <= i < before.len() && before[i] == item;
                    assert(after[i] == item);
                } else if after.len() > before.len() {
                    assert(after[before.len() as int] == item);
                } else {
                    assert(shorter[items.len() - 2] == item);
                    assert(shorter.contains(item));
                    assert(before.contains(item));
                    let i = choose|i: int| 0 <= i < before.len() && before[i] == item;
                    assert(after[i] == item);
                }
            }
        }
    }
}

/// `items` with each item in turn repeated as often as `runs` says.
pub open spec fn expand_runs<T>(items: Seq<T>, runs: Seq<nat>) -> Seq<T>
    decreases items.len(),
{
    if items.len() == 0 || runs.len() != items.len() {
        Seq::<T>::empty()
    } else {
        expand_runs(items.drop_last(), runs.drop_last()) + Seq::new(
            runs.last(),
            |k: int| items.last(),
        )
    }
}

/// Collapsing keeps the order: the items are the collapsed items again, each
/// repeated in a run of one or more. The lengths of the runs are returned.
pub proof fn lemma_collapse_keeps_order<T>(items: Seq<T>) -> (runs: Seq<nat>)
    ensures
        runs.len() == collapse_repeats(items).len(),
        forall|i: int| 0 <= i < runs.len() ==> runs[i] >= 1,
        expand_runs(collapse_repeats(items), runs) == items,
    decreases items.len(),
{
    if items.len() == 0 {
        Seq::<nat>::empty()
    } else {
        let shorter = items.drop_last();
        let before = collapse_repeats(shorter);
        let earlier = lemma_collapse_keeps_order(shorter);
        lemma_collapse_last(shorter);
        if items.len() >= 2 && items[items.len() - 2] == items.last() {
            let longest = (earlier.last() + 1) as nat;
            let runs = earlier.drop_last().push(longest);
            assert(runs.drop_last() =~= earlier.drop_last());
            assert(before.last() == items.last());
            assert(Seq::new(longest, |k: int| before.last()) =~= Seq::new(
                earlier.last(),
                |k: int| before.last(),
            ).push(items.last()));
            assert(expand_runs(before, runs) =~= expand_runs(before, earlier).push(items.last()));
            assert(shorter.push(items.last()) =~= items);
            runs
        } else {
            let after = before.push(items.last());
            let runs = earlier.push(1nat);
            assert(after.drop_last() =~= before);
            assert(runs.drop_last() =~= earlier);
            assert(Seq::new(1nat, |k: int| items.last()) =~= seq![items.last()]);
            assert(expand_runs(after, runs) =~= expand_runs(before, earlier).push(items.last()));
            assert(shorter.push(items.last()) =~= items);
            runs
        }
    }
}

/// In an archive in which every entry lies under `./<volume>/`, the volume
/// names are the volumes of the entries, with adjacent repeats collapsed: a
/// restore finds the volumes that the backup was made of.
pub proof fn lemma_volumes_of_backup_layout(paths: Seq<Seq<Seq<char>>>, volumes: Seq<Seq<char>>)
    requires
        paths.len() == volumes.len(),
        forall|i: int|
            0 <= i < paths.len() ==> {
                &&& (#[trigger] paths[i]).len() >= 2
                &&& paths[i][0] == cur_dir_name()
                &&& paths[i][1] == volumes[i]
                &&& is_plain_name(volumes[i])
            },
    ensures
        named_volumes(paths) == volumes,
        volume_names(paths) == collapse_repeats(volumes),
    decreases paths.len(),
{
    if paths.len() > 0 {
        let last = paths.len() - 1;
        assert(paths[last].len() >= 2);
        lemma_volume_is_top_level_directory(paths[last]);
        assert forall|i: int| 0 <= i < paths.drop_last().len() implies {
            &&& (#[trigger] paths.drop_last()[i]).len() >= 2
            &&& paths.drop_last()[i][0] == cur_dir_name()
            &&& paths.drop_last()[i][1] == volumes.drop_last()[i]
            &&& is_plain_name(volumes.drop_last()[i])
        } by {
            assert(paths.drop_last()[i] == paths[i]);
        }
        lemma_volumes_of_backup_layout(paths.drop_last(), volumes.drop_last());
        assert(volumes.drop_last().push(volumes[last]) =~= volumes);
    } else {
        assert(volumes =~= Seq::<Seq<char>>::empty());
    }
}

/// An entry that names no volume adds nothing to the volume names.
pub proof fn lemma_nameless_entry_adds_nothing(
    paths: Seq<Seq<Seq<char>>>,
    entry: Seq<Seq<char>>,
)
    requires
        volume_name_of(entry) is None,
    ensures
        volume_names(paths.push(entry)) == volume_names(paths),
{
    assert(paths.push(entry).drop_last() =~= paths);
}

/// An entry too shallow to have three ancestors adds nothing to the volume
/// names.
pub proof fn lemma_shallow_entry_adds_nothing(paths: Seq<Seq<Seq<char>>>, entry: Seq<Seq<char>>)
    requires
        ancestor_count(entry) < 3,
    ensures
        volume_names(paths.push(entry)) == volume_names(paths),
{
    lemma_nameless_entry_adds_nothing(paths, entry);
}

/// Turns the records of a listing into entry paths, or fails if one of them
/// could not be decoded.
pub fn collect_paths(records: &Vec<Option<String>>) -> (tree: Result<
    Vec<ArchiveEntryPath>,
    ArchiveReadError,
>)
    ensures
        match tree {
            Ok(paths) => directory_tree(record_texts(records@)) == Ok::<
                Seq<Seq<Seq<char>>>,
                ArchiveReadError,
            >(path_views(paths@)),
            Err(error) => directory_tree(record_texts(records@)) == Err::<
                Seq<Seq<Seq<char>>>,
                ArchiveReadError,
            >(error),
        },
{
    let ghost listing = record_texts(records@);
    let mut paths: Vec<ArchiveEntryPath> = Vec::new();
    for i in 0..records.len()
        invariant
            listing == record_texts(records@),
            paths@.len() == i,
            forall|j: int| 0 <= j < i ==> listing[j] is Some,
            forall|j: int| 0 <= j < i ==> (#[trigger] paths@[j])@ == path_components(listing[j]->0),
    {
        match &records[i] {
            None => {
                assert(listing[i as int] is None);
                return Err(ArchiveReadError::Malformed);
            },
            Some(text) => {
                assert(listing[i as int] == Some(text@));
                paths.push(ArchiveEntryPath::from_text(text.as_str()));
            },
        }
    }
    proof {
        let expected = listing.map_values(|record: Option<Seq<char>>| path_components(record->0));
        assert(path_views(paths@) =~= expected);
    }
    Ok(paths)
}

/// The distinct volume names of a list of entry paths, in the order in which
/// the entries first name them; a name comes again only where entries of
/// another volume stand in between.
pub fn top_level_volume_names(paths: &Vec<ArchiveEntryPath>) -> (names: Vec<String>)
    ensures
        texts(names@) == volume_names(path_views(paths@)),
{
    let ghost all = path_views(paths@);
    let mut names: Vec<String> = Vec::new();
    proof {
        assert(all.take(0) =~= Seq::<Seq<Seq<char>>>::empty());
        assert(texts(names@) =~= Seq::<Seq<char>>::empty());
    }
    for i in 0..paths.len()
        invariant
            all == path_views(paths@),
            texts(names@) == volume_names(all.take(i as int)),
    {
        let ghost seen = all.take(i as int);
        let ghost grown = all.take(i + 1);
        proof {
            assert(grown.drop_last() =~= seen);
            assert(grown.last() == paths@[i as int]@);
            lemma_collapse_last(named_volumes(seen));
        }
        match paths[i].volume_name() {
            None => {},
            Some(volume) => {
                let ghost named = named_volumes(seen);
                proof {
                    assert(named_volumes(grown) == named.push(volume@));
                    assert(named.push(volume@).drop_last() =~= named);
                    if named.len() > 0 {
                        assert(texts(names@).last() == named.last());
                        assert(texts(names@).last() == names@.last()@);
                    }
                }
                let repeat = names.len() > 0 && names[names.len() - 1] == volume;
                if !repeat {
                    proof {
                        lemma_texts_push(names@, volume);
                    }
                    names.push(volume);
                }
            },
        }
    }
    proof {
        assert(all.take(paths@.len() as int) =~= all);
    }
    names
}

/// Lists the paths of the entries of a gzip-compressed tar archive, in the
/// order of the archive. Fails as soon as any part of the archive cannot be
/// decoded: no part of a listing is given without the rest.
pub fn get_tar_directory_tree(archive: &[u8]) -> (tree: Result<
    Vec<ArchiveEntryPath>,
    ArchiveReadError,
>)
    ensures
        match tree {
            Ok(paths) => directory_tree(listed_paths(archive@)) == Ok::<
                Seq<Seq<Seq<char>>>,
                ArchiveReadError,
            >(path_views(paths@)),
            Err(error) => directory_tree(listed_paths(archive@)) == Err::<
                Seq<Seq<Seq<char>>>,
                ArchiveReadError,
            >(error),
        },
{
    let decoder = gz_decoder(archive);
    let mut reader = tar_archive(decoder);
    let mut records: Vec<Option<String>> = Vec::new();
    match archive_entries(&mut reader) {
        None => {
            return Err(ArchiveReadError::Unreadable);
        },
        Some(mut entries) => {
            proof {
                assert(record_texts(records@) =~= Seq::<Option<Seq<char>>>::empty());
            }
            loop
                invariant
                    record_texts(records@) + pending(entries) == listed_paths(archive@),
                ensures
                    pending(entries).len() == 0,
                decreases pending(entries).len(),
            {
                let ghost before = pending(entries);
                match next_path(&mut entries) {
                    None => {
                        break ;
                    },
                    Some(None) => {
                        proof {
                            assert(listed_paths(archive@)[records@.len() as int] == before[0]);
                        }
                        return Err(ArchiveReadError::Malformed);
                    },
                    Some(record) => {
                        proof {
                            assert(record_texts(records@.push(record)) =~= record_texts(
                                records@,
                            ).push(record_text(record)));
                            assert(record_texts(records@).push(before[0]) + before.drop_first()
                                =~= record_texts(records@) + before);
                        }
                        records.push(record);
                    },
                }
            }
            proof {
                assert(record_texts(records@) + pending(entries) =~= record_texts(records@));
            }
        },
    }
    collect_paths(&records)
}

/// Lists the volume names that a gzip-compressed tar archive holds: for each
/// entry the directory it lies under at the top of the archive, with
/// adjacent repeats collapsed into one.
pub fn get_tar_top_level_list(archive: &[u8]) -> (listing: Result<Vec<String>, ArchiveReadError>)
    ensures
        match listing {
            Ok(names) => directory_tree(listed_paths(archive@)) matches Ok(paths) && texts(names@)
                == volume_names(paths),
            Err(error) => directory_tree(listed_paths(archive@)) == Err::<
                Seq<Seq<Seq<char>>>,
                ArchiveReadError,
            >(error),
        },
{
    match get_tar_directory_tree(archive) {
        Ok(paths) => Ok(top_level_volume_names(&paths)),
        Err(error) => Err(error),
    }
}

} // verus!
