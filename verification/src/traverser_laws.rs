//! What holds of every walk: it finds every directory, and the files that
//! the filter keeps, each once and as what it is.

use vstd::prelude::*;
use crate::classifier::classified;
use crate::occurrence::{
    directory_paths, file_occurrences, lemma_directory_paths_add, lemma_directory_paths_one,
    lemma_file_occurrences_add, lemma_file_occurrences_one, texts, OccurrenceView,
};
use crate::seq_lemmas::{
    lemma_distinct_concat, lemma_filter_all, lemma_filter_one, lemma_no_dup_parts,
    lemma_within_concat,
};
use crate::snapshot::{
    directories_among, directories_at, directories_in, files_among, files_at, files_in,
    paths_among, paths_at, paths_in, Entry, FileView,
};
use crate::traverser::{found_among, found_at, found_in};
use crate::walk::keeps;

verus! {

/// The files of `files` that `filter` keeps, in order.
pub open spec fn kept_files(files: Seq<FileView>, filter: Seq<char>) -> Seq<FileView> {
    files.filter(|f: FileView| keeps(f.name, filter))
}

/// The occurrences that stand for `files`, one for each, in order.
pub open spec fn classified_all(files: Seq<FileView>) -> Seq<OccurrenceView> {
    files.map_values(|f: FileView| classified(f.path, f.name))
}

proof fn lemma_directories_at(entry: Entry, filter: Seq<char>)
    ensures
        directory_paths(found_at(entry, filter)) == directories_at(entry),
    decreases entry,
{
    match entry {
        Entry::File { path, name } => {
            if keeps(name@, filter) {
                lemma_directory_paths_one(classified(path@, name@));
            }
        },
        Entry::Directory { path, listing } => {
            let inside = match listing {
                Some(children) => found_among(children@, filter),
                None => Seq::empty(),
            };
            lemma_directory_paths_one(OccurrenceView::Directory(path@));
            lemma_directory_paths_add(seq![OccurrenceView::Directory(path@)], inside);
            if let Some(children) = listing {
                lemma_directories_among(children@, filter);
            }
        },
    }
}

proof fn lemma_directories_among(entries: Seq<Entry>, filter: Seq<char>)
    ensures
        directory_paths(found_among(entries, filter)) == directories_among(entries),
    decreases entries,
{
    if entries.len() > 0 {
        lemma_directories_at(entries.first(), filter);
        lemma_directories_among(entries.drop_first(), filter);
        lemma_directory_paths_add(
            found_at(entries.first(), filter),
            found_among(entries.drop_first(), filter),
        );
    }
}

proof fn lemma_kept_add(a: Seq<FileView>, b: Seq<FileView>, filter: Seq<char>)
    ensures
        classified_all(kept_files(a + b, filter)) == classified_all(kept_files(a, filter))
            + classified_all(kept_files(b, filter)),
{
    Seq::filter_distributes_over_add(a, b, |f: FileView| keeps(f.name, filter));
}

proof fn lemma_files_at(entry: Entry, filter: Seq<char>)
    ensures
        file_occurrences(found_at(entry, filter)) == classified_all(
            kept_files(files_at(entry), filter),
        ),
    decreases entry,
{
    match entry {
        Entry::File { path, name } => {
            let file = FileView { path: path@, name: name@ };
            lemma_filter_one(file, |f: FileView| keeps(f.name, filter));
            if keeps(name@, filter) {
                lemma_file_occurrences_one(classified(path@, name@));
                assert(classified_all(seq![file]) == seq![classified(path@, name@)]);
            }
        },
        Entry::Directory { path, listing } => {
            let inside = match listing {
                Some(children) => found_among(children@, filter),
                None => Seq::empty(),
            };
            lemma_file_occurrences_one(OccurrenceView::Directory(path@));
            lemma_file_occurrences_add(seq![OccurrenceView::Directory(path@)], inside);
            if let Some(children) = listing {
                lemma_files_among(children@, filter);
            }
        },
    }
}

proof fn lemma_files_among(entries: Seq<Entry>, filter: Seq<char>)
    ensures
        file_occurrences(found_among(entries, filter)) == classified_all(
            kept_files(files_among(entries), filter),
        ),
    decreases entries,
{
    if entries.len() > 0 {
        lemma_files_at(entries.first(), filter);
        lemma_files_among(entries.drop_first(), filter);
        lemma_file_occurrences_add(
            found_at(entries.first(), filter),
            found_among(entries.drop_first(), filter),
        );
        lemma_kept_add(files_at(entries.first()), files_among(entries.drop_first()), filter);
    }
}

/// Every directory of the snapshot is found, once and in the order of the
/// walk, whatever the filter: the directory occurrences of a walk are the
/// directories below the root, and so the same with a filter as without.
/// (A directory that could not be listed has no entries in the snapshot.)
pub proof fn lemma_directories_complete(dir: Entry, filter: Seq<char>)
    ensures
        directory_paths(found_in(dir, filter)) == directories_in(dir),
        directory_paths(found_in(dir, filter)) == directory_paths(found_in(dir, Seq::empty())),
{
    lemma_directories_in(dir, filter);
    lemma_directories_in(dir, Seq::empty());
}

proof fn lemma_directories_in(dir: Entry, filter: Seq<char>)
    ensures
        directory_paths(found_in(dir, filter)) == directories_in(dir),
{
    match dir {
        Entry::Directory { listing: Some(children), .. } => {
            lemma_directories_among(children@, filter);
        },
        _ => {
            assert(directory_paths(Seq::empty()) == Seq::<Seq<char>>::empty());
        },
    }
}

/// The file occurrences of a walk are the occurrences of the files that the
/// filter keeps, one for each and in the order of the walk. With a filter
/// that is not empty, each of them stands for a file named exactly so.
pub proof fn lemma_filter_correct(dir: Entry, filter: Seq<char>)
    ensures
        file_occurrences(found_in(dir, filter)) == classified_all(
            kept_files(files_in(dir), filter),
        ),
        filter.len() > 0 ==> forall|i: int|
            0 <= i < kept_files(files_in(dir), filter).len() ==> (#[trigger] kept_files(
                files_in(dir),
                filter,
            )[i]).name == filter,
{
    match dir {
        Entry::Directory { listing: Some(children), .. } => {
            lemma_files_among(children@, filter);
        },
        _ => {
            assert(file_occurrences(Seq::empty()) == Seq::<OccurrenceView>::empty());
            assert(kept_files(Seq::empty(), filter) == Seq::<FileView>::empty());
        },
    }
    let pred = |f: FileView| keeps(f.name, filter);
    assert forall|i: int| 0 <= i < kept_files(files_in(dir), filter).len() implies pred(
        #[trigger] kept_files(files_in(dir), filter)[i],
    ) by {
        files_in(dir).lemma_filter_pred(pred, i);
    }
}

/// With the empty filter every file of the snapshot is found, once and in
/// the order of the walk.
pub proof fn lemma_files_complete(dir: Entry)
    ensures
        file_occurrences(found_in(dir, Seq::empty())) == classified_all(files_in(dir)),
{
    lemma_filter_correct(dir, Seq::empty());
    let pred = |f: FileView| keeps(f.name, Seq::empty());
    assert(kept_files(files_in(dir), Seq::empty()) == files_in(dir)) by {
        lemma_filter_all(files_in(dir), pred);
    }
}

/// What a walk yields inside a directory, and the paths below it.
spec fn inside(listing: Option<Vec<Entry>>, filter: Seq<char>) -> (Seq<OccurrenceView>, Seq<Seq<char>>) {
    match listing {
        Some(children) => (found_among(children@, filter), paths_among(children@)),
        None => (Seq::empty(), Seq::empty()),
    }
}

proof fn lemma_texts_are_paths_at(entry: Entry, filter: Seq<char>)
    ensures
        forall|k: int|
            0 <= k < found_at(entry, filter).len() ==> paths_at(entry).contains(
                #[trigger] texts(found_at(entry, filter))[k],
            ),
    decreases entry,
{
    match entry {
        Entry::File { path, name } => {
            assert(paths_at(entry)[0] == path@);
        },
        Entry::Directory { path, listing } => {
            let head = seq![OccurrenceView::Directory(path@)];
            let (within, below) = inside(listing, filter);
            if let Some(children) = listing {
                lemma_texts_are_paths_among(children@, filter);
            }
            assert(texts(head + within) == texts(head) + texts(within));
            assert(texts(head) == seq![path@] && seq![path@][0] == path@);
            lemma_within_concat(texts(head), texts(within), seq![path@], below);
        },
    }
}

proof fn lemma_texts_are_paths_among(entries: Seq<Entry>, filter: Seq<char>)
    ensures
        forall|k: int|
            0 <= k < found_among(entries, filter).len() ==> paths_among(entries).contains(
                #[trigger] texts(found_among(entries, filter))[k],
            ),
    decreases entries,
{
    if entries.len() > 0 {
        let here = found_at(entries.first(), filter);
        let later = found_among(entries.drop_first(), filter);
        lemma_texts_are_paths_at(entries.first(), filter);
        lemma_texts_are_paths_among(entries.drop_first(), filter);
        assert(texts(here + later) == texts(here) + texts(later));
        lemma_within_concat(
            texts(here),
            texts(later),
            paths_at(entries.first()),
            paths_among(entries.drop_first()),
        );
    }
}

proof fn lemma_distinct_at(entry: Entry, filter: Seq<char>)
    requires
        paths_at(entry).no_duplicates(),
    ensures
        texts(found_at(entry, filter)).no_duplicates(),
    decreases entry,
{
    if let Entry::Directory { path, listing } = entry {
        let head = seq![OccurrenceView::Directory(path@)];
        let (within, below) = inside(listing, filter);
        lemma_no_dup_parts(seq![path@], below);
        if let Some(children) = listing {
            lemma_distinct_among(children@, filter);
            lemma_texts_are_paths_among(children@, filter);
        }
        assert(texts(head + within) == texts(head) + texts(within));
        assert(texts(head) == seq![path@] && seq![path@][0] == path@);
        lemma_distinct_concat(texts(head), texts(within), seq![path@], below);
    }
}

proof fn lemma_distinct_among(entries: Seq<Entry>, filter: Seq<char>)
    requires
        paths_among(entries).no_duplicates(),
    ensures
        texts(found_among(entries, filter)).no_duplicates(),
    decreases entries,
{
    if entries.len() > 0 {
        let here = found_at(entries.first(), filter);
        let later = found_among(entries.drop_first(), filter);
        let pa = paths_at(entries.first());
        let pb = paths_among(entries.drop_first());
        lemma_no_dup_parts(pa, pb);
        lemma_distinct_at(entries.first(), filter);
        lemma_distinct_among(entries.drop_first(), filter);
        lemma_texts_are_paths_at(entries.first(), filter);
        lemma_texts_are_paths_among(entries.drop_first(), filter);
        assert(texts(here + later) == texts(here) + texts(later));
        lemma_distinct_concat(texts(here), texts(later), pa, pb);
    }
}

/// Where no two entries of the snapshot have the same path, no two
/// occurrences of a walk have: a path comes up at most once, as a file, a
/// text file or a directory. Every path that comes up is the path of an
/// entry.
pub proof fn lemma_paths_once(dir: Entry, filter: Seq<char>)
    ensures
        paths_in(dir).no_duplicates() ==> texts(found_in(dir, filter)).no_duplicates(),
        forall|k: int|
            0 <= k < found_in(dir, filter).len() ==> paths_in(dir).contains(
                #[trigger] texts(found_in(dir, filter))[k],
            ),
{
    if let Entry::Directory { listing: Some(children), .. } = dir {
        lemma_texts_are_paths_among(children@, filter);
        if paths_in(dir).no_duplicates() {
            lemma_distinct_among(children@, filter);
        }
    }
}

proof fn lemma_kinds_among(entries: Seq<Entry>, filter: Seq<char>)
    ensures
        forall|i: int|
            0 <= i < found_among(entries, filter).len() ==> !(#[trigger] found_among(
                entries,
                filter,
            )[i] is SearchableText),
    decreases entries,
{
    if entries.len() > 0 {
        let here = found_at(entries.first(), filter);
        let later = found_among(entries.drop_first(), filter);
        lemma_kinds_among(entries.drop_first(), filter);
        if let Entry::Directory { listing: Some(children), .. } = entries.first() {
            lemma_kinds_among(children@, filter);
        }
        assert forall|i: int| 0 <= i < here.len() implies !(#[trigger] here[i] is SearchableText) by {
            match entries.first() {
                Entry::File { .. } => {},
                Entry::Directory { listing, .. } => {
                    if let Some(children) = listing {
                        if i > 0 {
                            assert(here[i] == found_among(children@, filter)[i - 1]);
                        }
                    }
                },
            }
        }
        assert forall|i: int| 0 <= i < (here + later).len() implies !(#[trigger] (here
            + later)[i] is SearchableText) by {
            if i < here.len() {
                assert((here + later)[i] == here[i]);
            } else {
                assert((here + later)[i] == later[i - here.len()]);
            }
        }
    }
}

/// A walk yields files, text files and directories, and no matched lines.
pub proof fn lemma_walk_kinds(dir: Entry, filter: Seq<char>)
    ensures
        forall|i: int|
            0 <= i < found_in(dir, filter).len() ==> !(#[trigger] found_in(
                dir,
                filter,
            )[i] is SearchableText),
{
    if let Entry::Directory { listing: Some(children), .. } = dir {
        lemma_kinds_among(children@, filter);
    }
}

} // verus!
