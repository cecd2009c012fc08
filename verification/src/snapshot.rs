//! The snapshot of a directory tree, and what it holds: its paths, its
//! directories and its files.

use vstd::prelude::*;

verus! {

/// One entry of a directory tree, as it was read.
#[derive(Debug)]
pub enum Entry {
    /// A file, with its full path and its base name.
    File { path: String, name: String },
    /// A directory, with its full path and the entries listed in it, in the
    /// order of the listing. `None` stands for a directory that could not be
    /// listed.
    Directory { path: String, listing: Option<Vec<Entry>> },
}

/// A file of a snapshot: its full path and its base name.
pub struct FileView {
    pub path: Seq<char>,
    pub name: Seq<char>,
}

/// The paths of the entries at and below `entry`, parents before their
/// contents.
pub open spec fn paths_at(entry: Entry) -> Seq<Seq<char>>
    decreases entry,
{
    match entry {
        Entry::File { path, .. } => seq![path@],
        Entry::Directory { path, listing } => seq![path@] + match listing {
            Some(children) => paths_among(children@),
            None => Seq::empty(),
        },
    }
}

/// The paths of the entries among `entries` and below them.
pub open spec fn paths_among(entries: Seq<Entry>) -> Seq<Seq<char>>
    decreases entries,
{
    if entries.len() == 0 {
        Seq::empty()
    } else {
        paths_at(entries.first()) + paths_among(entries.drop_first())
    }
}

/// The paths of all entries of the snapshot below the root `dir`.
pub open spec fn paths_in(dir: Entry) -> Seq<Seq<char>> {
    match dir {
        Entry::Directory { listing: Some(children), .. } => paths_among(children@),
        _ => Seq::empty(),
    }
}

/// The paths of the directories at and below `entry`, parents before their
/// contents.
pub open spec fn directories_at(entry: Entry) -> Seq<Seq<char>>
    decreases entry,
{
    match entry {
        Entry::File { .. } => Seq::empty(),
        Entry::Directory { path, listing } => seq![path@] + match listing {
            Some(children) => directories_among(children@),
            None => Seq::empty(),
        },
    }
}

/// The paths of the directories among `entries` and below them.
pub open spec fn directories_among(entries: Seq<Entry>) -> Seq<Seq<char>>
    decreases entries,
{
    if entries.len() == 0 {
        Seq::empty()
    } else {
        directories_at(entries.first()) + directories_among(entries.drop_first())
    }
}

/// The paths of all directories of the snapshot below the root `dir`.
pub open spec fn directories_in(dir: Entry) -> Seq<Seq<char>> {
    match dir {
        Entry::Directory { listing: Some(children), .. } => directories_among(children@),
        _ => Seq::empty(),
    }
}

/// The files at and below `entry`, in the order of the listings.
pub open spec fn files_at(entry: Entry) -> Seq<FileView>
    decreases entry,
{
    match entry {
        Entry::File { path, name } => seq![FileView { path: path@, name: name@ }],
        Entry::Directory { listing, .. } => match listing {
            Some(children) => files_among(children@),
            None => Seq::empty(),
        },
    }
}

/// The files among `entries` and below them.
pub open spec fn files_among(entries: Seq<Entry>) -> Seq<FileView>
    decreases entries,
{
    if entries.len() == 0 {
        Seq::empty()
    } else {
        files_at(entries.first()) + files_among(entries.drop_first())
    }
}

/// All files of the snapshot below the root `dir`.
pub open spec fn files_in(dir: Entry) -> Seq<FileView> {
    match dir {
        Entry::Directory { listing: Some(children), .. } => files_among(children@),
        _ => Seq::empty(),
    }
}

} // verus!
