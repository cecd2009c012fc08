//! The tagged result of a traversal or of a search.

use vstd::prelude::*;
use crate::seq_lemmas::lemma_filter_one;

verus! {

/// One result of a traversal or of a search, carrying a single text payload.
#[derive(Debug, PartialEq, Eq)]
pub enum Occurrence {
    /// Full path of an entry that is neither a directory nor a text file.
    File(String),
    /// Full path of a directory.
    Directory(String),
    /// Full path of a file whose contents can be searched.
    TextFile(String),
    /// A matched line, described by file, line number and the line itself.
    SearchableText(String),
}

/// The mathematical value of an [`Occurrence`]: its tag and its payload as a
/// sequence of characters.
pub enum OccurrenceView {
    File(Seq<char>),
    Directory(Seq<char>),
    TextFile(Seq<char>),
    SearchableText(Seq<char>),
}

impl OccurrenceView {
    /// The payload, whatever the tag.
    pub open spec fn text(self) -> Seq<char> {
        match self {
            OccurrenceView::File(t) => t,
            OccurrenceView::Directory(t) => t,
            OccurrenceView::TextFile(t) => t,
            OccurrenceView::SearchableText(t) => t,
        }
    }
}

impl View for Occurrence {
    type V = OccurrenceView;

    open spec fn view(&self) -> OccurrenceView {
        match self {
            Occurrence::File(p) => OccurrenceView::File(p@),
            Occurrence::Directory(p) => OccurrenceView::Directory(p@),
            Occurrence::TextFile(p) => OccurrenceView::TextFile(p@),
            Occurrence::SearchableText(p) => OccurrenceView::SearchableText(p@),
        }
    }
}

/// The mathematical values of a sequence of occurrences, in order.
pub open spec fn views(found: Seq<Occurrence>) -> Seq<OccurrenceView> {
    found.map_values(|o: Occurrence| o@)
}

/// The texts of `found`, in order.
pub open spec fn texts(found: Seq<OccurrenceView>) -> Seq<Seq<char>> {
    found.map_values(|o: OccurrenceView| o.text())
}

/// The paths of the directory occurrences in `found`, in order.
pub open spec fn directory_paths(found: Seq<OccurrenceView>) -> Seq<Seq<char>> {
    found.filter(|o: OccurrenceView| o is Directory).map_values(|o: OccurrenceView| o.text())
}

/// The occurrences in `found` that stand for files, text files or not, in
/// order.
pub open spec fn file_occurrences(found: Seq<OccurrenceView>) -> Seq<OccurrenceView> {
    found.filter(|o: OccurrenceView| o is File || o is TextFile)
}

/// The paths of the text file occurrences in `found`, in order.
pub open spec fn text_file_paths(found: Seq<OccurrenceView>) -> Seq<Seq<char>> {
    found.filter(|o: OccurrenceView| o is TextFile).map_values(|o: OccurrenceView| o.text())
}

/// The directory paths of a concatenation are those of its parts.
pub proof fn lemma_directory_paths_add(a: Seq<OccurrenceView>, b: Seq<OccurrenceView>)
    ensures
        directory_paths(a + b) == directory_paths(a) + directory_paths(b),
{
    Seq::filter_distributes_over_add(a, b, |o: OccurrenceView| o is Directory);
}

/// The directory paths of a single occurrence.
pub proof fn lemma_directory_paths_one(o: OccurrenceView)
    ensures
        directory_paths(seq![o]) == if o is Directory {
            seq![o.text()]
        } else {
            Seq::<Seq<char>>::empty()
        },
{
    lemma_filter_one(o, |o: OccurrenceView| o is Directory);
}

/// The file occurrences of a concatenation are those of its parts.
pub proof fn lemma_file_occurrences_add(a: Seq<OccurrenceView>, b: Seq<OccurrenceView>)
    ensures
        file_occurrences(a + b) == file_occurrences(a) + file_occurrences(b),
{
    Seq::filter_distributes_over_add(a, b, |o: OccurrenceView| o is File || o is TextFile);
}

/// The file occurrences of a single occurrence.
pub proof fn lemma_file_occurrences_one(o: OccurrenceView)
    ensures
        file_occurrences(seq![o]) == if o is File || o is TextFile {
            seq![o]
        } else {
            Seq::<OccurrenceView>::empty()
        },
{
    lemma_filter_one(o, |o: OccurrenceView| o is File || o is TextFile);
}

/// The text file paths of a concatenation are those of its parts.
pub proof fn lemma_text_file_paths_add(a: Seq<OccurrenceView>, b: Seq<OccurrenceView>)
    ensures
        text_file_paths(a + b) == text_file_paths(a) + text_file_paths(b),
{
    Seq::filter_distributes_over_add(a, b, |o: OccurrenceView| o is TextFile);
}

/// The text file paths of a single occurrence.
pub proof fn lemma_text_file_paths_one(o: OccurrenceView)
    ensures
        text_file_paths(seq![o]) == if o is TextFile {
            seq![o.text()]
        } else {
            Seq::<Seq<char>>::empty()
        },
{
    lemma_filter_one(o, |o: OccurrenceView| o is TextFile);
}

impl Occurrence {
    /// The payload: the path, or for a matched line its description. This is
    /// both the text that is displayed and the key by which results are ordered.
    pub fn file_name(&self) -> (name: &str)
        ensures
            name@ == self@.text(),
    {
        match self {
            Occurrence::File(path) => path.as_str(),
            Occurrence::Directory(path) => path.as_str(),
            Occurrence::TextFile(path) => path.as_str(),
            Occurrence::SearchableText(path) => path.as_str(),
        }
    }
}

} // verus!
