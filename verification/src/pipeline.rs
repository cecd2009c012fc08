//! The stages in their order: search, where it is asked for, in place of the
//! walk's results; then sort, where it is asked for; then the sink.

use vstd::prelude::*;
use crate::occurrence::{views, Occurrence, OccurrenceView};
use crate::printer::Printer;
use crate::searcher::{search, searched, strings};
use crate::sorter::{bubble_sort, stable_sort};
use crate::snapshot::Entry;
use crate::traverser::{found_in, DirSearcher};

verus! {

/// The sequence that reaches the sink. A search, where it is enabled,
/// replaces the results of the walk by its own; a sort, where it is enabled,
/// orders whatever is then at hand. A stage that is not enabled changes
/// nothing.
pub open spec fn displayed(
    do_sort: bool,
    do_search: bool,
    found: Seq<OccurrenceView>,
    contents: Seq<Option<String>>,
    needle: Seq<char>,
) -> Seq<OccurrenceView> {
    let active = if do_search {
        searched(found, contents, needle)
    } else {
        found
    };
    if do_sort {
        stable_sort(active)
    } else {
        active
    }
}

/// What a run puts out is determined by what it was given: two runs over
/// the same snapshot, with the same filter, the same flags, the same needle
/// and the same contents of the text files put out the same lines.
pub proof fn lemma_runs_agree<P: Printer>(
    printer: P,
    first: Seq<Seq<char>>,
    second: Seq<Seq<char>>,
    dir: Entry,
    filter: Seq<char>,
    do_sort: bool,
    do_search: bool,
    contents: Seq<Option<String>>,
    needle: Seq<char>,
)
    requires
        first == printer.printed(
            displayed(do_sort, do_search, found_in(dir, filter), contents, needle),
        ),
        second == printer.printed(
            displayed(do_sort, do_search, found_in(dir, filter), contents, needle),
        ),
    ensures
        first == second,
{
}

impl DirSearcher {
    /// Takes the results of a walk through the remaining stages and returns
    /// the lines that `printer` puts out.
    ///
    /// With `do_search` the text files among `file_list` are searched for
    /// `text_to_find`, where `contents[k]` is what reading the text file
    /// number `k` gave (see [`search`]), and the matches take the place of
    /// `file_list`, which stays as it is. With `do_sort` the sequence at hand
    /// is sorted; without a search that is `file_list` itself, in place.
    pub fn display_files<P: Printer>(
        &self,
        do_sort: bool,
        do_search: bool,
        file_list: &mut Vec<Occurrence>,
        text_to_find: &str,
        contents: &Vec<Option<String>>,
        printer: &P,
    ) -> (lines: Vec<String>)
        ensures
            strings(lines@) == printer.printed(
                displayed(do_sort, do_search, views(old(file_list)@), contents@, text_to_find@),
            ),
            views(final(file_list)@) == if do_sort && !do_search {
                stable_sort(views(old(file_list)@))
            } else {
                views(old(file_list)@)
            },
    {
        if do_search {
            let mut text_occurrences = search(file_list, contents, text_to_find);
            if do_sort {
                bubble_sort(&mut text_occurrences);
            }
            printer.print(&text_occurrences)
        } else {
            if do_sort {
                bubble_sort(file_list);
            }
            printer.print(file_list)
        }
    }
}

} // verus!
