//! The walk as a machine that can wait: it decides which directory is to be
//! listed next and what each listing contributes, and the caller does the
//! listing.

use vstd::prelude::*;
use crate::classifier::{classified, classify};
use crate::occurrence::{views, Occurrence, OccurrenceView};
use crate::text::str_eq;

verus! {

/// One entry of a listing, as the caller read it.
#[derive(Debug)]
pub enum Child<K> {
    /// A file, with its full path and its base name.
    File { path: String, name: String },
    /// A directory, with its full path and a token of the caller's choice,
    /// which comes back when the walk asks for the listing of the directory.
    Directory { path: String, token: K },
}

/// The directory that a walk asks to be listed: its path, and the token that
/// the caller gave with it.
#[derive(Debug)]
pub struct Request<K> {
    pub path: String,
    pub token: K,
}

/// Whether a file named `name` passes the filter: the empty filter lets every
/// file pass, any other only the files of exactly that name.
pub open spec fn keeps(name: Seq<char>, filter: Seq<char>) -> bool {
    filter.len() == 0 || name == filter
}

/// What an entry of a listing contributes when the walk comes to it: a file
/// its occurrence, where the filter keeps it, and a directory its occurrence,
/// whatever the filter.
pub open spec fn contribution<K>(child: Child<K>, filter: Seq<char>) -> Seq<OccurrenceView> {
    match child {
        Child::File { path, name } => if keeps(name@, filter) {
            seq![classified(path@, name@)]
        } else {
            Seq::empty()
        },
        Child::Directory { path, .. } => seq![OccurrenceView::Directory(path@)],
    }
}

/// The state of a walk: what it has found, and of each listing that is not
/// used up the entries still to come, the innermost listing last.
pub struct WalkView<K> {
    pub found: Seq<OccurrenceView>,
    pub open: Seq<Seq<Child<K>>>,
}

/// The number of entries still to come in the innermost listing.
pub open spec fn innermost<K>(open: Seq<Seq<Child<K>>>) -> nat {
    if open.len() > 0 {
        open.last().len()
    } else {
        0
    }
}

/// Goes on with the walk until it comes to a directory, which it records and
/// asks for, or until every listing is used up. The result is the state then
/// reached and the directory asked for.
pub open spec fn settle<K>(found: Seq<OccurrenceView>, open: Seq<Seq<Child<K>>>, filter: Seq<char>) -> (
    WalkView<K>,
    Option<Child<K>>,
)
    decreases open.len(), innermost(open),
{
    if open.len() == 0 {
        (WalkView { found, open }, None)
    } else if open.last().len() == 0 {
        settle(found, open.drop_last(), filter)
    } else {
        let child = open.last()[0];
        let rest = open.drop_last().push(open.last().drop_first());
        match child {
            Child::File { .. } => settle(found + contribution(child, filter), rest, filter),
            Child::Directory { .. } => (
                WalkView { found: found + contribution(child, filter), open: rest },
                Some(child),
            ),
        }
    }
}

/// The state after the listing of the directory asked for has come in: it is
/// the innermost listing now. A listing that could not be had leaves the
/// state as it was.
pub open spec fn entered<K>(open: Seq<Seq<Child<K>>>, listing: Option<Vec<Child<K>>>) -> Seq<
    Seq<Child<K>>,
> {
    match listing {
        Some(children) => open.push(children@),
        None => open,
    }
}

/// The entry of a listing that a request asks to be listed.
pub open spec fn wanted<K>(asked: Option<Request<K>>) -> Option<Child<K>> {
    match asked {
        Some(request) => Some(Child::Directory { path: request.path, token: request.token }),
        None => None,
    }
}

/// A walk in progress.
pub struct Walk<K> {
    filter: String,
    found: Vec<Occurrence>,
    /// The listings that are not used up, the innermost last, each in
    /// reverse, so that its next entry is its last element.
    open: Vec<Vec<Child<K>>>,
}

impl<K> View for Walk<K> {
    type V = WalkView<K>;

    closed spec fn view(&self) -> WalkView<K> {
        WalkView {
            found: views(self.found@),
            open: self.open@.map_values(|listing: Vec<Child<K>>| listing@.reverse()),
        }
    }
}

/// The entries of `children` in reverse.
fn reversed<K>(children: Vec<Child<K>>) -> (turned: Vec<Child<K>>)
    ensures
        turned@.reverse() == children@,
{
    let mut rest = children;
    let mut turned: Vec<Child<K>> = Vec::new();
    loop
        invariant
            rest@.len() + turned@.len() == children@.len(),
            rest@ == children@.take(rest@.len() as int),
            forall|i: int|
                0 <= i < turned@.len() ==> turned@[i] == children@[children@.len() - 1 - i],
        decreases rest@.len(),
    {
        match rest.pop() {
            Some(child) => {
                turned.push(child);
            },
            None => {
                assert(turned@.reverse() == children@);
                return turned;
            },
        }
    }
}

impl<K> Walk<K> {
    /// The filter of the walk.
    pub closed spec fn filter(&self) -> Seq<char> {
        self.filter@
    }

    /// A walk that has found nothing yet and waits for the listing of its
    /// root. It keeps the files named `file_to_find`, or all files where that
    /// is empty.
    pub fn new(file_to_find: &str) -> (walk: Walk<K>)
        ensures
            walk.filter() == file_to_find@,
            walk@.found == Seq::<OccurrenceView>::empty(),
            walk@.open == Seq::<Seq<Child<K>>>::empty(),
    {
        Walk { filter: file_to_find.to_owned(), found: Vec::new(), open: Vec::new() }
    }

    /// Takes in the listing of the directory that the walk asked for last, or
    /// of the root at the first call, and goes on until the walk needs the
    /// listing of another directory, which is returned, or is complete.
    /// `None` in place of the listing says that the directory could not be
    /// listed; the walk goes on with what follows it.
    pub fn supply(&mut self, listing: Option<Vec<Child<K>>>) -> (asked: Option<Request<K>>)
        ensures
            final(self).filter() == old(self).filter(),
            final(self)@ == settle(
                old(self)@.found,
                entered(old(self)@.open, listing),
                old(self).filter(),
            ).0,
            wanted(asked) == settle(
                old(self)@.found,
                entered(old(self)@.open, listing),
                old(self).filter(),
            ).1,
    {
        let ghost target = settle(
            self@.found,
            entered(self@.open, listing),
            self.filter(),
        );
        if let Some(children) = listing {
            let turned = reversed(children);
            self.open.push(turned);
            assert(self@.open == old(self)@.open.push(children@));
        }
        loop
            invariant
                self.filter() == old(self).filter(),
                settle(self@.found, self@.open, self.filter()) == target,
                target == settle(
                    old(self)@.found,
                    entered(old(self)@.open, listing),
                    old(self).filter(),
                ),
            decreases self@.open.len(), innermost(self@.open),
        {
            let ghost before = self@;
            match self.open.pop() {
                None => {
                    assert(self@.open.len() == 0);
                    return None;
                },
                Some(mut turned) => {
                    let ghost outer = self@.open;
                    assert(outer == before.open.drop_last());
                    assert(before.open.last() == turned@.reverse());
                    match turned.pop() {
                        None => {
                            assert(before.open.last().len() == 0);
                        },
                        Some(child) => {
                            assert(child == before.open.last()[0]);
                            assert(turned@.reverse() == before.open.last().drop_first());
                            self.open.push(turned);
                            assert(self@.open == outer.push(before.open.last().drop_first()));
                            match child {
                                Child::File { path, name } => {
                                    if self.filter.as_str().is_empty() || str_eq(
                                        name.as_str(),
                                        self.filter.as_str(),
                                    ) {
                                        let found = classify(path.as_str(), name.as_str());
                                        self.found.push(found);
                                        assert(self@.found == before.found.push(found@));
                                    }
                                    assert(self@.found == before.found + contribution(
                                        child,
                                        self.filter(),
                                    ));
                                },
                                Child::Directory { path, token } => {
                                    self.found.push(Occurrence::Directory(path.clone()));
                                    assert(self@.found == before.found.push(
                                        OccurrenceView::Directory(path@),
                                    ));
                                    assert(self@.found == before.found + contribution(
                                        child,
                                        self.filter(),
                                    ));
                                    return Some(Request { path, token });
                                },
                            }
                        },
                    }
                },
            }
        }
    }

    /// Ends the walk and hands out what it has found.
    pub fn finish(self) -> (found: Vec<Occurrence>)
        ensures
            views(found@) == self@.found,
    {
        self.found
    }
}

} // verus!
