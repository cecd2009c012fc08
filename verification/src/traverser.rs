//! The depth-first walk over a snapshot of a directory tree: what it yields,
//! and that the walking machine, fed from the snapshot, yields just that.

use vstd::prelude::*;
use crate::classifier::classified;
use crate::occurrence::{views, Occurrence, OccurrenceView};
use crate::snapshot::Entry;
use crate::walk::{contribution, entered, keeps, settle, Child, Walk};

verus! {

/// What the walk yields at one entry: for a file its occurrence, where the
/// filter keeps it; for a directory its occurrence, whatever the filter, and
/// then what the walk yields inside it.
pub open spec fn found_at(entry: Entry, filter: Seq<char>) -> Seq<OccurrenceView>
    decreases entry,
{
    match entry {
        Entry::File { path, name } => if keeps(name@, filter) {
            seq![classified(path@, name@)]
        } else {
            Seq::empty()
        },
        Entry::Directory { path, listing } => seq![OccurrenceView::Directory(path@)] + match listing {
            Some(children) => found_among(children@, filter),
            None => Seq::empty(),
        },
    }
}

/// What the walk yields over the entries of one listing, in their order.
pub open spec fn found_among(entries: Seq<Entry>, filter: Seq<char>) -> Seq<OccurrenceView>
    decreases entries,
{
    if entries.len() == 0 {
        Seq::empty()
    } else {
        found_at(entries.first(), filter) + found_among(entries.drop_first(), filter)
    }
}

/// What the walk yields below the root `dir`. The root itself yields no
/// occurrence, and a root that is no listed directory yields nothing.
pub open spec fn found_in(dir: Entry, filter: Seq<char>) -> Seq<OccurrenceView> {
    match dir {
        Entry::Directory { listing: Some(children), .. } => found_among(children@, filter),
        _ => Seq::empty(),
    }
}

/// The entry of a listing that stands for `entry` of a snapshot. A directory
/// carries itself as its token.
pub open spec fn child_of<'a>(entry: Entry) -> Child<&'a Entry> {
    match entry {
        Entry::File { path, name } => Child::File { path, name },
        Entry::Directory { path, .. } => Child::Directory { path, token: &entry },
    }
}

/// The listing that stands for `entries`.
pub open spec fn listing_of<'a>(entries: Seq<Entry>) -> Seq<Child<&'a Entry>> {
    entries.map_values(|entry: Entry| child_of(entry))
}

/// The listings that stand for `trail`.
pub open spec fn listings_of<'a>(trail: Seq<Seq<Entry>>) -> Seq<Seq<Child<&'a Entry>>> {
    trail.map_values(|entries: Seq<Entry>| listing_of(entries))
}

/// The number of entries at and below `entry`.
pub open spec fn size_at(entry: Entry) -> nat
    decreases entry,
{
    match entry {
        Entry::File { .. } => 1,
        Entry::Directory { listing, .. } => 1 + match listing {
            Some(children) => size_among(children@),
            None => 0,
        },
    }
}

/// The number of entries among `entries` and below them.
pub open spec fn size_among(entries: Seq<Entry>) -> nat
    decreases entries,
{
    if entries.len() == 0 {
        0
    } else {
        size_at(entries.first()) + size_among(entries.drop_first())
    }
}

/// The number of entries below `dir`.
pub open spec fn size_in(dir: Entry) -> nat {
    match dir {
        Entry::Directory { listing: Some(children), .. } => size_among(children@),
        _ => 0,
    }
}

/// The number of entries in the listings of `trail` and below them.
pub open spec fn size_of(trail: Seq<Seq<Entry>>) -> nat
    decreases trail.len(),
{
    if trail.len() == 0 {
        0
    } else {
        size_among(trail.last()) + size_of(trail.drop_last())
    }
}

/// What the walk still yields over `trail`, the entries still to come in
/// each listing that is not used up: those of the innermost listing, which
/// is the last, come first.
pub open spec fn pending(trail: Seq<Seq<Entry>>, filter: Seq<char>) -> Seq<OccurrenceView>
    decreases trail.len(),
{
    if trail.len() == 0 {
        Seq::empty()
    } else {
        found_among(trail.last(), filter) + pending(trail.drop_last(), filter)
    }
}

/// The number of entries still to come in the innermost listing.
pub open spec fn innermost_of(trail: Seq<Seq<Entry>>) -> nat {
    if trail.len() > 0 {
        trail.last().len()
    } else {
        0
    }
}

/// Goes on over `trail` to the next directory: the result is what is then
/// still to come, and that directory, if there is one.
pub open spec fn advance(trail: Seq<Seq<Entry>>) -> (Seq<Seq<Entry>>, Option<Entry>)
    decreases trail.len(), innermost_of(trail),
{
    if trail.len() == 0 {
        (trail, None)
    } else if trail.last().len() == 0 {
        advance(trail.drop_last())
    } else {
        let entry = trail.last().first();
        let rest = trail.drop_last().push(trail.last().drop_first());
        match entry {
            Entry::File { .. } => advance(rest),
            Entry::Directory { .. } => (rest, Some(entry)),
        }
    }
}

/// What the walk yields inside the directory that it asks for.
pub open spec fn found_inside(asked: Option<Entry>, filter: Seq<char>) -> Seq<OccurrenceView> {
    match asked {
        Some(dir) => found_in(dir, filter),
        None => Seq::empty(),
    }
}

/// The number of entries inside the directory that the walk asks for, and
/// one more for a walk that is not complete.
pub open spec fn size_inside(asked: Option<Entry>) -> nat {
    match asked {
        Some(dir) => size_in(dir) + 1,
        None => 0,
    }
}

/// The entry of a listing that stands for the directory asked for.
pub open spec fn wanted_of<'a>(asked: Option<Entry>) -> Option<Child<&'a Entry>> {
    match asked {
        Some(dir) => Some(child_of(dir)),
        None => None,
    }
}

/// The machine, fed with the listings of a snapshot, goes the way of
/// `advance`: it asks for the same directory and has the same entries still
/// to come; what it has found, what is inside the directory asked for and
/// what is still to come make up what was to come before; and less is left
/// to do.
pub proof fn lemma_settle(found: Seq<OccurrenceView>, trail: Seq<Seq<Entry>>, filter: Seq<char>)
    ensures
        settle(found, listings_of(trail), filter).0.open == listings_of(advance(trail).0),
        settle(found, listings_of(trail), filter).1 == wanted_of(advance(trail).1),
        settle(found, listings_of(trail), filter).0.found + found_inside(advance(trail).1, filter)
            + pending(advance(trail).0, filter) == found + pending(trail, filter),
        size_inside(advance(trail).1) + size_of(advance(trail).0) <= size_of(trail),
        advance(trail).1 matches Some(dir) ==> dir is Directory,
        advance(trail).1 is None ==> advance(trail).0.len() == 0,
    decreases trail.len(), innermost_of(trail),
{
    let open = listings_of(trail);
    if trail.len() == 0 {
        assert(found + Seq::<OccurrenceView>::empty() == found);
    } else if trail.last().len() == 0 {
        assert(open.drop_last() == listings_of(trail.drop_last()));
        lemma_settle(found, trail.drop_last(), filter);
        assert(found_among(trail.last(), filter) + pending(trail.drop_last(), filter) == pending(
            trail.drop_last(),
            filter,
        ));
    } else {
        let entry = trail.last().first();
        let rest = trail.drop_last().push(trail.last().drop_first());
        let child = open.last()[0];
        assert(child == child_of(entry));
        assert(open.last().drop_first() == listing_of(trail.last().drop_first()));
        assert(open.drop_last().push(open.last().drop_first()) == listings_of(rest));
        assert(rest.last() == trail.last().drop_first());
        assert(rest.drop_last() == trail.drop_last());
        let here = found_at(entry, filter);
        let later = found_among(trail.last().drop_first(), filter);
        let outer = pending(trail.drop_last(), filter);
        assert(pending(trail, filter) == here + later + outer);
        assert(pending(rest, filter) == later + outer);
        assert(size_of(trail) == size_at(entry) + size_of(rest));
        match entry {
            Entry::File { .. } => {
                assert(contribution(child, filter) == here);
                lemma_settle(found + here, rest, filter);
                assert(found + here + (later + outer) == found + (here + later + outer));
            },
            Entry::Directory { path, .. } => {
                let head = seq![OccurrenceView::Directory(path@)];
                assert(contribution(child, filter) == head);
                assert(here == head + found_in(entry, filter));
                assert(found + head + found_in(entry, filter) + (later + outer) == found + (head
                    + found_in(entry, filter) + later + outer));
            },
        }
    }
}

/// The walker over directory snapshots.
pub struct DirSearcher;

/// The listing that stands for `entries`, each directory with itself as
/// its token.
fn listing<'a>(entries: &'a Vec<Entry>) -> (children: Vec<Child<&'a Entry>>)
    ensures
        children@ == listing_of(entries@),
{
    let mut children: Vec<Child<&'a Entry>> = Vec::new();
    let mut i: usize = 0;
    while i < entries.len()
        invariant
            i <= entries.len(),
            children@ == listing_of(entries@.take(i as int)),
        decreases entries.len() - i,
    {
        let child = match &entries[i] {
            Entry::File { path, name } => Child::File { path: path.clone(), name: name.clone() },
            Entry::Directory { path, .. } => Child::Directory {
                path: path.clone(),
                token: &entries[i],
            },
        };
        assert(child == child_of(entries@[i as int]));
        children.push(child);
        assert(entries@.take(i + 1) == entries@.take(i as int).push(entries@[i as int]));
        i += 1;
    }
    assert(entries@.take(entries.len() as int) == entries@);
    children
}

impl DirSearcher {
    /// Walks the tree below `dir` depth-first and appends to `file_list` an
    /// occurrence for every directory, and for every file that
    /// `file_to_find` keeps: all files where it is empty, else the files of
    /// exactly that name. A directory that could not be listed contributes
    /// its own occurrence and nothing below it.
    ///
    /// The walk is that of a [`Walk`] that gets its listings from the
    /// snapshot: it takes no more of the call stack for a deep tree than for
    /// a flat one.
    pub fn find_file(&self, dir: &Entry, file_to_find: &str, file_list: &mut Vec<Occurrence>)
        ensures
            views(final(file_list)@) == views(old(file_list)@) + found_in(*dir, file_to_find@),
    {
        let mut walk: Walk<&Entry> = Walk::new(file_to_find);
        let mut asked: &Entry = dir;
        let ghost mut trail: Seq<Seq<Entry>> = Seq::empty();
        let ghost filter = file_to_find@;
        assert(listings_of(trail) == Seq::<Seq<Child<&Entry>>>::empty());
        assert(Seq::<OccurrenceView>::empty() + found_in(*dir, filter) + pending(trail, filter)
            == found_in(*dir, filter));
        loop
            invariant
                file_list@ == old(file_list)@,
                filter == file_to_find@,
                walk.filter() == filter,
                walk@.open == listings_of(trail),
                walk@.found + found_in(*asked, filter) + pending(trail, filter) == found_in(
                    *dir,
                    filter,
                ),
            decreases size_in(*asked) + size_of(trail),
        {
            let ghost found = walk@.found;
            let ghost entered_trail = match asked {
                Entry::Directory { listing: Some(children), .. } => trail.push(children@),
                _ => trail,
            };
            let answer = match asked {
                Entry::Directory { listing: Some(children), .. } => Some(listing(children)),
                _ => None,
            };
            proof {
                assert(entered(walk@.open, answer) == listings_of(entered_trail));
                assert(pending(entered_trail, filter) == found_in(*asked, filter) + pending(
                    trail,
                    filter,
                )) by {
                    if let Entry::Directory { listing: Some(children), .. } = asked {
                        assert(entered_trail.last() == children@);
                        assert(entered_trail.drop_last() == trail);
                    }
                }
                assert(size_of(entered_trail) == size_in(*asked) + size_of(trail)) by {
                    if let Entry::Directory { listing: Some(children), .. } = asked {
                        assert(entered_trail.last() == children@);
                        assert(entered_trail.drop_last() == trail);
                    }
                }
                lemma_settle(found, entered_trail, filter);
                assert(found + (found_in(*asked, filter) + pending(trail, filter)) == found
                    + found_in(*asked, filter) + pending(trail, filter));
            }
            match walk.supply(answer) {
                Some(request) => {
                    proof {
                        trail = advance(entered_trail).0;
                    }
                    asked = request.token;
                    assert(*asked == advance(entered_trail).1->0);
                },
                None => {
                    proof {
                        assert(advance(entered_trail).1 is None);
                        assert(pending(advance(entered_trail).0, filter) == Seq::<
                            OccurrenceView,
                        >::empty());
                        assert(walk@.found == found_in(*dir, filter));
                    }
                    let mut found = walk.finish();
                    let ghost before = file_list@;
                    file_list.append(&mut found);
                    assert(views(file_list@) == views(before) + found_in(*dir, filter));
                    return;
                },
            }
        }
    }
}

} // verus!
