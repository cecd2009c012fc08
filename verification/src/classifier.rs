//! The rule that tells text files from other files by the extension of
//! their name.

use vstd::prelude::*;
use crate::occurrence::{Occurrence, OccurrenceView};
use crate::text::{chars_of, push_chars};

verus! {

/// The index of the last `.` in `name`, or -1 where it holds none.
pub open spec fn last_dot(name: Seq<char>) -> int
    decreases name.len(),
{
    if name.len() == 0 {
        -1
    } else if name.last() == '.' {
        name.len() - 1
    } else {
        last_dot(name.drop_last())
    }
}

/// The extension of a file name: what follows its last `.`. A name without
/// a `.`, a name whose only `.` is its first character, and the name `..`
/// have none.
pub open spec fn extension_of(name: Seq<char>) -> Option<Seq<char>> {
    let dot = last_dot(name);
    if dot <= 0 || name == seq!['.', '.'] {
        None
    } else {
        Some(name.skip(dot + 1))
    }
}

/// The extensions that make a file a text file: `rs` and `txt`.
pub open spec fn is_text_extension(extension: Seq<char>) -> bool {
    extension == seq!['r', 's'] || extension == seq!['t', 'x', 't']
}

/// Whether a file of this name is a text file.
pub open spec fn is_text_name(name: Seq<char>) -> bool {
    match extension_of(name) {
        Some(extension) => is_text_extension(extension),
        None => false,
    }
}

/// The occurrence that stands for a file with this path and this name.
pub open spec fn classified(path: Seq<char>, name: Seq<char>) -> OccurrenceView {
    if is_text_name(name) {
        OccurrenceView::TextFile(path)
    } else {
        OccurrenceView::File(path)
    }
}

/// `last_dot` is the position `dot` where `name` holds a `.` there and none
/// after it, and -1 where `name` holds none at all.
pub proof fn lemma_last_dot(name: Seq<char>, dot: int)
    requires
        -1 <= dot < name.len(),
        dot >= 0 ==> name[dot] == '.',
        forall|j: int| dot < j < name.len() ==> name[j] != '.',
    ensures
        last_dot(name) == dot,
    decreases name.len(),
{
    if name.len() > 0 && name.last() != '.' {
        lemma_last_dot(name.drop_last(), dot);
    }
}

/// The position of the last `.` among `chars`, if there is one.
fn find_last_dot(chars: &Vec<char>) -> (dot: Option<usize>)
    ensures
        match dot {
            Some(d) => d < chars.len() && d == last_dot(chars@),
            None => last_dot(chars@) == -1,
        },
{
    let mut i: usize = chars.len();
    while i > 0
        invariant
            i <= chars.len(),
            forall|j: int| i <= j < chars.len() ==> chars@[j] != '.',
        decreases i,
    {
        if chars[i - 1] == '.' {
            proof {
                lemma_last_dot(chars@, i - 1);
            }
            return Some(i - 1);
        }
        i -= 1;
    }
    proof {
        lemma_last_dot(chars@, -1);
    }
    None
}

/// The extension of the file name `name`, if it has one.
pub fn extension(name: &str) -> (found: Option<String>)
    ensures
        match found {
            Some(e) => extension_of(name@) == Some(e@),
            None => extension_of(name@) is None,
        },
{
    let chars = chars_of(name);
    if chars.len() == 2 && chars[0] == '.' && chars[1] == '.' {
        assert(chars@ == seq!['.', '.']);
        return None;
    }
    match find_last_dot(&chars) {
        Some(dot) if dot > 0 => {
            let mut e = String::new();
            push_chars(&mut e, &chars, dot + 1, chars.len());
            assert(e@ == chars@.skip(dot + 1));
            Some(e)
        },
        _ => None,
    }
}

/// Whether a file of this name is a text file.
pub fn is_text_file(name: &str) -> (text: bool)
    ensures
        text == is_text_name(name@),
{
    let chars = chars_of(name);
    let n = chars.len();
    match find_last_dot(&chars) {
        Some(dot) if dot > 0 => {
            let ghost e = chars@.skip(dot + 1);
            assert(e.len() == n - dot - 1);
            assert(seq!['r', 's'].len() == 2 && seq!['t', 'x', 't'].len() == 3);
            assert(chars@ == seq!['.', '.'] ==> n == 2);
            if n - dot == 3 {
                let text = chars[dot + 1] == 'r' && chars[dot + 2] == 's';
                assert(text == (e == seq!['r', 's'])) by {
                    if text {
                        assert(e == seq!['r', 's']);
                    } else if e == seq!['r', 's'] {
                        assert(e[0] == 'r' && e[1] == 's');
                    }
                }
                text
            } else if n - dot == 4 {
                let text = chars[dot + 1] == 't' && chars[dot + 2] == 'x' && chars[dot + 3] == 't';
                assert(text == (e == seq!['t', 'x', 't'])) by {
                    if text {
                        assert(e == seq!['t', 'x', 't']);
                    } else if e == seq!['t', 'x', 't'] {
                        assert(e[0] == 't' && e[1] == 'x' && e[2] == 't');
                    }
                }
                text
            } else {
                false
            }
        },
        _ => false,
    }
}

/// Classifies a file: a text file where the extension of `name` is `rs` or
/// `txt`, and a plain file otherwise. Either way the occurrence carries
/// `path`.
pub fn classify(path: &str, name: &str) -> (found: Occurrence)
    ensures
        found@ == classified(path@, name@),
        is_text_name(name@) ==> found@ == OccurrenceView::TextFile(path@),
        !is_text_name(name@) ==> found@ == OccurrenceView::File(path@),
{
    if is_text_file(name) {
        Occurrence::TextFile(path.to_owned())
    } else {
        Occurrence::File(path.to_owned())
    }
}

} // verus!
