//! The literal search in the contents of text files, line by line.

use vstd::prelude::*;
use vstd::string::StringExecFns;
use crate::occurrence::{
    lemma_text_file_paths_add, lemma_text_file_paths_one, text_file_paths, views, Occurrence,
    OccurrenceView,
};
use crate::text::{
    chars_of, contains, contains_in, decimal, lemma_first_newline_is, lines, push_chars,
    push_decimal, without_return,
};

verus! {

/// The text that describes a matched line: the file, the number of the line,
/// counted from 1, and the line itself.
pub open spec fn description(path: Seq<char>, number: nat, line: Seq<char>) -> Seq<char> {
    "In file <"@ + path + ">: At line "@ + decimal(number) + ": "@ + line
}

/// What one line contributes to a search: its description where it holds
/// `needle`, and nothing where it does not.
pub open spec fn line_match(
    path: Seq<char>,
    number: nat,
    line: Seq<char>,
    needle: Seq<char>,
) -> Seq<OccurrenceView> {
    if contains(line, needle) {
        seq![OccurrenceView::SearchableText(description(path, number, line))]
    } else {
        Seq::empty()
    }
}

/// What a sequence of lines contributes to a search, the first line being
/// number 1.
pub open spec fn matches_among(
    path: Seq<char>,
    lines: Seq<Seq<char>>,
    needle: Seq<char>,
) -> Seq<OccurrenceView>
    decreases lines.len(),
{
    if lines.len() == 0 {
        Seq::empty()
    } else {
        matches_among(path, lines.drop_last(), needle) + line_match(
            path,
            lines.len(),
            lines.last(),
            needle,
        )
    }
}

/// What the search for `needle` yields in a file at `path` with the contents
/// `text`: one occurrence for each line that holds `needle`, in the order of
/// the lines.
pub open spec fn matches_in(path: Seq<char>, text: Seq<char>, needle: Seq<char>) -> Seq<
    OccurrenceView,
> {
    matches_among(path, lines(text), needle)
}

/// The occurrence that reports line `number` of `lines`.
pub open spec fn reported(path: Seq<char>, lines: Seq<Seq<char>>, number: int) -> OccurrenceView {
    OccurrenceView::SearchableText(description(path, number as nat, lines[number - 1]))
}

proof fn lemma_matches_among(path: Seq<char>, lines: Seq<Seq<char>>, needle: Seq<char>)
    ensures
        forall|k: int|
            0 <= k < matches_among(path, lines, needle).len() ==> exists|number: int|
                1 <= number <= lines.len() && contains(lines[number - 1], needle)
                    && #[trigger] matches_among(path, lines, needle)[k] == #[trigger] reported(
                    path,
                    lines,
                    number,
                ),
        forall|number: int|
            1 <= number <= lines.len() && contains(lines[number - 1], needle) ==> matches_among(
                path,
                lines,
                needle,
            ).contains(#[trigger] reported(path, lines, number)),
    decreases lines.len(),
{
    let found = matches_among(path, lines, needle);
    if lines.len() > 0 {
        let earlier = lines.drop_last();
        let found_earlier = matches_among(path, earlier, needle);
        lemma_matches_among(path, earlier, needle);
        assert forall|k: int| 0 <= k < found.len() implies exists|number: int|
            1 <= number <= lines.len() && contains(lines[number - 1], needle) && #[trigger] found[k]
                == #[trigger] reported(path, lines, number) by {
            if k < found_earlier.len() {
                let number = choose|number: int|
                    1 <= number <= earlier.len() && contains(earlier[number - 1], needle)
                        && found_earlier[k] == #[trigger] reported(path, earlier, number);
                assert(reported(path, lines, number) == reported(path, earlier, number));
                assert(found[k] == reported(path, lines, number));
            } else {
                assert(found[k] == reported(path, lines, lines.len() as int));
            }
        }
        assert forall|number: int|
            1 <= number <= lines.len() && contains(lines[number - 1], needle) implies found.contains(
            #[trigger] reported(path, lines, number),
        ) by {
            if number < lines.len() {
                assert(reported(path, lines, number) == reported(path, earlier, number));
                assert(found_earlier.contains(reported(path, earlier, number)));
                let k = choose|k: int|
                    0 <= k < found_earlier.len() && found_earlier[k] == reported(
                        path,
                        earlier,
                        number,
                    );
                assert(found[k] == reported(path, lines, number));
            } else {
                assert(found[found.len() - 1] == reported(path, lines, number));
            }
        }
    }
}

/// A search reports true matches and omits none: every occurrence that it
/// yields reports a line of the text, by its number, that holds `needle`; and
/// every line of the text that holds `needle` is reported.
pub proof fn lemma_search_correct(path: Seq<char>, text: Seq<char>, needle: Seq<char>)
    ensures
        forall|k: int|
            0 <= k < matches_in(path, text, needle).len() ==> exists|number: int|
                1 <= number <= lines(text).len() && contains(lines(text)[number - 1], needle)
                    && #[trigger] matches_in(path, text, needle)[k] == #[trigger] reported(
                    path,
                    lines(text),
                    number,
                ),
        forall|number: int|
            1 <= number <= lines(text).len() && contains(lines(text)[number - 1], needle)
                ==> matches_in(path, text, needle).contains(
                #[trigger] reported(path, lines(text), number),
            ),
{
    lemma_matches_among(path, lines(text), needle);
}

/// Appends to `text_list` what the line `chars[from..to]`, which has the
/// number `number`, contributes to the search.
fn note_line(
    path: &str,
    number: usize,
    chars: &Vec<char>,
    from: usize,
    to: usize,
    needle: &Vec<char>,
    text_list: &mut Vec<Occurrence>,
)
    requires
        from <= to <= chars.len(),
    ensures
        views(final(text_list)@) == views(old(text_list)@) + line_match(
            path@,
            number as nat,
            chars@.subrange(from as int, to as int),
            needle@,
        ),
{
    if contains_in(chars, from, to, needle) {
        let mut described = String::from_str("In file <");
        described.append(path);
        described.append(">: At line ");
        push_decimal(&mut described, number);
        described.append(": ");
        push_chars(&mut described, chars, from, to);
        let found = Occurrence::SearchableText(described);
        text_list.push(found);
        assert(views(text_list@) == views(old(text_list)@).push(found@));
    }
    assert(views(text_list@) == views(old(text_list)@) + line_match(
        path@,
        number as nat,
        chars@.subrange(from as int, to as int),
        needle@,
    ));
}

/// Searches the contents `text` of the file at `path` for `text_to_find` and
/// appends to `text_list` one occurrence for each line that holds it, in the
/// order of the lines. The search is literal and case-sensitive.
pub fn find_text(path: &str, text: &str, text_to_find: &str, text_list: &mut Vec<Occurrence>)
    ensures
        views(final(text_list)@) == views(old(text_list)@) + matches_in(
            path@,
            text@,
            text_to_find@,
        ),
{
    let chars = chars_of(text);
    let needle = chars_of(text_to_find);
    let n = chars.len();
    let ghost mut done: Seq<Seq<char>> = Seq::empty();
    let mut count: usize = 0;
    let mut start: usize = 0;
    let mut i: usize = 0;
    assert(chars@.skip(0) == chars@);
    while i < n
        invariant
            start <= i <= n,
            n == chars.len(),
            chars@ == text@,
            needle@ == text_to_find@,
            count == done.len(),
            count <= start,
            forall|j: int| start <= j < i ==> chars@[j] != '\n',
            lines(chars@) == done + lines(chars@.skip(start as int)),
            views(text_list@) == views(old(text_list)@) + matches_among(path@, done, needle@),
        decreases n - i,
    {
        if chars[i] == '\n' {
            let end = if i > start && chars[i - 1] == '\r' {
                i - 1
            } else {
                i
            };
            let ghost line = chars@.subrange(start as int, end as int);
            let ghost rest = chars@.skip(start as int);
            let ghost after = lines(chars@.skip(i + 1));
            let ghost before = views(text_list@);
            proof {
                lemma_first_newline_is(rest, i - start);
                assert(rest.take(i - start) == chars@.subrange(start as int, i as int));
                assert(without_return(chars@.subrange(start as int, i as int)) == line);
                assert(rest.skip(i - start + 1) == chars@.skip(i + 1));
                assert(lines(rest) == seq![line] + after);
                assert(done + (seq![line] + after) == done.push(line) + after);
            }
            note_line(path, count + 1, &chars, start, end, &needle, text_list);
            proof {
                assert(done.push(line).drop_last() == done);
                assert(views(old(text_list)@) + matches_among(path@, done, needle@) + line_match(
                    path@,
                    (count + 1) as nat,
                    line,
                    needle@,
                ) == views(old(text_list)@) + matches_among(path@, done.push(line), needle@));
                done = done.push(line);
            }
            count += 1;
            start = i + 1;
        }
        i += 1;
    }
    let ghost rest = chars@.skip(start as int);
    if start < n {
        proof {
            lemma_first_newline_is(rest, n - start);
            assert(rest == chars@.subrange(start as int, n as int));
            assert(lines(rest) == seq![rest]);
            assert(done + seq![rest] == done.push(rest));
            assert(done.push(rest).drop_last() == done);
        }
        note_line(path, count + 1, &chars, start, n, &needle, text_list);
        assert(views(old(text_list)@) + matches_among(path@, done, needle@) + line_match(
            path@,
            (count + 1) as nat,
            rest,
            needle@,
        ) == views(old(text_list)@) + matches_among(path@, done.push(rest), needle@));
    } else {
        assert(lines(rest) == Seq::<Seq<char>>::empty());
        assert(done + Seq::<Seq<char>>::empty() == done);
    }
}

/// The views of the strings of `paths`, in order.
pub open spec fn strings(paths: Seq<String>) -> Seq<Seq<char>> {
    paths.map_values(|p: String| p@)
}

/// The paths of the text files among `file_list`, in order: the files whose
/// contents a search reads.
pub fn text_files(file_list: &Vec<Occurrence>) -> (paths: Vec<String>)
    ensures
        strings(paths@) == text_file_paths(views(file_list@)),
{
    let mut paths: Vec<String> = Vec::new();
    let mut i: usize = 0;
    assert(file_list@.take(0) == Seq::<Occurrence>::empty());
    assert(text_file_paths(Seq::empty()) == Seq::<Seq<char>>::empty());
    while i < file_list.len()
        invariant
            i <= file_list.len(),
            strings(paths@) == text_file_paths(views(file_list@.take(i as int))),
        decreases file_list.len() - i,
    {
        proof {
            let earlier = views(file_list@.take(i as int));
            assert(views(file_list@.take(i + 1)) == earlier + seq![file_list@[i as int]@]);
            lemma_text_file_paths_add(earlier, seq![file_list@[i as int]@]);
            lemma_text_file_paths_one(file_list@[i as int]@);
        }
        let ghost before = paths@;
        if let Occurrence::TextFile(path) = &file_list[i] {
            paths.push(path.clone());
            assert(strings(paths@) == strings(before) + seq![path@]);
        }
        i += 1;
    }
    assert(file_list@.take(file_list.len() as int) == file_list@);
    paths
}

/// What a search yields over the text files at `paths`, where `contents[k]`
/// is what reading `paths[k]` gave: its text, or `None` where it could not be
/// read as text. A file that could not be read, or for which `contents` has
/// no entry, yields nothing.
pub open spec fn searched_paths(
    paths: Seq<Seq<char>>,
    contents: Seq<Option<String>>,
    needle: Seq<char>,
) -> Seq<OccurrenceView>
    decreases paths.len(),
{
    if paths.len() == 0 {
        Seq::empty()
    } else {
        let k = paths.len() - 1;
        searched_paths(paths.drop_last(), contents, needle) + if k < contents.len() {
            match contents[k] {
                Some(text) => matches_in(paths[k], text@, needle),
                None => Seq::empty(),
            }
        } else {
            Seq::empty()
        }
    }
}

/// What a search yields over the text files among `found`.
pub open spec fn searched(
    found: Seq<OccurrenceView>,
    contents: Seq<Option<String>>,
    needle: Seq<char>,
) -> Seq<OccurrenceView> {
    searched_paths(text_file_paths(found), contents, needle)
}

proof fn lemma_kinds_of_matches(path: Seq<char>, lines: Seq<Seq<char>>, needle: Seq<char>)
    ensures
        forall|i: int|
            0 <= i < matches_among(path, lines, needle).len() ==> #[trigger] matches_among(
                path,
                lines,
                needle,
            )[i] is SearchableText,
    decreases lines.len(),
{
    if lines.len() > 0 {
        lemma_kinds_of_matches(path, lines.drop_last(), needle);
    }
}

proof fn lemma_kinds_of_searched(
    paths: Seq<Seq<char>>,
    contents: Seq<Option<String>>,
    needle: Seq<char>,
)
    ensures
        forall|i: int|
            0 <= i < searched_paths(paths, contents, needle).len() ==> #[trigger] searched_paths(
                paths,
                contents,
                needle,
            )[i] is SearchableText,
    decreases paths.len(),
{
    if paths.len() > 0 {
        lemma_kinds_of_searched(paths.drop_last(), contents, needle);
        let k = paths.len() - 1;
        if k < contents.len() {
            if let Some(text) = contents[k] {
                lemma_kinds_of_matches(paths[k], lines(text@), needle);
            }
        }
    }
}

/// A search yields matched lines and nothing else, and it yields them for
/// text files only: without a text file among `found` it yields nothing.
pub proof fn lemma_search_kinds(
    found: Seq<OccurrenceView>,
    contents: Seq<Option<String>>,
    needle: Seq<char>,
)
    ensures
        forall|i: int|
            0 <= i < searched(found, contents, needle).len() ==> #[trigger] searched(
                found,
                contents,
                needle,
            )[i] is SearchableText,
        text_file_paths(found).len() == 0 ==> searched(found, contents, needle).len() == 0,
{
    lemma_kinds_of_searched(text_file_paths(found), contents, needle);
}

/// Searches the text files among `file_list` for `text_to_find`.
/// `contents[k]` is what reading the text file number `k` of `file_list`
/// gave, in the order of [`text_files`]: its text, or `None` where it could
/// not be read as text. The result holds, file after file, one occurrence for
/// each line that holds `text_to_find`; a file that was not read yields
/// nothing and does not stop the search.
pub fn search(file_list: &Vec<Occurrence>, contents: &Vec<Option<String>>, text_to_find: &str) -> (
    text_list: Vec<Occurrence>
)
    ensures
        views(text_list@) == searched(views(file_list@), contents@, text_to_find@),
{
    let mut text_list: Vec<Occurrence> = Vec::new();
    let mut k: usize = 0;
    let mut i: usize = 0;
    assert(file_list@.take(0) == Seq::<Occurrence>::empty());
    assert(text_file_paths(Seq::empty()) == Seq::<Seq<char>>::empty());
    assert(views(text_list@) == Seq::<OccurrenceView>::empty());
    while i < file_list.len()
        invariant
            i <= file_list.len(),
            k == text_file_paths(views(file_list@.take(i as int))).len(),
            k <= i,
            views(text_list@) == searched(
                views(file_list@.take(i as int)),
                contents@,
                text_to_find@,
            ),
        decreases file_list.len() - i,
    {
        let ghost earlier = views(file_list@.take(i as int));
        let ghost paths = text_file_paths(earlier);
        proof {
            assert(views(file_list@.take(i + 1)) == earlier + seq![file_list@[i as int]@]);
            lemma_text_file_paths_add(earlier, seq![file_list@[i as int]@]);
            lemma_text_file_paths_one(file_list@[i as int]@);
        }
        if let Occurrence::TextFile(path) = &file_list[i] {
            proof {
                assert(text_file_paths(views(file_list@.take(i + 1))) == paths.push(path@));
                assert(paths.push(path@).drop_last() == paths);
            }
            if k < contents.len() {
                if let Some(text) = &contents[k] {
                    find_text(path.as_str(), text.as_str(), text_to_find, &mut text_list);
                }
            }
            k += 1;
        }
        i += 1;
    }
    assert(file_list@.take(file_list.len() as int) == file_list@);
    text_list
}

} // verus!
