use file_finder::occurrence::Occurrence;
use file_finder::searcher::{find_text, search, text_files};

fn matches_in(path: &str, text: &str, needle: &str) -> Vec<Occurrence> {
    let mut found = Vec::new();
    find_text(path, text, needle, &mut found);
    found
}

fn texts_of(found: &Vec<Occurrence>) -> Vec<String> {
    found.iter().map(|o| o.file_name().to_string()).collect()
}

#[test]
fn find_text_reports_the_matching_line_only() {
    assert_eq!(
        matches_in("/r/a.txt", "foo\nbar", "foo"),
        vec![Occurrence::SearchableText("In file </r/a.txt>: At line 1: foo".to_string())]
    );
}

#[test]
fn find_text_numbers_lines_from_one() {
    assert_eq!(
        texts_of(&matches_in("f", "x\nab\n\nabab\nb", "ab")),
        vec!["In file <f>: At line 2: ab", "In file <f>: At line 4: abab"]
    );
}

#[test]
fn find_text_finds_nothing() {
    assert_eq!(matches_in("f", "alpha\nbeta\n", "gamma"), Vec::<Occurrence>::new());
    assert_eq!(matches_in("f", "", "x"), Vec::<Occurrence>::new());
    assert_eq!(matches_in("f", "", ""), Vec::<Occurrence>::new());
}

#[test]
fn find_text_is_case_sensitive_and_literal() {
    assert_eq!(matches_in("f", "Foo\nfOO\n", "foo"), Vec::<Occurrence>::new());
    assert_eq!(texts_of(&matches_in("f", "a.c\nabc\n", "a.c")), vec!["In file <f>: At line 1: a.c"]);
    assert_eq!(texts_of(&matches_in("f", "a*\naaa\n", "a*")), vec!["In file <f>: At line 1: a*"]);
}

#[test]
fn find_text_does_not_match_across_lines() {
    assert_eq!(matches_in("f", "ab\ncd", "b\nc"), Vec::<Occurrence>::new());
    assert_eq!(matches_in("f", "ab\ncd", "bc"), Vec::<Occurrence>::new());
}

#[test]
fn find_text_with_the_empty_needle_reports_every_line() {
    assert_eq!(
        texts_of(&matches_in("f", "a\n\nb", "")),
        vec!["In file <f>: At line 1: a", "In file <f>: At line 2: ", "In file <f>: At line 3: b"]
    );
}

#[test]
fn find_text_leaves_out_the_line_ending() {
    assert_eq!(
        texts_of(&matches_in("f", "one\r\ntwo\r\n", "o")),
        vec!["In file <f>: At line 1: one", "In file <f>: At line 2: two"]
    );
    assert_eq!(matches_in("f", "one\r\ntwo\r\n", "\r"), Vec::<Occurrence>::new());
    assert_eq!(texts_of(&matches_in("f", "a\r\r\nb", "a")), vec!["In file <f>: At line 1: a\r"]);
}

#[test]
fn find_text_keeps_a_return_without_line_feed() {
    assert_eq!(texts_of(&matches_in("f", "a\rb\n", "b")), vec!["In file <f>: At line 1: a\rb"]);
    assert_eq!(texts_of(&matches_in("f", "a\nb\r", "b")), vec!["In file <f>: At line 2: b\r"]);
}

#[test]
fn find_text_last_line_needs_no_line_feed() {
    assert_eq!(matches_in("f", "a\nb", "b"), matches_in("f", "a\nb\n", "b"));
    assert_eq!(texts_of(&matches_in("f", "\n\n", "")).len(), 2);
    assert_eq!(texts_of(&matches_in("f", "\n", "")), vec!["In file <f>: At line 1: "]);
}

#[test]
fn find_text_line_numbers_with_several_digits() {
    let mut text = String::new();
    for i in 1..=120 {
        if i == 10 || i == 99 || i == 100 || i == 120 {
            text.push_str("hit\n");
        } else {
            text.push_str("miss\n");
        }
    }
    assert_eq!(
        texts_of(&matches_in("big", &text, "hit")),
        vec![
            "In file <big>: At line 10: hit",
            "In file <big>: At line 99: hit",
            "In file <big>: At line 100: hit",
            "In file <big>: At line 120: hit",
        ]
    );
}

#[test]
fn find_text_agrees_with_the_standard_library() {
    let texts = ["", "\n", "a", "a\n", "a\r\n", "a\r", "\r\n\r\n", "x\ny\r\nz", "ab\n\nab\r\r\n\rab", "é\nab é\n"];
    let needles = ["", "a", "ab", "é", "\r", "b é"];
    for text in texts {
        for needle in needles {
            let mut expected = Vec::new();
            for (i, line) in text.lines().enumerate() {
                if line.contains(needle) {
                    expected.push(Occurrence::SearchableText(format!(
                        "In file <{}>: At line {}: {}",
                        "p", i + 1, line
                    )));
                }
            }
            assert_eq!(matches_in("p", text, needle), expected);
        }
    }
}

#[test]
fn find_text_needle_at_the_edges_of_a_line() {
    assert_eq!(texts_of(&matches_in("f", "abc", "abc")), vec!["In file <f>: At line 1: abc"]);
    assert_eq!(texts_of(&matches_in("f", "abc", "c")), vec!["In file <f>: At line 1: abc"]);
    assert_eq!(texts_of(&matches_in("f", "abc", "a")), vec!["In file <f>: At line 1: abc"]);
    assert_eq!(matches_in("f", "abc", "abcd"), Vec::<Occurrence>::new());
    assert_eq!(texts_of(&matches_in("f", "aab", "ab")), vec!["In file <f>: At line 1: aab"]);
}

#[test]
fn find_text_appends_to_what_the_list_holds() {
    let mut found = vec![Occurrence::SearchableText("earlier".to_string())];
    find_text("f", "x", "x", &mut found);
    assert_eq!(texts_of(&found), vec!["earlier", "In file <f>: At line 1: x"]);
}

#[test]
fn text_files_are_picked_in_order() {
    let list = vec![
        Occurrence::TextFile("/r/a.txt".to_string()),
        Occurrence::Directory("/r/sub.txt".to_string()),
        Occurrence::File("/r/b.bin".to_string()),
        Occurrence::SearchableText("/r/c.txt".to_string()),
        Occurrence::TextFile("/r/sub.txt/d.rs".to_string()),
    ];
    assert_eq!(text_files(&list), vec!["/r/a.txt".to_string(), "/r/sub.txt/d.rs".to_string()]);
    assert_eq!(text_files(&Vec::new()), Vec::<String>::new());
}

#[test]
fn search_reads_text_files_only() {
    let list = vec![
        Occurrence::TextFile("/r/a.txt".to_string()),
        Occurrence::Directory("/r/sub".to_string()),
        Occurrence::File("/r/sub/c.bin".to_string()),
        Occurrence::TextFile("/r/sub/b.txt".to_string()),
    ];
    let contents = vec![Some("foo\nbar".to_string()), Some("foo".to_string())];
    assert_eq!(
        search(&list, &contents, "foo"),
        vec![
            Occurrence::SearchableText("In file </r/a.txt>: At line 1: foo".to_string()),
            Occurrence::SearchableText("In file </r/sub/b.txt>: At line 1: foo".to_string()),
        ]
    );
}

#[test]
fn search_skips_a_file_that_was_not_read() {
    let list = vec![
        Occurrence::TextFile("one".to_string()),
        Occurrence::TextFile("two".to_string()),
        Occurrence::TextFile("three".to_string()),
    ];
    let contents = vec![Some("x".to_string()), None, Some("y\nx".to_string())];
    assert_eq!(
        texts_of(&search(&list, &contents, "x")),
        vec!["In file <one>: At line 1: x", "In file <three>: At line 2: x"]
    );
    let short = vec![Some("x".to_string())];
    assert_eq!(texts_of(&search(&list, &short, "x")), vec!["In file <one>: At line 1: x"]);
    assert_eq!(search(&list, &Vec::new(), "x"), Vec::<Occurrence>::new());
}

#[test]
fn find_text_containment_agrees_with_the_standard_library() {
    let lines = ["", "a", "ab", "aab", "abab", "é日本", "xyz", "aaa", "ababac", "hello world"];
    let needles = ["", "a", "b", "ab", "ba", "aa", "日", "本é", "abab", "ababa", "abac", "o w", "hello world!"];
    for line in lines {
        for needle in needles {
            let found = matches_in("p", line, needle);
            let expected = if !line.is_empty() && line.contains(needle) { 1 } else { 0 };
            assert_eq!(found.len(), expected);
        }
    }
}

#[test]
fn find_text_copies_the_line_as_it_is() {
    assert_eq!(
        texts_of(&matches_in("dir/ü.txt", "  tab\there é日本  \nnext", "é")),
        vec!["In file <dir/ü.txt>: At line 1:   tab\there é日本  "]
    );
}
