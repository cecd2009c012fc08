use file_finder::occurrence::Occurrence;
use file_finder::sorter::bubble_sort;
use file_finder::text::{str_eq, str_le};

fn file(path: &str) -> Occurrence {
    Occurrence::File(path.to_string())
}

fn sorted_copy(list: Vec<Occurrence>) -> Vec<Occurrence> {
    let mut list = list;
    bubble_sort(&mut list);
    list
}

#[test]
fn sort_orders_paths_ascending() {
    let sorted = sorted_copy(vec![
        Occurrence::TextFile("/r/sub/b.txt".to_string()),
        Occurrence::Directory("/r/sub".to_string()),
        Occurrence::TextFile("/r/a.txt".to_string()),
    ]);
    assert_eq!(
        sorted,
        vec![
            Occurrence::TextFile("/r/a.txt".to_string()),
            Occurrence::Directory("/r/sub".to_string()),
            Occurrence::TextFile("/r/sub/b.txt".to_string()),
        ]
    );
}

#[test]
fn sort_of_nothing_and_of_one() {
    assert_eq!(sorted_copy(Vec::new()), Vec::<Occurrence>::new());
    assert_eq!(sorted_copy(vec![file("x")]), vec![file("x")]);
}

#[test]
fn sort_is_stable() {
    let sorted = sorted_copy(vec![
        Occurrence::TextFile("b".to_string()),
        Occurrence::File("a".to_string()),
        Occurrence::Directory("b".to_string()),
        Occurrence::Directory("a".to_string()),
        Occurrence::File("b".to_string()),
        Occurrence::SearchableText("a".to_string()),
    ]);
    assert_eq!(
        sorted,
        vec![
            Occurrence::File("a".to_string()),
            Occurrence::Directory("a".to_string()),
            Occurrence::SearchableText("a".to_string()),
            Occurrence::TextFile("b".to_string()),
            Occurrence::Directory("b".to_string()),
            Occurrence::File("b".to_string()),
        ]
    );
}

#[test]
fn sort_compares_by_code_point() {
    let sorted = sorted_copy(vec![file("b"), file("a"), file("B"), file("é"), file("ab"), file(""), file("a"), file("Z")]);
    assert_eq!(
        sorted,
        vec![file(""), file("B"), file("Z"), file("a"), file("a"), file("ab"), file("b"), file("é")]
    );
}

#[test]
fn sort_keeps_every_occurrence() {
    let list = vec![file("d"), file("c"), file("d"), file("a"), file("c"), file("b")];
    let sorted = sorted_copy(list);
    assert_eq!(sorted, vec![file("a"), file("b"), file("c"), file("c"), file("d"), file("d")]);
}

#[test]
fn sort_of_a_reversed_list() {
    let names = ["9", "8", "7", "6", "5", "4", "3", "2", "1", "0"];
    let sorted = sorted_copy(names.iter().map(|n| file(n)).collect());
    let mut expected: Vec<&str> = names.to_vec();
    expected.sort();
    assert_eq!(sorted, expected.iter().map(|n| file(n)).collect::<Vec<_>>());
}

#[test]
fn sort_agrees_with_the_standard_stable_sort() {
    let keys = ["m", "a/b", "a", "z", "a-b", "m", "A", "a/b", "", "ü", "zz", "a b", "m"];
    let list: Vec<Occurrence> = keys
        .iter()
        .enumerate()
        .map(|(i, k)| match i % 4 {
            0 => Occurrence::File(k.to_string()),
            1 => Occurrence::Directory(k.to_string()),
            2 => Occurrence::TextFile(k.to_string()),
            _ => Occurrence::SearchableText(k.to_string()),
        })
        .collect();
    let mut expected: Vec<Occurrence> = keys
        .iter()
        .enumerate()
        .map(|(i, k)| match i % 4 {
            0 => Occurrence::File(k.to_string()),
            1 => Occurrence::Directory(k.to_string()),
            2 => Occurrence::TextFile(k.to_string()),
            _ => Occurrence::SearchableText(k.to_string()),
        })
        .collect();
    expected.sort_by(|a, b| a.file_name().cmp(b.file_name()));
    assert_eq!(sorted_copy(list), expected);
}

#[test]
fn sort_twice_changes_nothing_more() {
    let once = sorted_copy(vec![file("c"), file("a"), file("b")]);
    let twice = sorted_copy(sorted_copy(vec![file("c"), file("a"), file("b")]));
    assert_eq!(once, twice);
}

#[test]
fn order_of_strings() {
    assert!(str_le("", ""));
    assert!(str_le("", "a"));
    assert!(!str_le("a", ""));
    assert!(str_le("a", "a"));
    assert!(str_le("a", "ab"));
    assert!(!str_le("ab", "a"));
    assert!(str_le("ab", "b"));
    assert!(str_le("Z", "a"));
    assert!(!str_le("a", "Z"));
    assert!(str_le("z", "é"));
    assert!(str_le("/r/sub", "/r/sub/b.txt"));
    assert!(str_le("/r/a.txt", "/r/sub"));
}

#[test]
fn order_of_strings_agrees_with_the_standard_library() {
    let samples = ["", "a", "ab", "b", "B", "é", "e", "日本", "z", "a\u{10FFFF}", "a\u{0}", "\u{D7FF}", "\u{E000}"];
    for a in samples {
        for b in samples {
            assert_eq!(str_le(a, b), a <= b);
            assert_eq!(str_eq(a, b), a == b);
        }
    }
}

#[test]
fn equality_of_strings() {
    assert!(str_eq("", ""));
    assert!(str_eq("abc", "abc"));
    assert!(!str_eq("abc", "abd"));
    assert!(!str_eq("abc", "ab"));
    assert!(!str_eq("ab", "abc"));
    assert!(!str_eq("a", "A"));
}

#[test]
fn file_name_is_the_payload() {
    assert_eq!(Occurrence::File("/r/x".to_string()).file_name(), "/r/x");
    assert_eq!(Occurrence::Directory("/r".to_string()).file_name(), "/r");
    assert_eq!(Occurrence::TextFile("/r/a.rs".to_string()).file_name(), "/r/a.rs");
    assert_eq!(Occurrence::SearchableText("In file <f>: At line 1: x".to_string()).file_name(), "In file <f>: At line 1: x");
}
