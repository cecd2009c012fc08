use file_finder::occurrence::Occurrence;
use file_finder::printer::{ConsolePrinter, FileOutcome, FilePrinter, Printer};
use file_finder::searcher::text_files;
use file_finder::snapshot::Entry;
use file_finder::traverser::DirSearcher;

/// `/r/a.txt` holds "foo\nbar" and `/r/sub/b.txt` holds "foo". The listing
/// of `/r` gives the directory first.
fn tree_r() -> Entry {
    Entry::Directory {
        path: "/r".to_string(),
        listing: Some(vec![
            Entry::Directory {
                path: "/r/sub".to_string(),
                listing: Some(vec![Entry::File {
                    path: "/r/sub/b.txt".to_string(),
                    name: "b.txt".to_string(),
                }]),
            },
            Entry::File { path: "/r/a.txt".to_string(), name: "a.txt".to_string() },
        ]),
    }
}

fn read_r(path: &str) -> Option<String> {
    match path {
        "/r/a.txt" => Some("foo\nbar".to_string()),
        "/r/sub/b.txt" => Some("foo".to_string()),
        _ => None,
    }
}

fn run_on<P: Printer>(root: &Entry, find: &str, in_file: Option<&str>, sort: bool, printer: &P) -> Vec<String> {
    let mut found = Vec::new();
    DirSearcher.find_file(root, find, &mut found);
    let contents: Vec<Option<String>> = match in_file {
        Some(_) => text_files(&found).iter().map(|p| read_r(p)).collect(),
        None => Vec::new(),
    };
    DirSearcher.display_files(sort, in_file.is_some(), &mut found, in_file.unwrap_or(""), &contents, printer)
}

#[test]
fn scenario_plain_run_lists_each_entry_once() {
    let lines = run_on(&tree_r(), "", None, false, &ConsolePrinter);
    assert_eq!(lines.len(), 3);
    for expected in ["/r/a.txt\n", "/r/sub\n", "/r/sub/b.txt\n"] {
        assert_eq!(lines.iter().filter(|l| l.as_str() == expected).count(), 1);
    }
}

#[test]
fn scenario_sorted_run_is_ascending() {
    let lines = run_on(&tree_r(), "", None, true, &ConsolePrinter);
    assert_eq!(lines, vec!["/r/a.txt\n", "/r/sub\n", "/r/sub/b.txt\n"]);
}

#[test]
fn scenario_search_reports_matching_lines() {
    let lines = run_on(&tree_r(), "", Some("foo"), false, &ConsolePrinter);
    assert_eq!(lines.len(), 2);
    assert!(lines.contains(&"In file </r/a.txt>: At line 1: foo\n".to_string()));
    assert!(lines.contains(&"In file </r/sub/b.txt>: At line 1: foo\n".to_string()));
    assert!(!lines.iter().any(|l| l.contains("bar")));
}

#[test]
fn scenario_find_by_name() {
    let mut found = Vec::new();
    DirSearcher.find_file(&tree_r(), "a.txt", &mut found);
    assert_eq!(found.len(), 2);
    assert!(found.contains(&Occurrence::Directory("/r/sub".to_string())));
    assert!(found.contains(&Occurrence::TextFile("/r/a.txt".to_string())));
    assert!(!found.iter().any(|o| o.file_name().ends_with("b.txt")));
}

#[test]
fn scenario_sorted_run_to_a_file() {
    let printer = FilePrinter { output_file: "out.txt".to_string() };
    let lines = run_on(&tree_r(), "", None, true, &printer);
    assert_eq!(lines.concat(), "/r/a.txt\n/r/sub\n/r/sub/b.txt\n");
    assert_eq!(printer.report(FileOutcome::Written), "Output written to 'out.txt'");
}

#[test]
fn scenario_missing_root_yields_nothing() {
    let missing = Entry::Directory { path: "/nowhere".to_string(), listing: None };
    assert_eq!(run_on(&missing, "", None, false, &ConsolePrinter), Vec::<String>::new());
    assert_eq!(run_on(&missing, "x", Some("foo"), true, &ConsolePrinter), Vec::<String>::new());
}

#[test]
fn scenario_find_and_search_together() {
    let lines = run_on(&tree_r(), "b.txt", Some("foo"), true, &ConsolePrinter);
    assert_eq!(lines, vec!["In file </r/sub/b.txt>: At line 1: foo\n"]);
}

#[test]
fn scenario_runs_are_repeatable() {
    for sort in [false, true] {
        for in_file in [None, Some("foo"), Some("")] {
            for find in ["", "a.txt"] {
                assert_eq!(
                    run_on(&tree_r(), find, in_file, sort, &ConsolePrinter),
                    run_on(&tree_r(), find, in_file, sort, &ConsolePrinter)
                );
            }
        }
    }
}
