use file_finder::occurrence::Occurrence;
use file_finder::printer::{ConsolePrinter, FileOutcome, FilePrinter, FileProgress, FileStep, Printer};
use file_finder::traverser::DirSearcher;

fn walked() -> Vec<Occurrence> {
    vec![
        Occurrence::TextFile("/r/sub/b.txt".to_string()),
        Occurrence::Directory("/r/sub".to_string()),
        Occurrence::TextFile("/r/a.txt".to_string()),
    ]
}

fn read_contents() -> Vec<Option<String>> {
    vec![Some("foo".to_string()), Some("foo\nbar".to_string())]
}

fn to_file() -> FilePrinter {
    FilePrinter { output_file: "out.txt".to_string() }
}

#[test]
fn console_prints_one_line_for_each_occurrence() {
    let lines = ConsolePrinter.print(&vec![
        Occurrence::File("/r/x".to_string()),
        Occurrence::Directory("/r/d".to_string()),
        Occurrence::TextFile("/r/a.rs".to_string()),
        Occurrence::SearchableText("In file </r/a.rs>: At line 3: fn main".to_string()),
    ]);
    assert_eq!(lines, vec!["/r/x\n", "/r/d\n", "/r/a.rs\n", "In file </r/a.rs>: At line 3: fn main\n"]);
}

#[test]
fn printers_print_nothing_for_nothing() {
    assert_eq!(ConsolePrinter.print(&Vec::new()), Vec::<String>::new());
    assert_eq!(to_file().print(&Vec::new()), Vec::<String>::new());
}

#[test]
fn file_printer_writes_what_the_console_shows() {
    let list = walked();
    assert_eq!(to_file().print(&list), ConsolePrinter.print(&list));
    assert_eq!(to_file().print(&list), vec!["/r/sub/b.txt\n", "/r/sub\n", "/r/a.txt\n"]);
}

#[test]
fn file_printer_reports_how_it_ended() {
    assert_eq!(to_file().report(FileOutcome::Written), "Output written to 'out.txt'");
    assert_eq!(to_file().report(FileOutcome::OpenFailed), "Failed to open 'out.txt'");
    assert_eq!(to_file().report(FileOutcome::WriteFailed), "Failed to write into 'out.txt'");
    let other = FilePrinter { output_file: "/tmp/a b.log".to_string() };
    assert_eq!(other.report(FileOutcome::Written), "Output written to '/tmp/a b.log'");
}

#[test]
fn display_without_stages_shows_the_walk() {
    let mut list = walked();
    let lines = DirSearcher.display_files(false, false, &mut list, "", &Vec::new(), &ConsolePrinter);
    assert_eq!(lines, vec!["/r/sub/b.txt\n", "/r/sub\n", "/r/a.txt\n"]);
    assert_eq!(list, walked());
}

#[test]
fn display_sorted_shows_the_walk_in_order() {
    let mut list = walked();
    let lines = DirSearcher.display_files(true, false, &mut list, "", &Vec::new(), &ConsolePrinter);
    assert_eq!(lines, vec!["/r/a.txt\n", "/r/sub\n", "/r/sub/b.txt\n"]);
    assert_eq!(
        list,
        vec![
            Occurrence::TextFile("/r/a.txt".to_string()),
            Occurrence::Directory("/r/sub".to_string()),
            Occurrence::TextFile("/r/sub/b.txt".to_string()),
        ]
    );
}

#[test]
fn display_searched_shows_the_matches_in_place_of_the_walk() {
    let mut list = walked();
    let lines = DirSearcher.display_files(false, true, &mut list, "foo", &read_contents(), &ConsolePrinter);
    assert_eq!(
        lines,
        vec!["In file </r/sub/b.txt>: At line 1: foo\n", "In file </r/a.txt>: At line 1: foo\n"]
    );
    assert_eq!(list, walked());
}

#[test]
fn display_searched_and_sorted_shows_the_matches_in_order() {
    let mut list = walked();
    let lines = DirSearcher.display_files(true, true, &mut list, "foo", &read_contents(), &to_file());
    assert_eq!(
        lines,
        vec!["In file </r/a.txt>: At line 1: foo\n", "In file </r/sub/b.txt>: At line 1: foo\n"]
    );
    assert_eq!(list, walked());
}

#[test]
fn display_ignores_the_contents_without_a_search() {
    let mut list = walked();
    let lines = DirSearcher.display_files(false, false, &mut list, "foo", &read_contents(), &ConsolePrinter);
    assert_eq!(lines, vec!["/r/sub/b.txt\n", "/r/sub\n", "/r/a.txt\n"]);
}

#[test]
fn display_search_without_matches_shows_nothing() {
    let mut list = walked();
    let lines = DirSearcher.display_files(true, true, &mut list, "absent", &read_contents(), &ConsolePrinter);
    assert_eq!(lines, Vec::<String>::new());
}

#[test]
fn display_is_the_same_through_either_sink() {
    for do_sort in [false, true] {
        for do_search in [false, true] {
            let mut first = walked();
            let mut second = walked();
            let shown = DirSearcher.display_files(do_sort, do_search, &mut first, "foo", &read_contents(), &ConsolePrinter);
            let written = DirSearcher.display_files(do_sort, do_search, &mut second, "foo", &read_contents(), &to_file());
            assert_eq!(shown, written);
            assert_eq!(first, second);
        }
    }
}

#[test]
fn display_twice_gives_the_same() {
    for do_sort in [false, true] {
        for do_search in [false, true] {
            let mut first = walked();
            let mut second = walked();
            let one = DirSearcher.display_files(do_sort, do_search, &mut first, "o", &read_contents(), &ConsolePrinter);
            let two = DirSearcher.display_files(do_sort, do_search, &mut second, "o", &read_contents(), &ConsolePrinter);
            assert_eq!(one, two);
        }
    }
}

#[test]
fn file_steps_open_first() {
    assert_eq!(to_file().next_step(3, FileProgress::NotOpened, false), FileStep::Open);
    assert_eq!(to_file().next_step(0, FileProgress::NotOpened, false), FileStep::Open);
}

#[test]
fn file_steps_write_each_line_in_turn_and_confirm() {
    let opened = |written| FileProgress::Opened { written };
    assert_eq!(to_file().next_step(3, opened(0), false), FileStep::Write(0));
    assert_eq!(to_file().next_step(3, opened(1), false), FileStep::Write(1));
    assert_eq!(to_file().next_step(3, opened(2), false), FileStep::Write(2));
    assert_eq!(to_file().next_step(3, opened(3), false), FileStep::Report(FileOutcome::Written));
    assert_eq!(to_file().next_step(0, opened(0), false), FileStep::Report(FileOutcome::Written));
}

#[test]
fn file_steps_stop_at_a_failure() {
    assert_eq!(
        to_file().next_step(3, FileProgress::NotOpened, true),
        FileStep::Report(FileOutcome::OpenFailed)
    );
    assert_eq!(
        to_file().next_step(3, FileProgress::Opened { written: 0 }, true),
        FileStep::Report(FileOutcome::WriteFailed)
    );
    assert_eq!(
        to_file().next_step(3, FileProgress::Opened { written: 2 }, true),
        FileStep::Report(FileOutcome::WriteFailed)
    );
}

#[test]
fn file_steps_of_a_whole_run() {
    let printer = to_file();
    let lines = printer.print(&walked());
    let mut written = Vec::new();
    let mut progress = FileProgress::NotOpened;
    let mut asked = 0;
    let outcome = loop {
        asked += 1;
        assert!(asked < 10);
        match printer.next_step(lines.len(), progress, false) {
            FileStep::Open => progress = FileProgress::Opened { written: 0 },
            FileStep::Write(i) => {
                written.push(lines[i].clone());
                progress = FileProgress::Opened { written: i + 1 };
            }
            FileStep::Report(outcome) => break outcome,
        }
    };
    assert_eq!(outcome, FileOutcome::Written);
    assert_eq!(written, ConsolePrinter.print(&walked()));
}

#[test]
fn file_steps_of_a_run_that_fails_at_the_second_line() {
    let printer = to_file();
    let lines = printer.print(&walked());
    let mut written = Vec::new();
    let mut progress = FileProgress::NotOpened;
    let mut failed = false;
    let mut asked = 0;
    let outcome = loop {
        asked += 1;
        assert!(asked < 10);
        match printer.next_step(lines.len(), progress, failed) {
            FileStep::Open => progress = FileProgress::Opened { written: 0 },
            FileStep::Write(1) => failed = true,
            FileStep::Write(i) => {
                written.push(lines[i].clone());
                progress = FileProgress::Opened { written: i + 1 };
            }
            FileStep::Report(outcome) => break outcome,
        }
    };
    assert_eq!(outcome, FileOutcome::WriteFailed);
    assert_eq!(written, vec!["/r/sub/b.txt\n"]);
}
