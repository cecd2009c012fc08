use file_finder::text::{chars_of, push_decimal};

fn numeral(n: usize) -> String {
    let mut out = String::new();
    push_decimal(&mut out, n);
    out
}

#[test]
fn chars_of_a_string() {
    assert_eq!(chars_of(""), Vec::<char>::new());
    assert_eq!(chars_of("abc"), vec!['a', 'b', 'c']);
    assert_eq!(chars_of("é日\n"), vec!['é', '日', '\n']);
}

#[test]
fn decimal_numerals() {
    assert_eq!(numeral(0), "0");
    assert_eq!(numeral(7), "7");
    assert_eq!(numeral(9), "9");
    assert_eq!(numeral(10), "10");
    assert_eq!(numeral(42), "42");
    assert_eq!(numeral(100), "100");
    assert_eq!(numeral(1234567890), "1234567890");
    assert_eq!(numeral(usize::MAX), usize::MAX.to_string());
}

#[test]
fn decimal_is_appended() {
    let mut out = "line ".to_string();
    push_decimal(&mut out, 305);
    assert_eq!(out, "line 305");
}
