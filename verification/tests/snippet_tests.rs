use cnf_infinity::find_snippet_line;

fn find(file: &str, code: &str) -> Option<usize> {
    find_snippet_line(&file.as_bytes().to_vec(), &code.as_bytes().to_vec())
}

#[test]
fn finds_a_single_line_snippet() {
    assert_eq!(find("fn a() {}\nfn b() {}\nfn c() {}\n", "fn b() {}"), Some(2));
}

#[test]
fn finds_a_multi_line_snippet_at_its_first_occurrence() {
    let file = "one\ntwo\nthree\ntwo\nthree\n";
    assert_eq!(find(file, "two\nthree"), Some(2));
}

#[test]
fn normalizes_carriage_returns_on_both_sides() {
    assert_eq!(find("alpha\r\nbeta\r\ngamma\r\n", "beta\ngamma"), Some(2));
    assert_eq!(find("alpha\nbeta\n", "beta\r\n"), Some(2));
}

#[test]
fn ignores_trailing_whitespace() {
    assert_eq!(find("first\nsecond   \n", "second"), Some(2));
    assert_eq!(find("first\nsecond\n", "second  \n\n"), Some(2));
}

#[test]
fn missing_snippet_yields_nothing() {
    assert_eq!(find("only this\n", "something else"), None);
}

#[test]
fn empty_snippet_is_never_found() {
    assert_eq!(find("some\nlines\n", ""), None);
    assert_eq!(find("some\nlines\n", "   \n"), None);
}

#[test]
fn snippet_longer_than_the_file_is_not_found() {
    assert_eq!(find("short\n", "longer\nthan\nthe\nfile"), None);
}

#[test]
fn partial_line_matches_are_rejected() {
    assert_eq!(find("prefix middle suffix\n", "middle"), None);
}
