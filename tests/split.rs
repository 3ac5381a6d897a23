use strsplit::{StrSplit, StrSplit2};

#[test]
fn iterator_works() {
    let test_content = "a b c d e f";
    let letters = StrSplit2::new(Some(&test_content), Some(" "));

    assert!(letters.into_vec() == vec!["a", "b", "c", "d", "e", "f"]);
}

#[test]
fn empty_value_is_ok() {
    let test_content = "";
    let mut letters = StrSplit2::new(Some(&test_content), Some(" "));

    assert_eq!(letters.next(), None);
}

#[test]
fn empty_content_is_ok() {
    let mut letters = StrSplit2::new(None, Some(" "));

    assert_eq!(letters.next(), None);
}

#[test]
fn empty_delimiter_is_ok() {
    let test_content = "a b c";
    let mut letters = StrSplit2::new(Some(&test_content), None);

    assert_eq!(letters.next(), Some("a b c"));
}

#[test]
fn end_with_delimiter() {
    let test_content = "a b c ";
    let mut letters = StrSplit2::new(Some(&test_content), Some(" "));

    assert_eq!(letters.next(), Some("a"));
    assert_eq!(letters.next(), Some("b"));
    assert_eq!(letters.next(), Some("c"));
    assert_eq!(letters.next(), None);
}

#[test]
fn strict_splits_on_spaces() {
    let s = StrSplit::new("a b c d e f", " ");
    assert_eq!(s.into_vec(), vec!["a", "b", "c", "d", "e", "f"]);
}

#[test]
fn strict_empty_input_yields_nothing() {
    let mut s = StrSplit::new("", " ");
    assert_eq!(s.next(), None);
    assert_eq!(s.next(), None);
}

#[test]
fn strict_trailing_delimiter_gives_no_empty_piece() {
    assert_eq!(StrSplit::new("a b c ", " ").into_vec(), vec!["a", "b", "c"]);
}

#[test]
fn strict_absent_delimiter_yields_whole_input() {
    let mut s = StrSplit::new("xxx", "y");
    assert_eq!(s.next(), Some("xxx"));
    assert_eq!(s.next(), None);
    assert_eq!(s.next(), None);
}

#[test]
fn optional_absent_delimiter_in_content_yields_whole_input() {
    let mut s = StrSplit2::new(Some("xxx"), Some("y"));
    assert_eq!(s.next(), Some("xxx"));
    assert_eq!(s.next(), None);
    assert_eq!(s.next(), None);
}

#[test]
fn optional_without_delimiter_yields_input_once() {
    let mut s = StrSplit2::new(Some("a b c"), None);
    assert_eq!(s.next(), Some("a b c"));
    assert_eq!(s.next(), None);
    assert_eq!(s.next(), None);
}

#[test]
fn optional_without_delimiter_yields_empty_input_once() {
    assert_eq!(StrSplit2::new(Some(""), None).into_vec(), vec![""]);
}

#[test]
fn optional_without_input_yields_nothing_without_delimiter_either() {
    let s = StrSplit2::new(None, None);
    assert!(s.into_vec().is_empty());
}

#[test]
fn optional_empty_delimiter_yields_nothing() {
    let mut s = StrSplit2::new(Some("abc"), Some(""));
    assert_eq!(s.next(), None);
    assert_eq!(s.next(), None);
}

#[test]
fn strict_empty_delimiter_yields_one_empty_piece_per_character() {
    assert_eq!(StrSplit::new("abc", "").into_vec(), vec!["", "", ""]);
}

#[test]
fn strict_empty_delimiter_steps_over_whole_characters() {
    assert_eq!(StrSplit::new("\u{e9}a", "").into_vec(), vec!["", ""]);
}

#[test]
fn adjacent_delimiters_give_empty_pieces() {
    assert_eq!(StrSplit::new("a,,b", ",").into_vec(), vec!["a", "", "b"]);
    assert_eq!(StrSplit2::new(Some(",a"), Some(",")).into_vec(), vec!["", "a"]);
}

#[test]
fn longer_delimiter_resumes_one_byte_past_match() {
    assert_eq!(StrSplit::new("a, b, c", ", ").into_vec(), vec!["a", " b", " c"]);
    assert_eq!(
        StrSplit2::new(Some("a, b, c"), Some(", ")).into_vec(),
        vec!["a", " b", " c"]
    );
}

#[test]
fn non_ascii_delimiter_resumes_past_its_first_character() {
    assert_eq!(
        StrSplit::new("a\u{e9}b\u{e9}", "\u{e9}").into_vec(),
        vec!["a", "b"]
    );
    assert_eq!(
        StrSplit2::new(Some("x\u{1f600}y"), Some("\u{1f600}")).into_vec(),
        vec!["x", "y"]
    );
}

#[test]
fn non_ascii_content_with_ascii_delimiter() {
    assert_eq!(
        StrSplit::new("\u{e9}t\u{e9} ici", " ").into_vec(),
        vec!["\u{e9}t\u{e9}", "ici"]
    );
}

#[test]
fn pieces_are_views_into_the_input() {
    let input = String::from("ab cd ef");
    let base = input.as_ptr() as usize;
    let pieces = StrSplit::new(&input, " ").into_vec();
    let offsets: Vec<usize> = pieces.iter().map(|p| p.as_ptr() as usize - base).collect();
    assert_eq!(offsets, vec![0, 3, 6]);
    for (p, o) in pieces.iter().zip(offsets.iter()) {
        assert_eq!(&input[*o..*o + p.len()], *p);
    }
}

#[test]
fn lengths_plus_advances_equal_input_length() {
    let input = "a b c ";
    let pieces = StrSplit::new(input, " ").into_vec();
    let total: usize = pieces.iter().map(|p| p.len()).sum();
    assert_eq!(total + 3, input.len());
}

#[test]
fn single_byte_delimiter_absent_from_input() {
    assert_eq!(StrSplit::new("hello", ";").into_vec(), vec!["hello"]);
    assert!(StrSplit::new("", ";").into_vec().is_empty());
    assert_eq!(StrSplit2::new(Some("hello"), Some(";")).into_vec(), vec!["hello"]);
    assert!(StrSplit2::new(Some(""), Some(";")).into_vec().is_empty());
}

#[test]
fn next_after_partial_iteration_continues() {
    let mut s = StrSplit::new("one two three", " ");
    assert_eq!(s.next(), Some("one"));
    assert_eq!(s.into_vec(), vec!["two", "three"]);
}
