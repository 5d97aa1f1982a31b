use presciidoc::text::has_final_line_feed;
use presciidoc::text::join_document;
use presciidoc::text::same_text;

#[test]
fn equal_texts_are_the_same() {
    assert!(same_text("", ""));
    assert!(same_text("----", "----"));
    assert!(same_text("äöü", "äöü"));
    let built: String = vec!["--", "--"].concat();
    assert!(same_text(built.as_str(), "----"));
}

#[test]
fn different_texts_are_not_the_same() {
    assert!(!same_text("----", "-----"));
    assert!(!same_text("-----", "----"));
    assert!(!same_text("----", "...."));
    assert!(!same_text("----", "---."));
    assert!(!same_text("", " "));
    assert!(!same_text("é", "e"));
}

#[test]
fn a_final_line_feed_is_found() {
    assert!(has_final_line_feed("a\n"));
    assert!(has_final_line_feed("\n"));
    assert!(has_final_line_feed("a\r\n"));
    assert!(has_final_line_feed("é\n"));
    assert!(!has_final_line_feed(""));
    assert!(!has_final_line_feed("a"));
    assert!(!has_final_line_feed("\na"));
    assert!(!has_final_line_feed("a\n\r"));
}

#[test]
fn lines_are_joined_with_line_feeds() {
    assert_eq!(join_document(&vec!["a", "b", "c"], false), "a\nb\nc");
    assert_eq!(join_document(&vec!["a", "b", "c"], true), "a\nb\nc\n");
    assert_eq!(join_document(&vec!["a"], false), "a");
    assert_eq!(join_document(&vec!["a"], true), "a\n");
    assert_eq!(join_document(&vec!["", ""], false), "\n");
    assert_eq!(join_document(&vec!["", ""], true), "\n\n");
}

#[test]
fn no_lines_join_to_nothing_but_the_final_line_feed() {
    assert_eq!(join_document(&Vec::new(), false), "");
    assert_eq!(join_document(&Vec::new(), true), "\n");
}
