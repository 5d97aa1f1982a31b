use presciidoc::asciidoc::begins_with_two_slashes;
use presciidoc::asciidoc::AsciiDocText;
use presciidoc::asciidoc::Line;

#[test]
fn the_document_holds_its_text() {
    let document = AsciiDocText::new(String::from("= Title\n"));
    assert_eq!(document.text, "= Title\n");
}

#[test]
fn four_slashes_are_the_short_delimiter() {
    assert_eq!(Line::new("////"), Line::BlockCommentDelimeter("////"));
}

#[test]
fn other_lines_with_two_slashes_in_front_are_line_comments() {
    assert_eq!(Line::new("// note"), Line::LineComment("// note"));
    assert_eq!(Line::new("//"), Line::LineComment("//"));
    assert_eq!(Line::new("///"), Line::LineComment("///"));
    assert_eq!(Line::new("/////"), Line::LineComment("/////"));
    assert_eq!(Line::new("//// "), Line::LineComment("//// "));
}

#[test]
fn all_other_lines_are_paragraph_text() {
    assert_eq!(Line::new(""), Line::Para(""));
    assert_eq!(Line::new("/"), Line::Para("/"));
    assert_eq!(Line::new("text"), Line::Para("text"));
    assert_eq!(Line::new(" // note"), Line::Para(" // note"));
    assert_eq!(Line::new("----"), Line::Para("----"));
}

#[test]
fn two_slashes_in_front_are_found() {
    assert!(begins_with_two_slashes("//"));
    assert!(begins_with_two_slashes("//x"));
    assert!(!begins_with_two_slashes("/"));
    assert!(!begins_with_two_slashes("/x/"));
    assert!(!begins_with_two_slashes(""));
}

#[test]
fn the_coarse_sorting_goes_line_by_line() {
    let document = AsciiDocText::new(String::from("text\n// note\n////\nhidden\n////\r\n----"));
    assert_eq!(
        document.parse().lines,
        vec![
            Line::Para("text"),
            Line::LineComment("// note"),
            Line::BlockCommentDelimeter("////"),
            Line::Para("hidden"),
            Line::BlockCommentDelimeter("////"),
            Line::Para("----"),
        ]
    );
}

#[test]
fn the_coarse_sorting_of_an_empty_document_is_empty() {
    assert!(AsciiDocText::new(String::new()).parse().lines.is_empty());
}
