use presciidoc::asciidoc::AsciiDocText;
use presciidoc::lex;
use presciidoc::lex::LexedAsciiDoc;
use presciidoc::parse::Category;
use presciidoc::parse::Line;
use presciidoc::parse::ParserState;

fn parse_text(text: &str) -> Vec<String> {
    let document = AsciiDocText::new(String::from(text));
    let parsed = document.classify();
    let mut names = Vec::new();
    for line in parsed.lines.iter() {
        names.push(match line {
            Line::Para(_) => String::from("para"),
            Line::Comment(_) => String::from("comment"),
            Line::Literal(_) => String::from("literal"),
        });
    }
    names
}

#[test]
fn plain_lines_are_paragraphs() {
    assert_eq!(parse_text("one\ntwo\n\nthree\n"), vec!["para", "para", "para", "para"]);
}

#[test]
fn a_line_comment_is_a_comment() {
    assert_eq!(parse_text("one\n// two\nthree\n"), vec!["para", "comment", "para"]);
}

#[test]
fn a_comment_block_holds_its_delimiters_and_its_content() {
    assert_eq!(
        parse_text("before\n////\nhidden\n\nmore\n////\nafter\n"),
        vec!["para", "comment", "comment", "comment", "comment", "comment", "para"]
    );
}

#[test]
fn a_literal_block_holds_its_delimiters_and_its_content() {
    assert_eq!(
        parse_text("before\n----\ncode\n----\nafter\n"),
        vec!["para", "literal", "literal", "literal", "para"]
    );
    assert_eq!(
        parse_text("....\ncode\n....\nafter\n"),
        vec!["literal", "literal", "literal", "para"]
    );
}

#[test]
fn a_longer_delimiter_does_not_close_a_comment_block() {
    assert_eq!(
        parse_text("////\nhidden\n//////\nstill hidden\n////\nshown\n"),
        vec!["comment", "comment", "comment", "comment", "comment", "para"]
    );
}

#[test]
fn a_shorter_delimiter_does_not_close_a_comment_block() {
    assert_eq!(
        parse_text("//////\nhidden\n////\nstill hidden\n//////\nshown\n"),
        vec!["comment", "comment", "comment", "comment", "comment", "para"]
    );
}

#[test]
fn a_delimiter_of_other_length_does_not_close_a_literal_block() {
    assert_eq!(
        parse_text("----\ncode\n------\nmore code\n----\ntext\n"),
        vec!["literal", "literal", "literal", "literal", "literal", "para"]
    );
}

#[test]
fn a_delimiter_of_another_character_does_not_close_a_literal_block() {
    assert_eq!(
        parse_text("----\ncode\n....\nmore code\n----\ntext\n"),
        vec!["literal", "literal", "literal", "literal", "literal", "para"]
    );
    assert_eq!(
        parse_text("....\ncode\n----\nmore code\n....\ntext\n"),
        vec!["literal", "literal", "literal", "literal", "literal", "para"]
    );
}

#[test]
fn comments_inside_a_literal_block_are_literal() {
    assert_eq!(
        parse_text("----\n// not a comment\n////\nnot hidden\n////\n----\n// comment\n"),
        vec!["literal", "literal", "literal", "literal", "literal", "literal", "comment"]
    );
}

#[test]
fn literal_delimiters_inside_a_comment_block_are_comment() {
    assert_eq!(
        parse_text("////\n----\ncode\n----\n....\n////\n----\ncode\n"),
        vec![
            "comment", "comment", "comment", "comment", "comment", "comment", "literal",
            "literal"
        ]
    );
}

#[test]
fn a_comment_delimiter_inside_a_literal_block_opens_nothing() {
    assert_eq!(
        parse_text("----\n////\n----\ntext\n"),
        vec!["literal", "literal", "literal", "para"]
    );
}

#[test]
fn a_literal_block_that_is_never_closed_runs_to_the_end() {
    assert_eq!(
        parse_text("text\n----\ncode\n// note\n\n////\nlast"),
        vec!["para", "literal", "literal", "literal", "literal", "literal", "literal"]
    );
}

#[test]
fn a_comment_block_that_is_never_closed_runs_to_the_end() {
    assert_eq!(
        parse_text("text\n////\nhidden\n----\nlast\n"),
        vec!["para", "comment", "comment", "comment", "comment"]
    );
}

#[test]
fn a_block_can_open_again_after_it_was_closed() {
    assert_eq!(
        parse_text("////\na\n////\nb\n////\nc\n////\n"),
        vec!["comment", "comment", "comment", "para", "comment", "comment", "comment"]
    );
}

#[test]
fn an_empty_document_has_no_lines() {
    assert!(parse_text("").is_empty());
}

#[test]
fn parsing_keeps_the_text_of_every_line() {
    let document = AsciiDocText::new(String::from("a\n// b\n----\nc\n"));
    let parsed = document.classify();
    assert_eq!(
        parsed.lines,
        vec![Line::Para("a"), Line::Comment("// b"), Line::Literal("----"), Line::Literal("c")]
    );
}

#[test]
fn the_parser_goes_by_the_tags_it_is_given() {
    let lexed = LexedAsciiDoc {
        lines: vec![
            lex::Line::LiteralDelimeter("begin"),
            lex::Line::LineComment("inside"),
            lex::Line::LiteralDelimeter("other"),
            lex::Line::LiteralDelimeter("begin"),
            lex::Line::Text("outside"),
        ],
    };
    assert_eq!(
        lexed.parse().lines,
        vec![
            Line::Literal("begin"),
            Line::Literal("inside"),
            Line::Literal("other"),
            Line::Literal("begin"),
            Line::Para("outside"),
        ]
    );
}

#[test]
fn the_state_starts_with_no_block_open() {
    let state = ParserState::new();
    assert_eq!(state.open_comment, None);
    assert_eq!(state.open_literal, None);
}

#[test]
fn a_comment_delimiter_opens_and_closes_a_comment_block() {
    let mut state = ParserState::new();
    assert_eq!(state.step(&lex::Line::BlockCommentDelimeter("////")), Line::Comment("////"));
    assert_eq!(state, ParserState { open_comment: Some("////"), open_literal: None });
    assert_eq!(state.step(&lex::Line::Text("hidden")), Line::Comment("hidden"));
    assert_eq!(state, ParserState { open_comment: Some("////"), open_literal: None });
    assert_eq!(state.step(&lex::Line::BlockCommentDelimeter("/////")), Line::Comment("/////"));
    assert_eq!(state, ParserState { open_comment: Some("////"), open_literal: None });
    assert_eq!(state.step(&lex::Line::BlockCommentDelimeter("////")), Line::Comment("////"));
    assert_eq!(state, ParserState { open_comment: None, open_literal: None });
}

#[test]
fn a_literal_delimiter_opens_and_closes_a_literal_block() {
    let mut state = ParserState::new();
    assert_eq!(state.step(&lex::Line::LiteralDelimeter("....")), Line::Literal("...."));
    assert_eq!(state, ParserState { open_comment: None, open_literal: Some("....") });
    assert_eq!(state.step(&lex::Line::LineComment("// x")), Line::Literal("// x"));
    assert_eq!(state.step(&lex::Line::BlockCommentDelimeter("////")), Line::Literal("////"));
    assert_eq!(state.step(&lex::Line::LiteralDelimeter("----")), Line::Literal("----"));
    assert_eq!(state, ParserState { open_comment: None, open_literal: Some("....") });
    assert_eq!(state.step(&lex::Line::LiteralDelimeter("....")), Line::Literal("...."));
    assert_eq!(state, ParserState { open_comment: None, open_literal: None });
}

#[test]
fn the_closing_delimiter_need_not_be_the_same_slice() {
    let opening = String::from("------");
    let closing = String::from("------");
    let mut state = ParserState::new();
    state.step(&lex::Line::LiteralDelimeter(opening.as_str()));
    assert_eq!(state.open_literal, Some("------"));
    state.step(&lex::Line::LiteralDelimeter(closing.as_str()));
    assert_eq!(state.open_literal, None);
}

#[test]
fn lines_outside_blocks_leave_the_state_alone() {
    let mut state = ParserState::new();
    assert_eq!(state.step(&lex::Line::Text("text")), Line::Para("text"));
    assert_eq!(state.step(&lex::Line::LineComment("// c")), Line::Comment("// c"));
    assert_eq!(state, ParserState::new());
}

#[test]
fn reconsidering_keeps_one_entry_for_every_line() {
    let text = "para\n// comment\n----\ncode\n----\n";
    let document = AsciiDocText::new(String::from(text));
    assert_eq!(
        document.classify().reconsider_lines(true, true, true),
        vec![Some("para"), Some("// comment"), Some("----"), Some("code"), Some("----")]
    );
    assert_eq!(
        document.classify().reconsider_lines(false, true, true),
        vec![Some("para"), None, Some("----"), Some("code"), Some("----")]
    );
    assert_eq!(
        document.classify().reconsider_lines(true, false, true),
        vec![Some("para"), Some("// comment"), None, None, None]
    );
    assert_eq!(
        document.classify().reconsider_lines(true, true, false),
        vec![None, Some("// comment"), Some("----"), Some("code"), Some("----")]
    );
    assert_eq!(
        document.classify().reconsider_lines(false, false, false),
        vec![None, None, None, None, None]
    );
}

#[test]
fn the_category_and_the_text_can_be_asked_for() {
    assert_eq!(Line::Para("text").category(), Category::Para);
    assert_eq!(Line::Comment("// c").category(), Category::Comment);
    assert_eq!(Line::Literal("----").category(), Category::Literal);
    assert_eq!(Line::Para("text").text(), "text");
    assert_eq!(Line::Comment("// c").text(), "// c");
    assert_eq!(Line::Literal("----").text(), "----");
}
