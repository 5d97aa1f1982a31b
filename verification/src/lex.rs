//! The lexer: every line gets a tag from its own characters alone.
//!
//! Three shapes of lines are special. Written as regular expressions, with `^` and `$`
//! for the two ends of the line, they are `^////+$` for the delimiters of comment blocks,
//! `^//[^/]` for line comments and `^(----+|\.\.\.\.+)$` for the delimiters of literal
//! blocks.

use vstd::prelude::*;

use crate::asciidoc::AsciiDocText;
use crate::text::lines_of;
use crate::text::split_lines;
use crate::text::texts;

verus! {

/// The character of line comments and of the delimiters of comment blocks.
pub const SLASH: char = '/';

/// One of the two characters of the delimiters of literal blocks.
pub const HYPHEN: char = '-';

/// The other character of the delimiters of literal blocks.
pub const PERIOD: char = '.';

/// The least number of characters that make a delimiter line.
pub const DELIMITER_LENGTH: usize = 4;

/// The shape of a line, seen without its neighbours.
#[derive(Clone, Copy, Debug, PartialEq, Eq, Structural)]
pub enum Kind {
    /// None of the shapes below.
    Text,
    /// Two slashes and then a character that is no slash.
    LineComment,
    /// Four or more slashes and nothing else.
    BlockCommentDelimeter,
    /// Four or more hyphens and nothing else, or four or more periods and nothing else.
    LiteralDelimeter,
}

/// A lexed line as the contracts see it: its tag and its characters.
pub struct LexedLine {
    pub kind: Kind,
    pub text: Seq<char>,
}

/// Whether a line is made of one character alone, repeated at least four times.
pub open spec fn is_delimiter_of(s: Seq<char>, mark: char) -> bool {
    s.len() >= DELIMITER_LENGTH && forall|i: int| 0 <= i < s.len() ==> s[i] == mark
}

/// Whether a line is four or more slashes and nothing else.
pub open spec fn is_block_comment_delimiter(s: Seq<char>) -> bool {
    is_delimiter_of(s, SLASH)
}

/// Whether a line begins with two slashes and a character that is no slash.
pub open spec fn is_line_comment(s: Seq<char>) -> bool {
    s.len() >= 3 && s[0] == SLASH && s[1] == SLASH && s[2] != SLASH
}

/// Whether a line is four or more hyphens and nothing else, or four or more periods and
/// nothing else.
pub open spec fn is_literal_delimiter(s: Seq<char>) -> bool {
    is_delimiter_of(s, HYPHEN) || is_delimiter_of(s, PERIOD)
}

/// The tag of a line. The shapes are tried in a fixed order and the first that fits
/// decides, so every line has exactly one tag.
pub open spec fn kind_of(s: Seq<char>) -> Kind {
    if is_block_comment_delimiter(s) {
        Kind::BlockCommentDelimeter
    } else if is_line_comment(s) {
        Kind::LineComment
    } else if is_literal_delimiter(s) {
        Kind::LiteralDelimeter
    } else {
        Kind::Text
    }
}

/// A line with the tag that its characters give it.
pub open spec fn lex_line(s: Seq<char>) -> LexedLine {
    LexedLine { kind: kind_of(s), text: s }
}

/// Every line of a document with its tag, in the document's order.
pub open spec fn lex_lines(lines: Seq<Seq<char>>) -> Seq<LexedLine> {
    lines.map_values(|line: Seq<char>| lex_line(line))
}

/// A line of the document with its lexical tag.
#[derive(Clone, Copy, Debug, PartialEq, Eq)]
pub enum Line<'a> {
    Text(&'a str),
    LineComment(&'a str),
    BlockCommentDelimeter(&'a str),
    LiteralDelimeter(&'a str),
}

impl<'a> View for Line<'a> {
    type V = LexedLine;

    open spec fn view(&self) -> LexedLine {
        match *self {
            Line::Text(text) => LexedLine { kind: Kind::Text, text: text@ },
            Line::LineComment(text) => LexedLine { kind: Kind::LineComment, text: text@ },
            Line::BlockCommentDelimeter(text) => LexedLine {
                kind: Kind::BlockCommentDelimeter,
                text: text@,
            },
            Line::LiteralDelimeter(text) => LexedLine { kind: Kind::LiteralDelimeter, text: text@ },
        }
    }
}

/// Whether `text` is made of `mark` alone, repeated at least four times.
pub fn is_delimiter(text: &str, mark: char) -> (found: bool)
    ensures
        found == is_delimiter_of(text@, mark),
{
    let mut uniform = true;
    // How many characters were seen, counted no further than a delimiter needs.
    let mut seen: usize = 0;
    for c in it: text.chars()
        invariant
            it.seq() == text@,
            seen <= DELIMITER_LENGTH,
            seen == if it.index() < DELIMITER_LENGTH {
                it.index()
            } else {
                DELIMITER_LENGTH as int
            },
            uniform == forall|k: int| 0 <= k < it.index() ==> text@[k] == mark,
    {
        proof {
            assert(c == text@[it.index() as int]);
        }
        uniform = uniform && c == mark;
        if seen < DELIMITER_LENGTH {
            seen += 1;
        }
    }
    uniform && seen >= DELIMITER_LENGTH
}

/// Whether `text` begins with two slashes and a character that is no slash.
pub fn starts_line_comment(text: &str) -> (found: bool)
    ensures
        found == is_line_comment(text@),
{
    let mut rest = text.chars();
    let first = rest.next();
    let second = rest.next();
    let third = rest.next();
    match (first, second, third) {
        (Some(a), Some(b), Some(c)) => a == SLASH && b == SLASH && c != SLASH,
        _ => false,
    }
}

impl<'a> Line<'a> {
    /// Tags a line by its characters alone: a delimiter of comment blocks, else a line
    /// comment, else a delimiter of literal blocks, else plain text.
    pub fn new(text: &'a str) -> (line: Self)
        ensures
            line@ == lex_line(text@),
    {
        if is_delimiter(text, SLASH) {
            Self::BlockCommentDelimeter(text)
        } else if starts_line_comment(text) {
            Self::LineComment(text)
        } else if is_delimiter(text, HYPHEN) || is_delimiter(text, PERIOD) {
            Self::LiteralDelimeter(text)
        } else {
            Self::Text(text)
        }
    }

    /// The tag of the line.
    pub fn kind(&self) -> (kind: Kind)
        ensures
            kind == self@.kind,
    {
        match self {
            Line::Text(_) => Kind::Text,
            Line::LineComment(_) => Kind::LineComment,
            Line::BlockCommentDelimeter(_) => Kind::BlockCommentDelimeter,
            Line::LiteralDelimeter(_) => Kind::LiteralDelimeter,
        }
    }

    /// The text of the line.
    pub fn text(&self) -> (text: &'a str)
        ensures
            text@ == self@.text,
    {
        match *self {
            Line::Text(text) => text,
            Line::LineComment(text) => text,
            Line::BlockCommentDelimeter(text) => text,
            Line::LiteralDelimeter(text) => text,
        }
    }
}

/// A document after lexing: its lines in order, each with its tag.
#[derive(Debug)]
pub struct LexedAsciiDoc<'a> {
    pub lines: Vec<Line<'a>>,
}

impl<'a> View for LexedAsciiDoc<'a> {
    type V = Seq<LexedLine>;

    open spec fn view(&self) -> Seq<LexedLine> {
        self.lines@.map_values(|line: Line<'a>| line@)
    }
}

impl AsciiDocText {
    /// Cuts the document into its lines and tags each of them.
    pub fn lex(&self) -> (lexed: LexedAsciiDoc<'_>)
        ensures
            lexed@ == lex_lines(split_lines(self.text@)),
    {
        let raw = lines_of(self.text.as_str());
        let mut lines: Vec<Line<'_>> = Vec::new();
        let mut i: usize = 0;
        while i < raw.len()
            invariant
                i <= raw.len(),
                lines@.len() == i,
                texts(raw@) == split_lines(self.text@),
                forall|k: int| 0 <= k < i ==> (#[trigger] lines@[k])@ == lex_line(raw@[k]@),
            decreases raw.len() - i,
        {
            lines.push(Line::new(raw[i]));
            i += 1;
        }
        let lexed = LexedAsciiDoc { lines };
        assert(lexed@ =~= lex_lines(texts(raw@)));
        lexed
    }
}

/// A line has at most one of the three special shapes, so the order in which they are
/// tried settles nothing but which of them is asked first.
pub proof fn lemma_shapes_exclude_each_other(s: Seq<char>)
    ensures
        !(is_block_comment_delimiter(s) && is_line_comment(s)),
        !(is_block_comment_delimiter(s) && is_literal_delimiter(s)),
        !(is_line_comment(s) && is_literal_delimiter(s)),
{
    // The shapes differ in their first or in their third character.
    if is_block_comment_delimiter(s) {
        assert(s[0] == SLASH && s[2] == SLASH);
    }
    if is_literal_delimiter(s) {
        assert(s[0] == HYPHEN || s[0] == PERIOD);
    }
}

} // verus!
