//! The document as it was read, and a first, coarse sorting of its lines.

use vstd::prelude::*;

use crate::text::lines_of;
use crate::text::same_text;
use crate::text::split_lines;
use crate::text::texts;

verus! {

/// The text of an AsciiDoc document, as it came from a file or a pipe.
#[derive(Debug)]
pub struct AsciiDocText {
    pub text: String,
}

/// A line as the coarse sorting sees it. The sorting itself tells only the short comment
/// delimiter and lines that begin like a comment from all other lines; the variants for
/// the insides of blocks are there for callers that follow the blocks themselves.
#[derive(Clone, Copy, Debug, PartialEq, Eq)]
pub enum Line<'a> {
    Para(&'a str),
    LineComment(&'a str),
    BlockCommentDelimeter(&'a str),
    BlockCommentContent(&'a str),
    LiteralDelimeter(&'a str),
    LiteralContent(&'a str),
}

/// Whether a line is the comment delimiter of the least length: four slashes.
pub open spec fn is_short_comment_delimiter(s: Seq<char>) -> bool {
    s == seq!['/', '/', '/', '/']
}

/// Whether a line begins with two slashes.
pub open spec fn has_comment_prefix(s: Seq<char>) -> bool {
    s.len() >= 2 && s[0] == '/' && s[1] == '/'
}

impl<'a> Line<'a> {
    /// The characters of the line.
    pub open spec fn text(self) -> Seq<char> {
        match self {
            Line::Para(text) => text@,
            Line::LineComment(text) => text@,
            Line::BlockCommentDelimeter(text) => text@,
            Line::BlockCommentContent(text) => text@,
            Line::LiteralDelimeter(text) => text@,
            Line::LiteralContent(text) => text@,
        }
    }

    /// Whether this is what the coarse sorting makes of a line with the characters `s`:
    /// four slashes are a comment delimiter, any other line that begins with two slashes
    /// is a line comment, and the rest is paragraph text.
    pub open spec fn sorts(self, s: Seq<char>) -> bool {
        &&& self.text() == s
        &&& if is_short_comment_delimiter(s) {
            self is BlockCommentDelimeter
        } else if has_comment_prefix(s) {
            self is LineComment
        } else {
            self is Para
        }
    }

    /// Sorts a line by its beginning alone.
    pub fn new(text: &'a str) -> (line: Self)
        ensures
            line.sorts(text@),
    {
        proof {
            reveal_strlit("////");
            assert("////"@ =~= seq!['/', '/', '/', '/']);
        }
        if same_text(text, "////") {
            Self::BlockCommentDelimeter(text)
        } else if begins_with_two_slashes(text) {
            Self::LineComment(text)
        } else {
            Self::Para(text)
        }
    }
}

/// Whether `text` begins with two slashes.
pub fn begins_with_two_slashes(text: &str) -> (found: bool)
    ensures
        found == has_comment_prefix(text@),
{
    let mut rest = text.chars();
    let first = rest.next();
    let second = rest.next();
    match (first, second) {
        (Some(a), Some(b)) => a == '/' && b == '/',
        _ => false,
    }
}

/// A document after the coarse sorting: its lines in order.
#[derive(Debug)]
pub struct ParsedAsciiDoc<'a> {
    pub lines: Vec<Line<'a>>,
}

impl AsciiDocText {
    /// Takes the text of a document as it is.
    pub fn new(text: String) -> (document: Self)
        ensures
            document.text == text,
    {
        Self { text }
    }

    /// Cuts the document into its lines and sorts each of them by its beginning alone,
    /// without regard to the blocks that the lines form.
    pub fn parse(&self) -> (parsed: ParsedAsciiDoc<'_>)
        ensures
            parsed.lines@.len() == split_lines(self.text@).len(),
            forall|i: int|
                0 <= i < parsed.lines@.len() ==> (#[trigger] parsed.lines@[i]).sorts(
                    split_lines(self.text@)[i],
                ),
    {
        let raw = lines_of(self.text.as_str());
        let mut lines: Vec<Line<'_>> = Vec::new();
        let mut i: usize = 0;
        while i < raw.len()
            invariant
                i <= raw.len(),
                lines@.len() == i,
                texts(raw@) == split_lines(self.text@),
                forall|k: int| 0 <= k < i ==> (#[trigger] lines@[k]).sorts(raw@[k]@),
            decreases raw.len() - i,
        {
            lines.push(Line::new(raw[i]));
            i += 1;
        }
        assert forall|k: int| 0 <= k < lines@.len() implies (#[trigger] lines@[k]).sorts(
            split_lines(self.text@)[k],
        ) by {
            assert(texts(raw@)[k] == raw@[k]@);
        }
        ParsedAsciiDoc { lines }
    }
}

} // verus!
