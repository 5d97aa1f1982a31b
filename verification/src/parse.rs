//! The parser: it follows the blocks that delimiter lines open and close, and gives every
//! line its category.

use vstd::prelude::*;

use crate::asciidoc::AsciiDocText;
use crate::filter::entries_text;
use crate::filter::entry_text;
use crate::filter::reconsider;
use crate::filter::FilterPolicy;
use crate::lex;
use crate::lex::is_block_comment_delimiter;
use crate::lex::is_literal_delimiter;
use crate::lex::lemma_shapes_exclude_each_other;
use crate::lex::lex_line;
use crate::lex::lex_lines;
use crate::lex::Kind;
use crate::lex::LexedLine;
use crate::text::same_text;
use crate::text::split_lines;

verus! {

/// What a line is taken to be once the blocks around it are known.
#[derive(Clone, Copy, Debug, PartialEq, Eq, Structural)]
pub enum Category {
    /// Running text outside any block.
    Para,
    /// A line comment, or a line of a comment block, its delimiters included.
    Comment,
    /// A line of a literal block, its delimiters included.
    Literal,
}

/// A parsed line as the contracts see it: its category and its characters.
pub struct ParsedLine {
    pub category: Category,
    pub text: Seq<char>,
}

/// A line of the document with its category.
#[derive(Clone, Copy, Debug, PartialEq, Eq)]
pub enum Line<'a> {
    Para(&'a str),
    Comment(&'a str),
    Literal(&'a str),
}

impl<'a> View for Line<'a> {
    type V = ParsedLine;

    open spec fn view(&self) -> ParsedLine {
        match *self {
            Line::Para(text) => ParsedLine { category: Category::Para, text: text@ },
            Line::Comment(text) => ParsedLine { category: Category::Comment, text: text@ },
            Line::Literal(text) => ParsedLine { category: Category::Literal, text: text@ },
        }
    }
}

impl<'a> Line<'a> {
    /// The category of the line.
    pub fn category(&self) -> (category: Category)
        ensures
            category == self@.category,
    {
        match self {
            Line::Para(_) => Category::Para,
            Line::Comment(_) => Category::Comment,
            Line::Literal(_) => Category::Literal,
        }
    }

    /// The text of the line.
    pub fn text(&self) -> (text: &'a str)
        ensures
            text@ == self@.text,
    {
        match *self {
            Line::Para(text) => text,
            Line::Comment(text) => text,
            Line::Literal(text) => text,
        }
    }
}

/// A document after parsing: its lines in order, each with its category.
#[derive(Debug)]
pub struct ParsedAsciiDoc<'a> {
    pub lines: Vec<Line<'a>>,
}

impl<'a> View for ParsedAsciiDoc<'a> {
    type V = Seq<ParsedLine>;

    open spec fn view(&self) -> Seq<ParsedLine> {
        self.lines@.map_values(|line: Line<'a>| line@)
    }
}

/// The blocks that are open between two lines. Each one is known by the characters of the
/// delimiter line that opened it, and only a line with the same characters closes it.
pub struct OpenBlocks {
    pub comment: Option<Seq<char>>,
    pub literal: Option<Seq<char>>,
}

impl OpenBlocks {
    /// No block is open: the state before the first line.
    pub open spec fn closed() -> OpenBlocks {
        OpenBlocks { comment: None, literal: None }
    }

    /// A comment block and a literal block are never open together.
    pub open spec fn exclusive(self) -> bool {
        self.comment is None || self.literal is None
    }

    /// The text of the delimiter line that opened the block that is open, if one is.
    pub open spec fn opener(self) -> Option<Seq<char>> {
        if self.comment is Some {
            self.comment
        } else {
            self.literal
        }
    }

    /// Whether a line closes the block that is open: it is a delimiter of the block's
    /// kind and has the very text of the line that opened the block.
    pub open spec fn closed_by(self, line: LexedLine) -> bool {
        ||| self.comment is Some && self.literal is None && line.kind
            == Kind::BlockCommentDelimeter && line.text == self.comment->0
        ||| self.literal is Some && self.comment is None && line.kind == Kind::LiteralDelimeter
            && line.text == self.literal->0
    }

    /// The category of a line that is read while these blocks are open.
    pub open spec fn category_of(self, line: LexedLine) -> Category {
        match line.kind {
            Kind::LineComment | Kind::BlockCommentDelimeter => if self.literal is Some {
                Category::Literal
            } else {
                Category::Comment
            },
            Kind::LiteralDelimeter => if self.comment is Some {
                Category::Comment
            } else {
                Category::Literal
            },
            Kind::Text => if self.literal is Some {
                Category::Literal
            } else if self.comment is Some {
                Category::Comment
            } else {
                Category::Para
            },
        }
    }

    /// The blocks that are open after a line has been read.
    pub open spec fn after(self, line: LexedLine) -> OpenBlocks {
        match line.kind {
            Kind::BlockCommentDelimeter => if self.literal is Some {
                self
            } else {
                match self.comment {
                    Some(delimiter) => if delimiter == line.text {
                        OpenBlocks { comment: None, literal: self.literal }
                    } else {
                        self
                    },
                    None => OpenBlocks { comment: Some(line.text), literal: self.literal },
                }
            },
            Kind::LiteralDelimeter => if self.comment is Some {
                self
            } else {
                match self.literal {
                    Some(delimiter) => if delimiter == line.text {
                        OpenBlocks { comment: self.comment, literal: None }
                    } else {
                        self
                    },
                    None => OpenBlocks { comment: self.comment, literal: Some(line.text) },
                }
            },
            Kind::LineComment | Kind::Text => self,
        }
    }
}

/// The blocks that are open after the first `n` lines of a document.
pub open spec fn blocks_after(lines: Seq<LexedLine>, n: int) -> OpenBlocks
    decreases n,
{
    if n <= 0 {
        OpenBlocks::closed()
    } else {
        blocks_after(lines, n - 1).after(lines[n - 1])
    }
}

/// The line at position `i` of a document, parsed.
pub open spec fn parse_line(lines: Seq<LexedLine>, i: int) -> ParsedLine {
    ParsedLine { category: blocks_after(lines, i).category_of(lines[i]), text: lines[i].text }
}

/// A whole document, parsed: the same lines in the same order, each with the category
/// that the blocks open before it give it.
pub open spec fn parse_lines(lines: Seq<LexedLine>) -> Seq<ParsedLine> {
    Seq::new(lines.len(), |i: int| parse_line(lines, i))
}

/// The lines of a text with their categories: the text cut into lines, the lines tagged,
/// the tagged lines parsed.
pub open spec fn parsed_document(text: Seq<char>) -> Seq<ParsedLine> {
    parse_lines(lex_lines(split_lines(text)))
}

/// Wherever the parser stands in a document, a comment block and a literal block are not
/// open together.
pub proof fn lemma_blocks_exclusive(lines: Seq<LexedLine>, n: int)
    ensures
        blocks_after(lines, n).exclusive(),
    decreases n,
{
    if n > 0 {
        lemma_blocks_exclusive(lines, n - 1);
    }
}

/// While a block is open every line belongs to it, whatever the line looks like: inside
/// a literal block a row of slashes or a line comment is literal text, inside a comment
/// block a row of hyphens or periods is comment, and neither opens or closes anything.
pub proof fn lemma_open_block_takes_every_line(blocks: OpenBlocks, line: LexedLine)
    requires
        blocks.exclusive(),
    ensures
        blocks.literal is Some ==> blocks.category_of(line) == Category::Literal,
        blocks.comment is Some ==> blocks.category_of(line) == Category::Comment,
        blocks.literal is Some && line.kind != Kind::LiteralDelimeter ==> blocks.after(line)
            == blocks,
        blocks.comment is Some && line.kind != Kind::BlockCommentDelimeter ==> blocks.after(
            line,
        ) == blocks,
        blocks.after(line).exclusive(),
{
}

/// An open block is closed by a delimiter line of its own kind that repeats the opening
/// line character for character, and by nothing else: a delimiter of another length or of
/// another character leaves the block as it is.
pub proof fn lemma_block_closes_on_its_own_delimiter_only(blocks: OpenBlocks, line: LexedLine)
    requires
        blocks.exclusive(),
        blocks.opener() is Some,
    ensures
        blocks.closed_by(line) ==> blocks.after(line) == OpenBlocks::closed(),
        !blocks.closed_by(line) ==> blocks.after(line) == blocks,
        line.text != blocks.opener()->0 ==> blocks.after(line) == blocks,
        line.text.len() != blocks.opener()->0.len() ==> blocks.after(line) == blocks,
        (exists|i: int|
            0 <= i < line.text.len() && i < blocks.opener()->0.len() && line.text[i]
                != blocks.opener()->0[i]) ==> blocks.after(line) == blocks,
{
}

/// A block that is open before line `from` stays open up to line `to`, and takes every
/// line in between, if none of those lines is the delimiter that closes it. With `to` at
/// the end of the document this is the block that is never closed: it runs to the end.
pub proof fn lemma_block_lasts(lines: Seq<LexedLine>, from: int, to: int)
    requires
        0 <= from <= to <= lines.len(),
        blocks_after(lines, from).opener() is Some,
        forall|k: int| from <= k < to ==> !blocks_after(lines, from).closed_by(#[trigger] lines[k]),
    ensures
        blocks_after(lines, to) == blocks_after(lines, from),
        forall|k: int|
            from <= k < to ==> (#[trigger] parse_line(lines, k)).category == if blocks_after(
                lines,
                from,
            ).comment is Some {
                Category::Comment
            } else {
                Category::Literal
            },
    decreases to - from,
{
    lemma_blocks_exclusive(lines, from);
    if from < to {
        lemma_block_lasts(lines, from, to - 1);
        lemma_open_block_takes_every_line(blocks_after(lines, from), lines[to - 1]);
        lemma_block_closes_on_its_own_delimiter_only(blocks_after(lines, from), lines[to - 1]);
    }
}

/// A block that is opened and not closed again runs to the end of the document: if the
/// delimiter line at `opened_at` stands outside any block and no later line repeats it,
/// then that line and every line after it belong to the block that it opens.
pub proof fn lemma_unclosed_block_runs_to_the_end(lines: Seq<LexedLine>, opened_at: int)
    requires
        0 <= opened_at < lines.len(),
        blocks_after(lines, opened_at) == OpenBlocks::closed(),
        lines[opened_at].kind == Kind::BlockCommentDelimeter || lines[opened_at].kind
            == Kind::LiteralDelimeter,
        forall|k: int|
            opened_at < k < lines.len() ==> !((#[trigger] lines[k]).kind == lines[opened_at].kind
                && lines[k].text == lines[opened_at].text),
    ensures
        forall|k: int|
            opened_at <= k < lines.len() ==> (#[trigger] parse_lines(lines)[k]).category
                == if lines[opened_at].kind == Kind::BlockCommentDelimeter {
                Category::Comment
            } else {
                Category::Literal
            },
{
    let open = blocks_after(lines, opened_at + 1);
    lemma_lines_outside_blocks(lines[opened_at]);
    assert(open == OpenBlocks::closed().after(lines[opened_at]));
    assert forall|k: int| opened_at + 1 <= k < lines.len() implies !open.closed_by(
        #[trigger] lines[k],
    ) by {}
    lemma_block_lasts(lines, opened_at + 1, lines.len() as int);
    assert forall|k: int| opened_at <= k < lines.len() implies (#[trigger] parse_lines(
        lines,
    )[k]).category == if lines[opened_at].kind == Kind::BlockCommentDelimeter {
        Category::Comment
    } else {
        Category::Literal
    } by {
        if k > opened_at {
            assert(parse_lines(lines)[k] == parse_line(lines, k));
        }
    }
}

/// In a document, every line that is read while a block is open belongs to that block,
/// and a line is a paragraph line only if it is plain text outside any block. So no line
/// is comment and literal at once, and nothing inside a block is taken for markup.
pub proof fn lemma_lines_inside_blocks(lines: Seq<LexedLine>, i: int)
    requires
        0 <= i < lines.len(),
    ensures
        blocks_after(lines, i).literal is Some ==> parse_lines(lines)[i].category
            == Category::Literal,
        blocks_after(lines, i).comment is Some ==> parse_lines(lines)[i].category
            == Category::Comment,
        parse_lines(lines)[i].category == Category::Para <==> lines[i].kind == Kind::Text
            && blocks_after(lines, i) == OpenBlocks::closed(),
        parse_lines(lines)[i].text == lines[i].text,
{
    lemma_blocks_exclusive(lines, i);
    lemma_open_block_takes_every_line(blocks_after(lines, i), lines[i]);
}

/// A row of slashes opens a comment block, and a row of slashes of another length that
/// comes next is a line of that block and leaves it open; the same row again closes it.
/// Likewise for literal blocks and their rows of hyphens or of periods, where a row of
/// the other character closes nothing either.
pub proof fn lemma_only_the_same_row_closes(opening: Seq<char>, line: Seq<char>)
    requires
        is_block_comment_delimiter(opening) || is_literal_delimiter(opening),
    ensures
        ({
            let open = OpenBlocks::closed().after(lex_line(opening));
            let category = if is_block_comment_delimiter(opening) {
                Category::Comment
            } else {
                Category::Literal
            };
            &&& open.opener() == Some(opening)
            &&& open.category_of(lex_line(line)) == category
            &&& line == opening ==> open.after(lex_line(line)) == OpenBlocks::closed()
            &&& line != opening ==> open.after(lex_line(line)) == open
            &&& line.len() != opening.len() ==> open.after(lex_line(line)) == open
        }),
{
    lemma_shapes_exclude_each_other(opening);
    let open = OpenBlocks::closed().after(lex_line(opening));
    lemma_open_block_takes_every_line(open, lex_line(line));
    lemma_block_closes_on_its_own_delimiter_only(open, lex_line(line));
}

/// Outside any block a delimiter line opens a block of its kind, which remembers the
/// line's exact text, and is itself the first line of that block. A line comment is a
/// comment by itself, and any other line is a paragraph line.
pub proof fn lemma_lines_outside_blocks(line: LexedLine)
    ensures
        line.kind == Kind::BlockCommentDelimeter ==> OpenBlocks::closed().after(line)
            == (OpenBlocks { comment: Some(line.text), literal: None })
            && OpenBlocks::closed().category_of(line) == Category::Comment,
        line.kind == Kind::LiteralDelimeter ==> OpenBlocks::closed().after(line)
            == (OpenBlocks { comment: None, literal: Some(line.text) })
            && OpenBlocks::closed().category_of(line) == Category::Literal,
        line.kind == Kind::LineComment ==> OpenBlocks::closed().after(line)
            == OpenBlocks::closed() && OpenBlocks::closed().category_of(line)
            == Category::Comment,
        line.kind == Kind::Text ==> OpenBlocks::closed().after(line) == OpenBlocks::closed()
            && OpenBlocks::closed().category_of(line) == Category::Para,
{
}

/// The parser's memory while it walks through a document.
#[derive(Clone, Copy, Debug, PartialEq, Eq)]
pub struct ParserState<'a> {
    /// The delimiter line that opened the comment block we are in, if we are in one.
    pub open_comment: Option<&'a str>,
    /// The delimiter line that opened the literal block we are in, if we are in one.
    pub open_literal: Option<&'a str>,
}

impl<'a> View for ParserState<'a> {
    type V = OpenBlocks;

    open spec fn view(&self) -> OpenBlocks {
        OpenBlocks {
            comment: match self.open_comment {
                Some(delimiter) => Some(delimiter@),
                None => None,
            },
            literal: match self.open_literal {
                Some(delimiter) => Some(delimiter@),
                None => None,
            },
        }
    }
}

impl<'a> ParserState<'a> {
    /// The state before the first line: no block is open.
    pub fn new() -> (state: Self)
        ensures
            state@ == OpenBlocks::closed(),
    {
        ParserState { open_comment: None, open_literal: None }
    }

    /// Reads one line: gives it its category and opens or closes a block where the line
    /// is a delimiter that does so.
    pub fn step(&mut self, line: &lex::Line<'a>) -> (parsed: Line<'a>)
        ensures
            parsed@.category == old(self)@.category_of(line@),
            parsed@.text == line@.text,
            final(self)@ == old(self)@.after(line@),
            old(self)@.exclusive() ==> final(self)@.exclusive(),
    {
        match *line {
            lex::Line::LineComment(text) => {
                if self.open_literal.is_some() {
                    Line::Literal(text)
                } else {
                    Line::Comment(text)
                }
            },
            lex::Line::BlockCommentDelimeter(text) => {
                // Inside a literal block a row of slashes is verbatim content.
                if self.open_literal.is_some() {
                    Line::Literal(text)
                } else if let Some(delimiter) = self.open_comment {
                    // Only the very delimiter that opened the block closes it.
                    if same_text(delimiter, text) {
                        self.open_comment = None;
                    }
                    Line::Comment(text)
                } else {
                    self.open_comment = Some(text);
                    Line::Comment(text)
                }
            },
            lex::Line::LiteralDelimeter(text) => {
                // Inside a comment block a literal delimiter is part of the comment.
                if self.open_comment.is_some() {
                    Line::Comment(text)
                } else if let Some(delimiter) = self.open_literal {
                    if same_text(delimiter, text) {
                        self.open_literal = None;
                    }
                    Line::Literal(text)
                } else {
                    self.open_literal = Some(text);
                    Line::Literal(text)
                }
            },
            lex::Line::Text(text) => {
                if self.open_literal.is_some() {
                    Line::Literal(text)
                } else if self.open_comment.is_some() {
                    Line::Comment(text)
                } else {
                    Line::Para(text)
                }
            },
        }
    }
}

impl<'a> lex::LexedAsciiDoc<'a> {
    /// Parses the document: every line keeps its place and its text and gets the category
    /// that the blocks open before it give it.
    pub fn parse(&self) -> (parsed: ParsedAsciiDoc<'a>)
        ensures
            parsed@ == parse_lines(self@),
    {
        let mut state = ParserState::new();
        let mut lines: Vec<Line<'a>> = Vec::new();
        let mut i: usize = 0;
        while i < self.lines.len()
            invariant
                i <= self.lines.len(),
                lines@.len() == i,
                state@ == blocks_after(self@, i as int),
                forall|k: int| 0 <= k < i ==> (#[trigger] lines@[k])@ == parse_line(self@, k),
            decreases self.lines.len() - i,
        {
            let parsed_line = state.step(&self.lines[i]);
            lines.push(parsed_line);
            i += 1;
        }
        let parsed = ParsedAsciiDoc { lines };
        assert(parsed@ =~= parse_lines(self@));
        parsed
    }
}

impl AsciiDocText {
    /// Gives every line of the document its category: the lexer first, then the parser.
    pub fn classify(&self) -> (parsed: ParsedAsciiDoc<'_>)
        ensures
            parsed@ == parsed_document(self.text@),
    {
        self.lex().parse()
    }
}

impl<'a> ParsedAsciiDoc<'a> {
    /// Looks at every line again with the caller's choices: a line stays, as its text, if
    /// lines of its category are wanted, and leaves a gap if they are not. The result has
    /// one entry for every line of the document, in the document's order.
    pub fn reconsider_lines(
        self,
        comments: bool,
        literals: bool,
        paras: bool,
    ) -> (kept: Vec<Option<&'a str>>)
        ensures
            entries_text(kept@) == reconsider(
                self@,
                (FilterPolicy { comments, literals, paragraphs: paras }),
            ),
    {
        let mut kept: Vec<Option<&'a str>> = Vec::new();
        let mut i: usize = 0;
        while i < self.lines.len()
            invariant
                i <= self.lines.len(),
                kept@.len() == i,
                forall|k: int|
                    0 <= k < i ==> entry_text(#[trigger] kept@[k]) == reconsider(
                        self@,
                        (FilterPolicy { comments, literals, paragraphs: paras }),
                    )[k],
            decreases self.lines.len() - i,
        {
            let entry = match self.lines[i] {
                Line::Comment(text) => if comments {
                    Some(text)
                } else {
                    None
                },
                Line::Literal(text) => if literals {
                    Some(text)
                } else {
                    None
                },
                Line::Para(text) => if paras {
                    Some(text)
                } else {
                    None
                },
            };
            kept.push(entry);
            i += 1;
        }
        assert(entries_text(kept@) =~= reconsider(
            self@,
            (FilterPolicy { comments, literals, paragraphs: paras }),
        ));
        kept
    }
}

} // verus!
