//! Sorting the lines of an AsciiDoc document into paragraphs, comments and literal blocks,
//! and writing the document out again with only the wanted kinds of lines.
//!
//! A document passes through three stages. The lexer in [`lex`] tags every line by its own
//! shape. The parser in [`parse`] follows the delimiters that open and close blocks and
//! settles the category of every line. The functions in [`filter`] blank out or remove the
//! unwanted lines, and those in [`fraction`] tell how large a share of the document the
//! unwanted lines are.
//!
//! Every function states what it returns in terms of the characters of the document, and
//! the proof functions state what holds of the stages together: which lines belong to a
//! block, what closes a block, and what filtering does to the number of lines and to the
//! end of the document.

pub mod asciidoc;
pub mod cli;
pub mod filter;
pub mod fraction;
pub mod lex;
pub mod parse;
pub mod text;
