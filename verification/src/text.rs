//! Text as a sequence of characters: comparing it, cutting it into lines and joining
//! lines into a text again.

use vstd::prelude::*;
use vstd::string::StringExecFns;
use vstd::string::StringSliceAdditionalSpecFns;
use vstd::string::StrSliceExecFns;
use vstd::utf8::encode_utf8_decode_utf8;

verus! {

/// The character that ends a line.
pub const LINE_FEED: char = '\n';

/// The character that may stand before a line feed and then belongs to the line ending.
pub const CARRIAGE_RETURN: char = '\r';

/// Where the first line of `s` ends: the place of its first line feed, or the length of
/// `s` if it has none.
pub open spec fn line_end(s: Seq<char>) -> int
    decreases s.len(),
{
    if s.len() == 0 || s[0] == LINE_FEED {
        0
    } else {
        1 + line_end(s.drop_first())
    }
}

/// A line without the carriage return that stood before its line feed, if one did.
pub open spec fn without_carriage_return(line: Seq<char>) -> Seq<char> {
    if line.len() > 0 && line.last() == CARRIAGE_RETURN {
        line.drop_last()
    } else {
        line
    }
}

/// The lines of a text. A line ends at a line feed, or at a carriage return that a line
/// feed follows; neither belongs to the line. What follows the last line feed is a line of
/// its own unless it is empty, so a text gives the same lines with and without a final
/// line ending. A carriage return that no line feed follows is a character of its line.
pub open spec fn split_lines(s: Seq<char>) -> Seq<Seq<char>>
    decreases s.len(),
{
    let end = line_end(s);
    if s.len() == 0 {
        Seq::empty()
    } else if 0 <= end < s.len() {
        seq![without_carriage_return(s.take(end))] + split_lines(s.skip(end + 1))
    } else {
        seq![s]
    }
}

/// Whether the last character of a text is a line feed.
pub open spec fn ends_with_line_feed(s: Seq<char>) -> bool {
    s.len() > 0 && s.last() == LINE_FEED
}

/// Whether a line is free of line feeds.
pub open spec fn is_single_line(line: Seq<char>) -> bool {
    forall|j: int| 0 <= j < line.len() ==> line[j] != LINE_FEED
}

/// Whether a text is free of line endings made of a carriage return and a line feed.
pub open spec fn has_plain_line_endings(s: Seq<char>) -> bool {
    forall|i: int|
        0 <= i < s.len() - 1 ==> !(s[i] == CARRIAGE_RETURN && #[trigger] s[i + 1] == LINE_FEED)
}

/// Lines put together with one line feed between every two of them.
pub open spec fn joined(lines: Seq<Seq<char>>) -> Seq<char>
    decreases lines.len(),
{
    if lines.len() == 0 {
        Seq::empty()
    } else if lines.len() == 1 {
        lines[0]
    } else {
        lines[0] + seq![LINE_FEED] + joined(lines.drop_first())
    }
}

/// The text of a document with these lines: the lines joined, and one more line feed at
/// the end if the document is to end with one.
pub open spec fn document(lines: Seq<Seq<char>>, final_line_feed: bool) -> Seq<char> {
    if final_line_feed {
        joined(lines) + seq![LINE_FEED]
    } else {
        joined(lines)
    }
}

/// The characters of each of a list of string slices.
pub open spec fn texts<'a>(lines: Seq<&'a str>) -> Seq<Seq<char>> {
    lines.map_values(|line: &'a str| line@)
}

/// Whether two string slices hold the same characters.
pub fn same_text(a: &str, b: &str) -> (same: bool)
    ensures
        same == (a@ == b@),
{
    let left = a.as_bytes();
    let right = b.as_bytes();
    if left.len() != right.len() {
        return false;
    }
    let mut i: usize = 0;
    while i < left.len()
        invariant
            i <= left.len(),
            left.len() == right.len(),
            left@ == a.spec_bytes(),
            right@ == b.spec_bytes(),
            forall|k: int| 0 <= k < i ==> left@[k] == right@[k],
        decreases left.len() - i,
    {
        if left[i] != right[i] {
            return false;
        }
        i += 1;
    }
    proof {
        // Equal encodings decode to equal characters.
        assert(left@ =~= right@);
        encode_utf8_decode_utf8(a@);
        encode_utf8_decode_utf8(b@);
    }
    true
}

/// Whether the last character of `text` is a line feed.
pub fn has_final_line_feed(text: &str) -> (found: bool)
    ensures
        found == ends_with_line_feed(text@),
{
    let length = text.unicode_len();
    length > 0 && text.get_char(length - 1) == LINE_FEED
}

/// The lines of `text`, as `str::lines` of the standard library cuts them. The contract
/// is not proved: it is taken from the documentation of that function, whose rules
/// `split_lines` writes down. Lines end at `\n` or at `\r\n`, the line ending is not part
/// of the line, the final line ending is optional, and a carriage return that no line
/// feed follows stays in its line.
#[verifier::external_body]
pub(crate) fn lines_of<'a>(text: &'a str) -> (lines: Vec<&'a str>)
    ensures
        texts(lines@) == split_lines(text@),
{
    text.lines().collect()
}

/// Joins lines into the text of a document, with a line feed between every two lines and,
/// if asked for, one more at the end.
pub fn join_document(lines: &Vec<&str>, final_line_feed: bool) -> (text: String)
    ensures
        text@ == document(texts(lines@), final_line_feed),
{
    let mut text = String::new();
    let mut i: usize = 0;
    proof {
        reveal_strlit("\n");
        assert(texts(lines@).take(0) =~= Seq::empty());
    }
    while i < lines.len()
        invariant
            i <= lines.len(),
            "\n"@ == seq![LINE_FEED],
            text@ == joined(texts(lines@).take(i as int)),
        decreases lines.len() - i,
    {
        proof {
            let all = texts(lines@);
            assert(all.take(i + 1) =~= all.take(i as int).push(all[i as int]));
            lemma_joined_push(all.take(i as int), all[i as int]);
        }
        if i > 0 {
            text.append("\n");
        }
        text.append(lines[i]);
        i += 1;
    }
    proof {
        assert(texts(lines@).take(lines@.len() as int) =~= texts(lines@));
    }
    if final_line_feed {
        text.append("\n");
    }
    text
}

/// `line_end` is the place of the first line feed, or the length where there is none.
pub proof fn lemma_line_end(s: Seq<char>)
    ensures
        0 <= line_end(s) <= s.len(),
        forall|i: int| 0 <= i < line_end(s) ==> s[i] != LINE_FEED,
        line_end(s) < s.len() ==> s[line_end(s)] == LINE_FEED,
    decreases s.len(),
{
    if s.len() > 0 && s[0] != LINE_FEED {
        let rest = s.drop_first();
        lemma_line_end(rest);
        assert forall|i: int| 0 <= i < line_end(s) implies s[i] != LINE_FEED by {
            if i > 0 {
                assert(s[i] == rest[i - 1]);
            }
        }
    }
}

/// A place that has no line feed before it and is a line feed or the end is `line_end`.
pub proof fn lemma_line_end_is(s: Seq<char>, end: int)
    requires
        0 <= end <= s.len(),
        forall|i: int| 0 <= i < end ==> s[i] != LINE_FEED,
        end < s.len() ==> s[end] == LINE_FEED,
    ensures
        line_end(s) == end,
{
    lemma_line_end(s);
}

/// The first line of a text is what stands before its first line feed, without the
/// carriage return that may end it; the other lines are the lines of what follows that
/// line feed.
pub proof fn lemma_split_lines_at_line_feed(first: Seq<char>, rest: Seq<char>)
    requires
        is_single_line(first),
    ensures
        split_lines(first + seq![LINE_FEED] + rest) == seq![without_carriage_return(first)]
            + split_lines(rest),
{
    let s = first + seq![LINE_FEED] + rest;
    let end = first.len() as int;
    lemma_line_end_is(s, end);
    assert(s.take(end) =~= first);
    assert(s.skip(end + 1) =~= rest);
}

/// A text without line feeds is one line, unless it is empty: then it has no line.
pub proof fn lemma_split_lines_of_single_line(line: Seq<char>)
    requires
        is_single_line(line),
    ensures
        split_lines(line) == if line.len() == 0 {
            Seq::<Seq<char>>::empty()
        } else {
            seq![line]
        },
{
    lemma_line_end_is(line, line.len() as int);
}

/// No line of a text holds a line feed.
pub proof fn lemma_split_lines_are_single_lines(s: Seq<char>)
    ensures
        forall|i: int|
            0 <= i < split_lines(s).len() ==> is_single_line(#[trigger] split_lines(s)[i]),
    decreases s.len(),
{
    lemma_line_end(s);
    let end = line_end(s);
    if 0 <= end < s.len() {
        let first = without_carriage_return(s.take(end));
        let rest = split_lines(s.skip(end + 1));
        lemma_split_lines_are_single_lines(s.skip(end + 1));
        assert(is_single_line(first));
        assert forall|i: int| 0 <= i < split_lines(s).len() implies is_single_line(
            #[trigger] split_lines(s)[i],
        ) by {
            if i > 0 {
                assert(split_lines(s)[i] == rest[i - 1]);
            }
        }
    }
}

/// A text that is not empty has at least one line, and an empty text has none.
pub proof fn lemma_split_lines_of_text(s: Seq<char>)
    ensures
        s.len() > 0 ==> split_lines(s).len() > 0,
        s.len() == 0 ==> split_lines(s).len() == 0,
{
    lemma_line_end(s);
}

/// The last line of a text that does not end with a line feed is not empty.
pub proof fn lemma_last_line_without_line_feed(s: Seq<char>)
    requires
        s.len() > 0,
        !ends_with_line_feed(s),
    ensures
        split_lines(s).len() > 0,
        split_lines(s).last().len() > 0,
    decreases s.len(),
{
    lemma_line_end(s);
    let end = line_end(s);
    if end < s.len() {
        // The first line feed is not the last character, so more text follows it.
        let rest = s.skip(end + 1);
        assert(rest.len() > 0 && rest.last() == s.last());
        lemma_last_line_without_line_feed(rest);
    }
}

/// Joining one more line puts a line feed and the line behind what was joined before.
pub proof fn lemma_joined_push(lines: Seq<Seq<char>>, line: Seq<char>)
    ensures
        joined(lines.push(line)) == if lines.len() == 0 {
            line
        } else {
            joined(lines) + seq![LINE_FEED] + line
        },
    decreases lines.len(),
{
    if lines.len() > 0 {
        let rest = lines.drop_first();
        assert(lines.push(line).drop_first() =~= rest.push(line));
        lemma_joined_push(rest, line);
    }
}

/// The text of a document ends with a line feed if it was given a final one. Without a
/// final one it ends with a line feed only where its last line is an empty line behind
/// other lines: the line feed before that line is then the last character.
pub proof fn lemma_document_end(lines: Seq<Seq<char>>, final_line_feed: bool)
    requires
        forall|i: int| 0 <= i < lines.len() ==> is_single_line(#[trigger] lines[i]),
    ensures
        ends_with_line_feed(document(lines, final_line_feed)) <==> final_line_feed || (lines.len()
            >= 2 && lines.last().len() == 0),
{
    if !final_line_feed && lines.len() >= 2 {
        assert(lines =~= lines.drop_last().push(lines.last()));
        lemma_joined_push(lines.drop_last(), lines.last());
    }
}

/// How many lines the text of a document has when it is cut into lines again. Each line
/// that was joined is found again, with two exceptions: a document that is nothing but
/// its final line feed has one empty line, and an empty last line that no line feed
/// follows is not a line.
pub open spec fn lines_in_document(lines: Seq<Seq<char>>, final_line_feed: bool) -> int {
    if final_line_feed {
        if lines.len() == 0 {
            1
        } else {
            lines.len() as int
        }
    } else {
        if lines.len() > 0 && lines.last().len() == 0 {
            lines.len() - 1
        } else {
            lines.len() as int
        }
    }
}

/// Cutting the text of a document into lines gives `lines_in_document` lines.
pub proof fn lemma_split_document_len(lines: Seq<Seq<char>>, final_line_feed: bool)
    requires
        forall|i: int| 0 <= i < lines.len() ==> is_single_line(#[trigger] lines[i]),
    ensures
        split_lines(document(lines, final_line_feed)).len() == lines_in_document(
            lines,
            final_line_feed,
        ),
    decreases lines.len(),
{
    let text = document(lines, final_line_feed);
    let nothing = Seq::<char>::empty();
    if lines.len() == 0 {
        if final_line_feed {
            assert(text =~= nothing + seq![LINE_FEED] + nothing);
            lemma_split_lines_at_line_feed(nothing, nothing);
            lemma_split_lines_of_single_line(nothing);
        }
    } else if lines.len() == 1 {
        let line = lines[0];
        if final_line_feed {
            assert(text =~= line + seq![LINE_FEED] + nothing);
            lemma_split_lines_at_line_feed(line, nothing);
            lemma_split_lines_of_single_line(nothing);
        } else {
            lemma_split_lines_of_single_line(line);
        }
    } else {
        // The first line and its line feed, then the document of the other lines.
        let line = lines[0];
        let rest = lines.drop_first();
        let tail = document(rest, final_line_feed);
        assert(text =~= line + seq![LINE_FEED] + tail);
        lemma_split_lines_at_line_feed(line, tail);
        assert forall|i: int| 0 <= i < rest.len() implies is_single_line(#[trigger] rest[i]) by {
            assert(rest[i] == lines[i + 1]);
        }
        lemma_split_document_len(rest, final_line_feed);
        assert(rest.last() == lines.last());
    }
}

/// Cutting a text into lines and joining them again gives the text back, final line feed
/// or none included, if none of its line endings has a carriage return.
pub proof fn lemma_document_of_split_lines(s: Seq<char>)
    requires
        has_plain_line_endings(s),
    ensures
        document(split_lines(s), ends_with_line_feed(s)) == s,
    decreases s.len(),
{
    lemma_line_end(s);
    let end = line_end(s);
    if 0 <= end < s.len() {
        let head = s.take(end);
        let rest = s.skip(end + 1);
        assert(s =~= head + seq![LINE_FEED] + rest);
        // No carriage return stands before the line feed, so the first line is `head`.
        assert(without_carriage_return(head) == head) by {
            if head.len() > 0 && head.last() == CARRIAGE_RETURN {
                assert(s[end - 1] == CARRIAGE_RETURN && s[end - 1 + 1] == LINE_FEED);
            }
        }
        assert(has_plain_line_endings(rest)) by {
            assert forall|i: int| 0 <= i < rest.len() - 1 implies !(rest[i] == CARRIAGE_RETURN
                && #[trigger] rest[i + 1] == LINE_FEED) by {
                assert(rest[i] == s[end + 1 + i]);
                assert(rest[i + 1] == s[(end + 1 + i) + 1]);
            }
        }
        lemma_document_of_split_lines(rest);
        lemma_split_lines_of_text(rest);
        if rest.len() > 0 {
            assert(split_lines(s).drop_first() =~= split_lines(rest));
            assert(rest.last() == s.last());
        }
    }
}

} // verus!
