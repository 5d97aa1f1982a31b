//! The filter: which lines the caller keeps, and the document that is left of them.

use vstd::prelude::*;

use crate::asciidoc::AsciiDocText;
use crate::parse::parsed_document;
use crate::parse::Category;
use crate::parse::ParsedAsciiDoc;
use crate::parse::ParsedLine;
use crate::text::document;
use crate::text::ends_with_line_feed;
use crate::text::has_final_line_feed;
use crate::text::has_plain_line_endings;
use crate::text::is_single_line;
use crate::text::join_document;
use crate::text::lemma_document_end;
use crate::text::lemma_document_of_split_lines;
use crate::text::lemma_last_line_without_line_feed;
use crate::text::lemma_split_document_len;
use crate::text::lemma_split_lines_are_single_lines;
use crate::text::lemma_split_lines_of_text;
use crate::text::split_lines;
use crate::text::texts;

verus! {

/// Which categories of lines the caller keeps. The three choices are independent.
#[derive(Clone, Copy, Debug, PartialEq, Eq, Structural)]
pub struct FilterPolicy {
    pub comments: bool,
    pub literals: bool,
    pub paragraphs: bool,
}

impl FilterPolicy {
    /// Whether lines of this category are kept.
    pub open spec fn spec_keeps(self, category: Category) -> bool {
        match category {
            Category::Comment => self.comments,
            Category::Literal => self.literals,
            Category::Para => self.paragraphs,
        }
    }

    /// Whether lines of this category are kept.
    #[verifier::when_used_as_spec(spec_keeps)]
    pub fn keeps(self, category: Category) -> (kept: bool)
        ensures
            kept == self.spec_keeps(category),
    {
        match category {
            Category::Comment => self.comments,
            Category::Literal => self.literals,
            Category::Para => self.paragraphs,
        }
    }

    /// Whether every line is kept, whatever its category.
    pub open spec fn keeps_all(self) -> bool {
        self.comments && self.literals && self.paragraphs
    }
}

/// The characters of an entry that was kept, and nothing for one that was dropped.
pub open spec fn entry_text<'a>(entry: Option<&'a str>) -> Option<Seq<char>> {
    match entry {
        Some(text) => Some(text@),
        None => None,
    }
}

/// The characters of each entry of a list of kept and dropped lines.
pub open spec fn entries_text<'a>(entries: Seq<Option<&'a str>>) -> Seq<Option<Seq<char>>> {
    entries.map_values(|entry: Option<&'a str>| entry_text(entry))
}

/// One entry for every line of the document, in order: the text of a line whose category
/// the policy keeps, and nothing for a line that it drops.
pub open spec fn reconsider(
    lines: Seq<ParsedLine>,
    policy: FilterPolicy,
) -> Seq<Option<Seq<char>>> {
    Seq::new(
        lines.len(),
        |i: int|
            if policy.keeps(lines[i].category) {
                Some(lines[i].text)
            } else {
                None
            },
    )
}

/// What becomes of the lines that the policy drops.
#[derive(Clone, Copy, Debug, PartialEq, Eq, Structural)]
pub enum FilterMode {
    /// A dropped line stays as an empty line, so every line keeps its number.
    Placeholder,
    /// A dropped line is taken out, and the lines after it move up.
    Remove,
}

/// The lines of the output in placeholder mode: a kept line as it is, an empty line for
/// a dropped one.
pub open spec fn blanked(entries: Seq<Option<Seq<char>>>) -> Seq<Seq<char>> {
    Seq::new(
        entries.len(),
        |i: int|
            match entries[i] {
                Some(text) => text,
                None => Seq::empty(),
            },
    )
}

/// The lines of the output in remove mode: the kept lines, in their order.
pub open spec fn remaining(entries: Seq<Option<Seq<char>>>) -> Seq<Seq<char>>
    decreases entries.len(),
{
    if entries.len() == 0 {
        Seq::empty()
    } else {
        match entries.last() {
            Some(text) => remaining(entries.drop_last()).push(text),
            None => remaining(entries.drop_last()),
        }
    }
}

/// The lines of the output in either mode.
pub open spec fn shown(entries: Seq<Option<Seq<char>>>, mode: FilterMode) -> Seq<Seq<char>> {
    match mode {
        FilterMode::Placeholder => blanked(entries),
        FilterMode::Remove => remaining(entries),
    }
}

/// The text of a document after filtering. Its lines are the lines that the policy keeps,
/// with empty lines or nothing in place of the others, joined by line feeds. A final line
/// feed follows them if the text that was read ends with one.
pub open spec fn filtered_document(
    text: Seq<char>,
    policy: FilterPolicy,
    mode: FilterMode,
) -> Seq<char> {
    document(shown(reconsider(parsed_document(text), policy), mode), ends_with_line_feed(text))
}

/// The lines for placeholder mode: every kept line, and an empty line for every gap.
pub fn blank_dropped<'a>(entries: &Vec<Option<&'a str>>) -> (lines: Vec<&'a str>)
    ensures
        texts(lines@) == blanked(entries_text(entries@)),
{
    let mut lines: Vec<&'a str> = Vec::new();
    let mut i: usize = 0;
    proof {
        reveal_strlit("");
    }
    while i < entries.len()
        invariant
            i <= entries.len(),
            lines@.len() == i,
            ""@.len() == 0,
            forall|k: int|
                0 <= k < i ==> (#[trigger] lines@[k])@ == blanked(entries_text(entries@))[k],
        decreases entries.len() - i,
    {
        let line = match entries[i] {
            Some(text) => text,
            None => "",
        };
        lines.push(line);
        i += 1;
    }
    lines
}

/// The lines for remove mode: every kept line, and nothing for a gap.
pub fn skip_dropped<'a>(entries: &Vec<Option<&'a str>>) -> (lines: Vec<&'a str>)
    ensures
        texts(lines@) == remaining(entries_text(entries@)),
{
    let mut lines: Vec<&'a str> = Vec::new();
    let mut i: usize = 0;
    while i < entries.len()
        invariant
            i <= entries.len(),
            texts(lines@) == remaining(entries_text(entries@).take(i as int)),
        decreases entries.len() - i,
    {
        proof {
            let all = entries_text(entries@);
            assert(all.take(i + 1).drop_last() =~= all.take(i as int));
        }
        if let Some(text) = entries[i] {
            assert(texts(lines@.push(text)) =~= texts(lines@).push(text@));
            lines.push(text);
        }
        i += 1;
    }
    assert(entries_text(entries@).take(entries@.len() as int) =~= entries_text(entries@));
    lines
}

impl<'a> ParsedAsciiDoc<'a> {
    /// The text of the document with only the lines that the policy keeps. In placeholder
    /// mode a dropped line leaves an empty line behind, in remove mode it leaves nothing.
    /// The lines are joined by line feeds, and a last line feed follows if
    /// `final_line_feed` says that the document ends with one.
    pub fn filter(
        self,
        policy: FilterPolicy,
        mode: FilterMode,
        final_line_feed: bool,
    ) -> (output: String)
        ensures
            output@ == document(shown(reconsider(self@, policy), mode), final_line_feed),
    {
        let entries = self.reconsider_lines(policy.comments, policy.literals, policy.paragraphs);
        let lines = match mode {
            FilterMode::Placeholder => blank_dropped(&entries),
            FilterMode::Remove => skip_dropped(&entries),
        };
        join_document(&lines, final_line_feed)
    }
}

impl AsciiDocText {
    /// Whether the document ends with a line feed.
    pub fn ends_with_line_feed(&self) -> (found: bool)
        ensures
            found == ends_with_line_feed(self.text@),
    {
        has_final_line_feed(self.text.as_str())
    }

    /// The document with only the lines that the policy keeps. In placeholder mode a
    /// dropped line leaves an empty line behind, in remove mode it leaves nothing. The
    /// result ends with a line feed if the document does.
    pub fn filter(&self, policy: FilterPolicy, mode: FilterMode) -> (output: String)
        ensures
            output@ == filtered_document(self.text@, policy, mode),
    {
        self.classify().filter(policy, mode, self.ends_with_line_feed())
    }
}

/// What `reconsider` makes of the lines of a text: one entry for each line, which is the
/// line itself if it is kept.
pub proof fn lemma_reconsidered_document(text: Seq<char>, policy: FilterPolicy)
    ensures
        parsed_document(text).len() == split_lines(text).len(),
        reconsider(parsed_document(text), policy).len() == split_lines(text).len(),
        forall|i: int|
            0 <= i < split_lines(text).len() ==> (#[trigger] parsed_document(text)[i]).text
                == split_lines(text)[i],
        forall|i: int|
            0 <= i < split_lines(text).len() ==> #[trigger] reconsider(
                parsed_document(text),
                policy,
            )[i] == if policy.keeps(parsed_document(text)[i].category) {
                Some(split_lines(text)[i])
            } else {
                None
            },
{
}

/// The kept lines are no more than the entries, and as many only if nothing was dropped;
/// then they are the entries themselves.
pub proof fn lemma_remaining(entries: Seq<Option<Seq<char>>>)
    ensures
        remaining(entries).len() <= entries.len(),
        remaining(entries).len() == entries.len() <==> forall|i: int|
            0 <= i < entries.len() ==> entries[i] is Some,
        remaining(entries).len() == entries.len() ==> remaining(entries) == blanked(entries),
    decreases entries.len(),
{
    if entries.len() > 0 {
        let front = entries.drop_last();
        lemma_remaining(front);
        if remaining(entries).len() == entries.len() {
            // Nothing was dropped: not the last entry, and none before it.
            assert(entries.last() is Some && remaining(front).len() == front.len());
            assert forall|i: int| 0 <= i < entries.len() implies entries[i] is Some by {
                if i < front.len() {
                    assert(front[i] is Some);
                }
            }
            assert(remaining(entries) =~= blanked(front).push(entries.last()->0));
            assert(remaining(entries) =~= blanked(entries));
        }
        if forall|i: int| 0 <= i < entries.len() ==> entries[i] is Some {
            assert forall|i: int| 0 <= i < front.len() implies front[i] is Some by {
                assert(entries[i] is Some);
            }
        }
    }
}

/// The kept lines are single lines if the entries are.
pub proof fn lemma_remaining_are_single_lines(entries: Seq<Option<Seq<char>>>)
    requires
        forall|i: int|
            0 <= i < entries.len() && entries[i] is Some ==> is_single_line(
                #[trigger] entries[i]->0,
            ),
    ensures
        forall|j: int|
            0 <= j < remaining(entries).len() ==> is_single_line(#[trigger] remaining(entries)[j]),
    decreases entries.len(),
{
    if entries.len() > 0 {
        let front = entries.drop_last();
        assert forall|i: int| 0 <= i < front.len() && front[i] is Some implies is_single_line(
            #[trigger] front[i]->0,
        ) by {
            assert(front[i] == entries[i]);
        }
        lemma_remaining_are_single_lines(front);
        assert forall|j: int| 0 <= j < remaining(entries).len() implies is_single_line(
            #[trigger] remaining(entries)[j],
        ) by {
            if j < remaining(front).len() {
                assert(remaining(entries)[j] == remaining(front)[j]);
            } else {
                assert(remaining(entries)[j] == entries[entries.len() - 1]->0);
            }
        }
    }
}

/// Every line of the output, in either mode, is free of line feeds.
pub proof fn lemma_shown_lines_are_single_lines(text: Seq<char>, policy: FilterPolicy)
    ensures
        forall|j: int|
            0 <= j < blanked(reconsider(parsed_document(text), policy)).len() ==> is_single_line(
                #[trigger] blanked(reconsider(parsed_document(text), policy))[j],
            ),
        forall|j: int|
            0 <= j < remaining(reconsider(parsed_document(text), policy)).len()
                ==> is_single_line(
                #[trigger] remaining(reconsider(parsed_document(text), policy))[j],
            ),
{
    let entries = reconsider(parsed_document(text), policy);
    lemma_reconsidered_document(text, policy);
    lemma_split_lines_are_single_lines(text);
    assert forall|i: int| 0 <= i < entries.len() && entries[i] is Some implies is_single_line(
        #[trigger] entries[i]->0,
    ) by {
        assert(entries[i]->0 == split_lines(text)[i]);
    }
    assert forall|j: int| 0 <= j < blanked(entries).len() implies is_single_line(
        #[trigger] blanked(entries)[j],
    ) by {
        if entries[j] is Some {
            assert(is_single_line(entries[j]->0));
        }
    }
    lemma_remaining_are_single_lines(entries);
}

/// If the policy keeps every line of a text, the output lines are the lines of the text,
/// in either mode.
pub proof fn lemma_nothing_dropped(text: Seq<char>, policy: FilterPolicy, mode: FilterMode)
    requires
        forall|i: int|
            0 <= i < split_lines(text).len() ==> policy.keeps(
                #[trigger] parsed_document(text)[i].category,
            ),
    ensures
        shown(reconsider(parsed_document(text), policy), mode) == split_lines(text),
{
    let entries = reconsider(parsed_document(text), policy);
    lemma_reconsidered_document(text, policy);
    assert forall|i: int| 0 <= i < entries.len() implies entries[i] is Some by {
        assert(policy.keeps(parsed_document(text)[i].category));
    }
    lemma_remaining(entries);
    assert(blanked(entries) =~= split_lines(text));
}

/// The output ends with a line feed if the document does. If the document does not, the
/// output does not either, with one exception: where the last of several output lines is
/// empty, the line feed that parts it from the line before is the last character.
pub proof fn lemma_final_line_feed_is_kept(
    text: Seq<char>,
    policy: FilterPolicy,
    mode: FilterMode,
)
    ensures
        ends_with_line_feed(text) ==> ends_with_line_feed(filtered_document(text, policy, mode)),
        !ends_with_line_feed(text) ==> (ends_with_line_feed(filtered_document(text, policy, mode))
            <==> shown(reconsider(parsed_document(text), policy), mode).len() >= 2 && shown(
            reconsider(parsed_document(text), policy),
            mode,
        ).last().len() == 0),
{
    let entries = reconsider(parsed_document(text), policy);
    lemma_shown_lines_are_single_lines(text, policy);
    match mode {
        FilterMode::Placeholder => lemma_document_end(blanked(entries), ends_with_line_feed(text)),
        FilterMode::Remove => lemma_document_end(remaining(entries), ends_with_line_feed(text)),
    }
}

/// In placeholder mode every line keeps its place: the output is made of one line for
/// each line of the document, which is the line itself if it is kept and empty if not.
pub proof fn lemma_placeholder_keeps_every_line_in_place(text: Seq<char>, policy: FilterPolicy)
    ensures
        blanked(reconsider(parsed_document(text), policy)).len() == split_lines(text).len(),
        forall|i: int|
            0 <= i < split_lines(text).len() ==> #[trigger] blanked(
                reconsider(parsed_document(text), policy),
            )[i] == if policy.keeps(parsed_document(text)[i].category) {
                split_lines(text)[i]
            } else {
                Seq::<char>::empty()
            },
{
    lemma_reconsidered_document(text, policy);
}

/// In placeholder mode the output has as many lines as the input. This holds of every
/// document that ends with a line feed, and of one that does not if its last line is
/// kept: an empty line at the very end of a text, with no line feed behind it, is no line.
pub proof fn lemma_placeholder_keeps_line_count(text: Seq<char>, policy: FilterPolicy)
    requires
        ends_with_line_feed(text) || text.len() == 0 || policy.keeps(
            parsed_document(text).last().category,
        ),
    ensures
        split_lines(filtered_document(text, policy, FilterMode::Placeholder)).len() == split_lines(
            text,
        ).len(),
{
    let lines = blanked(reconsider(parsed_document(text), policy));
    lemma_placeholder_keeps_every_line_in_place(text, policy);
    lemma_shown_lines_are_single_lines(text, policy);
    lemma_split_document_len(lines, ends_with_line_feed(text));
    lemma_split_lines_of_text(text);
    if !ends_with_line_feed(text) && text.len() > 0 {
        // The last line is kept, and it is not empty.
        lemma_last_line_without_line_feed(text);
        assert(lines.last() == split_lines(text).last()) by {
            let last = split_lines(text).len() - 1;
            assert(lines[last] == split_lines(text)[last]);
        }
    }
}

/// In remove mode the output has no more lines than the input, and it has as many if the
/// policy keeps all three categories.
pub proof fn lemma_remove_adds_no_line(text: Seq<char>, policy: FilterPolicy)
    ensures
        split_lines(filtered_document(text, policy, FilterMode::Remove)).len() <= split_lines(
            text,
        ).len(),
        policy.keeps_all() ==> split_lines(
            filtered_document(text, policy, FilterMode::Remove),
        ).len() == split_lines(text).len(),
{
    let entries = reconsider(parsed_document(text), policy);
    lemma_reconsidered_document(text, policy);
    lemma_shown_lines_are_single_lines(text, policy);
    lemma_split_document_len(remaining(entries), ends_with_line_feed(text));
    lemma_split_lines_of_text(text);
    lemma_remaining(entries);
    if policy.keeps_all() {
        assert forall|i: int| 0 <= i < split_lines(text).len() implies policy.keeps(
            #[trigger] parsed_document(text)[i].category,
        ) by {}
        lemma_remove_keeps_line_count_iff_nothing_dropped(text, policy);
    }
}

/// In remove mode the output has as many lines as the input if and only if no line of
/// the document is dropped. The one document of which this does not hold is left out: a
/// single dropped line with a line feed behind it, of which the line feed stays and
/// reads as one empty line.
pub proof fn lemma_remove_keeps_line_count_iff_nothing_dropped(
    text: Seq<char>,
    policy: FilterPolicy,
)
    requires
        !(split_lines(text).len() == 1 && ends_with_line_feed(text) && !policy.keeps(
            parsed_document(text)[0].category,
        )),
    ensures
        split_lines(filtered_document(text, policy, FilterMode::Remove)).len() == split_lines(
            text,
        ).len() <==> forall|i: int|
            0 <= i < split_lines(text).len() ==> policy.keeps(
                #[trigger] parsed_document(text)[i].category,
            ),
{
    let entries = reconsider(parsed_document(text), policy);
    let nothing_dropped = forall|i: int|
        0 <= i < split_lines(text).len() ==> policy.keeps(
            #[trigger] parsed_document(text)[i].category,
        );
    lemma_reconsidered_document(text, policy);
    lemma_split_lines_of_text(text);
    if nothing_dropped {
        // The output is that of placeholder mode, in which the last line is kept.
        lemma_nothing_dropped(text, policy, FilterMode::Remove);
        lemma_nothing_dropped(text, policy, FilterMode::Placeholder);
        if text.len() > 0 {
            let last = split_lines(text).len() - 1;
            assert(policy.keeps(parsed_document(text)[last].category));
        }
        lemma_placeholder_keeps_line_count(text, policy);
    } else {
        // A line is missing, and the text has no more lines than were joined.
        let i = choose|i: int|
            0 <= i < split_lines(text).len() && !policy.keeps(
                #[trigger] parsed_document(text)[i].category,
            );
        assert(entries[i] is None);
        lemma_remaining(entries);
        assert(remaining(entries).len() < entries.len());
        lemma_shown_lines_are_single_lines(text, policy);
        lemma_split_document_len(remaining(entries), ends_with_line_feed(text));
    }
}

/// Filtering with a policy that keeps everything gives the document back as it was, in
/// either mode, with its final line feed or without. This holds of every text whose line
/// endings are plain line feeds: a carriage return before a line feed belongs to the
/// line ending, and the output is written with line feeds alone.
pub proof fn lemma_keeping_everything_changes_nothing(
    text: Seq<char>,
    policy: FilterPolicy,
    mode: FilterMode,
)
    requires
        policy.keeps_all(),
        has_plain_line_endings(text),
    ensures
        filtered_document(text, policy, mode) == text,
{
    assert forall|i: int| 0 <= i < split_lines(text).len() implies policy.keeps(
        #[trigger] parsed_document(text)[i].category,
    ) by {}
    lemma_nothing_dropped(text, policy, mode);
    lemma_document_of_split_lines(text);
}

} // verus!
