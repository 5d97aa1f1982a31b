//! The choices that a caller makes on the command line, and the output that they ask for.

use std::path::PathBuf;

use vstd::prelude::*;
use vstd::string::StringExecFns;

use crate::asciidoc::AsciiDocText;
use crate::filter::filtered_document;
use crate::filter::FilterMode;
use crate::filter::FilterPolicy;
use crate::fraction::dropped_percentage;
use crate::text::LINE_FEED;

verus! {

/// `std::path::PathBuf`, the path of the input file. It is carried along as it is: nothing
/// is claimed of it and nothing here looks into it.
#[verifier::external_type_specification]
#[verifier::external_body]
pub struct ExPathBuf(PathBuf);

/// The options of the command line.
#[derive(Clone, Debug)]
pub struct Cli {
    /// Strip the file of all comments.
    pub no_comments: bool,
    /// Strip the file of all code blocks (listing, source, code blocks).
    pub no_blocks: bool,
    /// Strip the file of all items that are neither comments nor code, such as paragraphs.
    pub no_paras: bool,
    /// What to write out.
    pub output_behavior: OutputBehavior,
    /// Display debugging messages.
    pub verbose: bool,
    /// Process this AsciiDoc file. Otherwise, the program reads from standard input.
    pub file: Option<PathBuf>,
}

/// What is written out.
#[derive(Clone, Copy, Debug, PartialEq, Eq, Structural)]
pub enum OutputBehavior {
    /// The document, with the selected lines removed rather than replaced by blank lines.
    RemoveLines,
    /// Instead of the document, the percentage of its lines that would get removed.
    Fraction,
    /// The document, with a blank line in place of every selected line.
    Default,
}

impl Cli {
    /// The categories that stay in: each one that no option strips.
    pub open spec fn spec_policy(&self) -> FilterPolicy {
        FilterPolicy {
            comments: !self.no_comments,
            literals: !self.no_blocks,
            paragraphs: !self.no_paras,
        }
    }

    /// The categories that stay in: each one that no option strips.
    #[verifier::when_used_as_spec(spec_policy)]
    pub fn policy(&self) -> (policy: FilterPolicy)
        ensures
            policy == self.spec_policy(),
    {
        FilterPolicy {
            comments: !self.no_comments,
            literals: !self.no_blocks,
            paragraphs: !self.no_paras,
        }
    }
}

/// What is written out for a text: the filtered document in the mode that was asked for,
/// or the percentage of dropped lines on a line of its own.
pub open spec fn output_text(
    text: Seq<char>,
    policy: FilterPolicy,
    behavior: OutputBehavior,
) -> Seq<char> {
    match behavior {
        OutputBehavior::RemoveLines => filtered_document(text, policy, FilterMode::Remove),
        OutputBehavior::Default => filtered_document(text, policy, FilterMode::Placeholder),
        OutputBehavior::Fraction => dropped_percentage(text, policy).push(LINE_FEED),
    }
}

impl AsciiDocText {
    /// Everything that is to be written out for this document under the given options.
    pub fn output(&self, args: &Cli) -> (output: String)
        ensures
            output@ == output_text(self.text@, args.policy(), args.output_behavior),
    {
        let policy = args.policy();
        match args.output_behavior {
            OutputBehavior::RemoveLines => self.filter(policy, FilterMode::Remove),
            OutputBehavior::Default => self.filter(policy, FilterMode::Placeholder),
            OutputBehavior::Fraction => {
                let mut output = self.fraction_removed(policy);
                proof {
                    reveal_strlit("\n");
                    assert(output@ + "\n"@ =~= output@.push(LINE_FEED));
                }
                output.append("\n");
                output
            },
        }
    }
}

} // verus!
