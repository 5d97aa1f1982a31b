//! The share of a document that filtering takes away, as a percentage with one decimal.

use vstd::prelude::*;
use vstd::string::StringExecFns;

use crate::asciidoc::AsciiDocText;
use crate::filter::entries_text;
use crate::filter::lemma_remaining;
use crate::filter::reconsider;
use crate::filter::remaining;
use crate::filter::skip_dropped;
use crate::filter::FilterPolicy;
use crate::parse::parsed_document;
use crate::parse::ParsedAsciiDoc;

verus! {

/// The whole number nearest to `numerator / denominator`. Where two are equally near, it
/// is the even one.
pub open spec fn nearest(numerator: nat, denominator: nat) -> nat
    recommends
        denominator > 0,
{
    let quotient = numerator / denominator;
    let rest = numerator % denominator;
    if 2 * rest > denominator || (2 * rest == denominator && quotient % 2 == 1) {
        quotient + 1
    } else {
        quotient
    }
}

/// The lines that were dropped as a share of all lines, in tenths of a percent.
pub open spec fn dropped_tenths(kept: nat, total: nat) -> nat
    recommends
        0 < total,
        kept <= total,
{
    nearest((1000 * (total - kept)) as nat, total)
}

/// The character of a decimal digit.
pub open spec fn digit(d: nat) -> char
    recommends
        d < 10,
{
    seq!['0', '1', '2', '3', '4', '5', '6', '7', '8', '9'][d as int]
}

/// A number in decimal digits, without leading zeros.
pub open spec fn decimal(n: nat) -> Seq<char>
    decreases n,
{
    if n < 10 {
        seq![digit(n)]
    } else {
        decimal(n / 10).push(digit(n % 10))
    }
}

/// What is written for a document without lines, of which no share can be taken.
pub open spec fn undefined_percentage() -> Seq<char> {
    seq!['N', 'a', 'N', '%']
}

/// The dropped lines as a percentage of all lines: `(1 - kept / total) * 100`, rounded to
/// the nearest tenth, to the even one of two that are equally near, and followed by a
/// percent sign.
pub open spec fn percentage(kept: nat, total: nat) -> Seq<char>
    recommends
        kept <= total,
{
    if total == 0 {
        undefined_percentage()
    } else {
        let tenths = dropped_tenths(kept, total);
        decimal(tenths / 10) + seq!['.', digit(tenths % 10), '%']
    }
}

/// The percentage of the lines of a text that a policy drops.
pub open spec fn dropped_percentage(text: Seq<char>, policy: FilterPolicy) -> Seq<char> {
    let entries = reconsider(parsed_document(text), policy);
    percentage(remaining(entries).len(), entries.len())
}

/// `nearest` is no further than one half from the exact quotient, and even where it is
/// exactly one half away.
pub proof fn lemma_nearest(numerator: nat, denominator: nat)
    requires
        denominator > 0,
    ensures
        -denominator <= 2 * (nearest(numerator, denominator) * denominator - numerator)
            <= denominator,
        2 * (nearest(numerator, denominator) * denominator - numerator) == denominator
            || 2 * (nearest(numerator, denominator) * denominator - numerator) == -denominator
            ==> nearest(numerator, denominator) % 2 == 0,
{
    let quotient = numerator / denominator;
    let rest = numerator % denominator;
    assert(numerator == quotient * denominator + rest && 0 <= rest < denominator) by {
        vstd::arithmetic::div_mod::lemma_fundamental_div_mod(
            numerator as int,
            denominator as int,
        );
        vstd::arithmetic::div_mod::lemma_mod_bound(numerator as int, denominator as int);
        assert(denominator * quotient == quotient * denominator) by (nonlinear_arith);
    }
    assert((quotient + 1) * denominator == quotient * denominator + denominator)
        by (nonlinear_arith);
}

/// The text of one decimal digit.
fn digit_text(d: u128) -> (text: &'static str)
    requires
        d < 10,
    ensures
        text@ == seq![digit(d as nat)],
{
    proof {
        reveal_strlit("0");
        reveal_strlit("1");
        reveal_strlit("2");
        reveal_strlit("3");
        reveal_strlit("4");
        reveal_strlit("5");
        reveal_strlit("6");
        reveal_strlit("7");
        reveal_strlit("8");
        reveal_strlit("9");
    }
    let text = if d == 0 {
        "0"
    } else if d == 1 {
        "1"
    } else if d == 2 {
        "2"
    } else if d == 3 {
        "3"
    } else if d == 4 {
        "4"
    } else if d == 5 {
        "5"
    } else if d == 6 {
        "6"
    } else if d == 7 {
        "7"
    } else if d == 8 {
        "8"
    } else {
        "9"
    };
    assert(text@ =~= seq![digit(d as nat)]);
    text
}

/// Writes a number in decimal digits at the end of `text`.
fn push_decimal(text: &mut String, n: u128)
    ensures
        final(text)@ == old(text)@ + decimal(n as nat),
    decreases n,
{
    if n >= 10 {
        push_decimal(text, n / 10);
    }
    text.append(digit_text(n % 10));
    assert(text@ =~= old(text)@ + decimal(n as nat));
}

/// The share of lines that were dropped when `kept` of `total` lines are left, as a
/// percentage with one decimal: `"30.0%"` when 7 of 10 lines are left. Of no lines at all
/// no share can be taken, and the result is `"NaN%"`.
pub fn percent_dropped(kept: usize, total: usize) -> (text: String)
    requires
        kept <= total,
    ensures
        text@ == percentage(kept as nat, total as nat),
{
    if total == 0 {
        proof {
            reveal_strlit("NaN%");
            assert("NaN%"@ =~= undefined_percentage());
        }
        return String::from_str("NaN%");
    }
    let dropped: u128 = (total - kept) as u128;
    let whole: u128 = total as u128;
    let numerator: u128 = 1000 * dropped;
    let quotient: u128 = numerator / whole;
    let rest: u128 = numerator % whole;
    let tenths: u128 = if 2 * rest > whole || (2 * rest == whole && quotient % 2 == 1) {
        quotient + 1
    } else {
        quotient
    };
    assert(tenths == dropped_tenths(kept as nat, total as nat));
    let mut text = String::new();
    push_decimal(&mut text, tenths / 10);
    text.append(".");
    text.append(digit_text(tenths % 10));
    text.append("%");
    proof {
        reveal_strlit(".");
        reveal_strlit("%");
        assert(text@ =~= percentage(kept as nat, total as nat));
    }
    text
}

impl<'a> ParsedAsciiDoc<'a> {
    /// The share of the document's lines that the policy drops, as a percentage with one
    /// decimal.
    pub fn fraction_removed(self, policy: FilterPolicy) -> (text: String)
        ensures
            text@ == percentage(remaining(reconsider(self@, policy)).len(), self@.len()),
    {
        let entries = self.reconsider_lines(policy.comments, policy.literals, policy.paragraphs);
        let kept = skip_dropped(&entries);
        proof {
            lemma_remaining(entries_text(entries@));
        }
        percent_dropped(kept.len(), entries.len())
    }
}

impl AsciiDocText {
    /// The share of the document's lines that the policy drops, as a percentage with one
    /// decimal.
    pub fn fraction_removed(&self, policy: FilterPolicy) -> (text: String)
        ensures
            text@ == dropped_percentage(self.text@, policy),
    {
        self.classify().fraction_removed(policy)
    }
}

} // verus!
