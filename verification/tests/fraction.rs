use presciidoc::asciidoc::AsciiDocText;
use presciidoc::filter::FilterPolicy;
use presciidoc::fraction::percent_dropped;
use presciidoc::parse::Line;
use presciidoc::parse::ParsedAsciiDoc;

#[test]
fn three_of_ten_lines_dropped_are_thirty_percent() {
    let document = AsciiDocText::new(String::from(
        "one\n// two\nthree\nfour\n// five\nsix\nseven\n// eight\nnine\nten\n",
    ));
    let policy = FilterPolicy { comments: false, literals: true, paragraphs: true };
    assert_eq!(document.fraction_removed(policy), "30.0%");
}

#[test]
fn nothing_dropped_is_zero_percent() {
    let document = AsciiDocText::new(String::from("one\n// two\n"));
    let policy = FilterPolicy { comments: true, literals: true, paragraphs: true };
    assert_eq!(document.fraction_removed(policy), "0.0%");
    assert_eq!(percent_dropped(5, 5), "0.0%");
}

#[test]
fn everything_dropped_is_a_hundred_percent() {
    let document = AsciiDocText::new(String::from("one\n// two\n----\n"));
    let policy = FilterPolicy { comments: false, literals: false, paragraphs: false };
    assert_eq!(document.fraction_removed(policy), "100.0%");
    assert_eq!(percent_dropped(0, 7), "100.0%");
}

#[test]
fn the_fraction_of_an_empty_document_is_no_number() {
    let document = AsciiDocText::new(String::new());
    let policy = FilterPolicy { comments: false, literals: true, paragraphs: true };
    assert_eq!(document.fraction_removed(policy), "NaN%");
    assert_eq!(percent_dropped(0, 0), "NaN%");
}

#[test]
fn the_percentage_has_one_decimal() {
    assert_eq!(percent_dropped(7, 10), "30.0%");
    assert_eq!(percent_dropped(1, 2), "50.0%");
    assert_eq!(percent_dropped(7, 8), "12.5%");
    assert_eq!(percent_dropped(999, 1000), "0.1%");
    assert_eq!(percent_dropped(1, 1000), "99.9%");
}

#[test]
fn the_percentage_is_rounded_to_the_nearest_tenth() {
    assert_eq!(percent_dropped(2, 3), "33.3%");
    assert_eq!(percent_dropped(1, 3), "66.7%");
    assert_eq!(percent_dropped(6, 7), "14.3%");
    assert_eq!(percent_dropped(1, 7), "85.7%");
    assert_eq!(percent_dropped(9999, 10000), "0.0%");
    assert_eq!(percent_dropped(1, 10000), "100.0%");
    assert_eq!(percent_dropped(1999, 2001), "0.1%");
}

#[test]
fn a_percentage_half_way_between_two_tenths_goes_to_the_even_one() {
    assert_eq!(percent_dropped(15, 16), "6.2%");
    assert_eq!(percent_dropped(13, 16), "18.8%");
    assert_eq!(percent_dropped(73, 80), "8.8%");
    assert_eq!(percent_dropped(79, 80), "1.2%");
    assert_eq!(percent_dropped(1999, 2000), "0.0%");
    assert_eq!(percent_dropped(1997, 2000), "0.2%");
}

#[test]
fn large_counts_do_not_overflow() {
    assert_eq!(percent_dropped(0, usize::MAX), "100.0%");
    assert_eq!(percent_dropped(usize::MAX, usize::MAX), "0.0%");
    assert_eq!(percent_dropped(usize::MAX - 1, usize::MAX), "0.0%");
    assert_eq!(percent_dropped(usize::MAX / 2, usize::MAX), "50.0%");
}

#[test]
fn the_fraction_goes_by_the_categories() {
    let parsed = ParsedAsciiDoc {
        lines: vec![Line::Para("a"), Line::Comment("b"), Line::Literal("c"), Line::Para("")],
    };
    let policy = FilterPolicy { comments: false, literals: true, paragraphs: true };
    assert_eq!(parsed.fraction_removed(policy), "25.0%");
    let parsed = ParsedAsciiDoc {
        lines: vec![Line::Comment("a"), Line::Comment("b"), Line::Literal("c")],
    };
    assert_eq!(parsed.fraction_removed(policy), "66.7%");
    let parsed = ParsedAsciiDoc { lines: vec![Line::Comment("a")] };
    assert_eq!(parsed.fraction_removed(policy), "100.0%");
    let parsed = ParsedAsciiDoc { lines: Vec::new() };
    assert_eq!(parsed.fraction_removed(policy), "NaN%");
}

#[test]
fn the_percentage_agrees_with_floating_point_where_that_is_exact_enough() {
    for total in 1..=64usize {
        for kept in 0..=total {
            let fraction = 1.0 - (kept as f32 / total as f32);
            let expected = format!("{:.1}%", fraction * 100.0);
            assert_eq!(percent_dropped(kept, total), expected, "{} of {}", kept, total);
        }
    }
}
