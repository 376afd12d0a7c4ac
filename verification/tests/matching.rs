use keyhint::hints::Hint;
use keyhint::matching::{do_matching, rank, score, Mark, MAX_QUERY_LEN, MAX_TEXT_LEN};

fn hint(label: &str, text: &str) -> Hint {
    Hint {
        text: text.to_string(),
        hint: label.to_string(),
        x: 0,
        y: 0,
        x_offset: 0,
        y_offset: 0,
        width: 0,
        height: 0,
        control: String::new(),
        parent: String::new(),
    }
}

fn shown(hints: &[Hint], typed: &str) -> Vec<String> {
    do_matching(hints, typed.to_string()).into_iter().map(|h| h.hint.clone()).collect()
}

fn mark(exact: bool, score: i64) -> Mark {
    Mark { exact, score }
}

#[test]
fn nothing_typed_shows_every_hint_in_order() {
    let hints = [hint("S", "Save"), hint("C", "Cancel"), hint("A", ""), hint("B", "Send")];
    assert_eq!(shown(&hints, ""), vec!["S", "C", "A", "B"]);
    let got = do_matching(&hints, String::new());
    for (h, g) in hints.iter().zip(got.iter()) {
        assert!(std::ptr::eq(h, *g));
    }
    assert!(do_matching(&[], String::new()).is_empty());
}

#[test]
fn exact_hit_comes_before_fuzzy_hits() {
    let hints = [hint("A", "Save"), hint("B", "Cancel")];
    let got = shown(&hints, "a");
    assert_eq!(got[0], "A");
    assert_eq!(got, vec!["A", "B"]);
    let swapped = [hint("B", "Cancel"), hint("A", "Save")];
    assert_eq!(shown(&swapped, "a"), vec!["A", "B"]);
}

#[test]
fn exact_hit_alone_where_no_text_matches() {
    let hints = [hint("A", "Save"), hint("B", "Close")];
    assert_eq!(shown(&hints, "a"), vec!["A"]);
    assert_eq!(shown(&hints, "A"), vec!["A"]);
}

#[test]
fn exact_hit_is_shown_once_though_its_text_matches_too() {
    let hints = [hint("S", "Save"), hint("A", "Send")];
    assert_eq!(shown(&hints, "s"), vec!["S", "A"]);
}

#[test]
fn typed_label_is_compared_in_capitals() {
    let hints = [hint("AB", "xyz"), hint("C", "qqq")];
    assert_eq!(shown(&hints, "ab"), vec!["AB"]);
    assert_eq!(shown(&hints, "aB"), vec!["AB"]);
    assert!(shown(&hints, "abc").is_empty());
}

#[test]
fn fuzzy_hits_best_first() {
    let hints = [hint("A", "Cancel"), hint("B", "Close"), hint("C", "Save"), hint("D", "Clear")];
    assert_eq!(shown(&hints, "cl"), vec!["B", "D", "A"]);
}

#[test]
fn equal_scores_keep_the_order_of_the_scan() {
    let hints = [hint("X", "Save As"), hint("Y", "Save"), hint("Z", "Save")];
    assert_eq!(shown(&hints, "sv"), vec!["X", "Y", "Z"]);
}

#[test]
fn no_hit_no_hint() {
    let hints = [hint("A", "Save"), hint("B", "Cancel")];
    assert!(shown(&hints, "xyz").is_empty());
    assert!(shown(&[], "a").is_empty());
}

#[test]
fn capital_in_typed_text_matches_capitals_only() {
    let hints = [hint("A", "saves"), hint("B", "Saves")];
    assert_eq!(shown(&hints, "Sa"), vec!["B"]);
    assert_eq!(shown(&hints, "sa"), vec!["A", "B"]);
}

#[test]
fn scores_of_the_matcher() {
    assert_eq!(score("Cancel", "a"), 15);
    assert_eq!(score("Save", "a"), 15);
    assert_eq!(score("axbycz", "abc"), 55);
    assert_eq!(score("abc", "abx"), 0);
    assert_eq!(score("Save", "sv"), 41);
    assert_eq!(score("Saves", "S"), 31);
    assert_eq!(score("saves", "S"), 0);
    assert_eq!(score("Close", "cl"), 49);
    assert_eq!(score("Cancel", "cl"), 38);
    assert_eq!(score("", "a"), 0);
    assert_eq!(score("abc", ""), 0);
}

#[test]
fn a_long_text_is_matched_like_any_other() {
    let long = "a".repeat(3_000_000);
    assert!(score(&long, "a") > 0);
    assert_eq!(score(&long, "b"), 0);
    let mut document = "x".repeat(2_000_000);
    document.push_str("Save");
    assert!(score(&document, "save") > 0);
    let hints = [hint("A", &document), hint("B", "Close")];
    assert_eq!(shown(&hints, "save"), vec!["A"]);
}

#[test]
fn a_typed_text_past_the_matcher_s_arithmetic_scores_nothing() {
    let typed = "a".repeat(MAX_QUERY_LEN + 1);
    assert_eq!(score(&typed, &typed), 0);
    assert_eq!(score("a", &typed), 0);
}

#[test]
fn a_display_text_past_the_matcher_s_arithmetic_scores_nothing() {
    let text = "a".repeat(MAX_TEXT_LEN + 1);
    assert_eq!(score(&text, "a"), 0);
}

#[test]
fn rank_puts_exact_first_then_by_score() {
    let marks = vec![
        mark(false, 10),
        mark(true, 0),
        mark(false, 0),
        mark(false, 30),
        mark(false, -4),
        mark(true, 0),
        mark(false, 10),
        mark(false, 30),
        mark(false, 20),
    ];
    assert_eq!(rank(&marks), vec![1, 5, 3, 7, 8, 0, 6]);
}

#[test]
fn rank_of_nothing_and_of_no_hit() {
    assert!(rank(&Vec::new()).is_empty());
    assert!(rank(&vec![mark(false, 0), mark(false, -1)]).is_empty());
    assert_eq!(rank(&vec![mark(true, 99), mark(true, 0)]), vec![0, 1]);
    assert_eq!(rank(&vec![mark(false, 1), mark(false, 2), mark(false, 3)]), vec![2, 1, 0]);
    assert_eq!(rank(&vec![mark(false, i64::MAX), mark(false, 1), mark(false, i64::MAX)]), vec![
        0, 2, 1
    ]);
}
