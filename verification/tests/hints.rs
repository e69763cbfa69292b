use herdr_pluck::hints::{assign_hints, generate_hints, hint_alphabet, hint_width, MAX_HINT_WIDTH};
use herdr_pluck::model::MatchSpan;

fn span(line: usize, start: usize, text: &str) -> MatchSpan {
    MatchSpan {
        line,
        start,
        end: start + text.len(),
        text: text.to_string(),
        pattern: "word".to_string(),
        priority: 10,
    }
}

#[test]
fn alphabet_is_home_row_first_and_complete() {
    let letters: String = hint_alphabet().into_iter().collect();
    assert_eq!(letters, "asdfghjklqwertyuiopzxcvbnm");
}

#[test]
fn width_is_one_until_the_alphabet_runs_out() {
    assert_eq!(hint_width(0), 1);
    assert_eq!(hint_width(26), 1);
    assert_eq!(hint_width(27), MAX_HINT_WIDTH);
    assert_eq!(hint_width(10_000), 2);
}

#[test]
fn generated_hints_are_letters_then_pairs() {
    let one = generate_hints(1);
    assert_eq!(one.len(), 26);
    assert_eq!(one[0], "a");
    assert_eq!(one[25], "m");

    let two = generate_hints(2);
    assert_eq!(two.len(), 676);
    assert_eq!(two[0], "aa");
    assert_eq!(two[1], "as");
    assert_eq!(two[26], "sa");
    assert_eq!(two[675], "mm");

    assert!(generate_hints(0).is_empty());
    assert!(generate_hints(3).is_empty());
}

#[test]
fn duplicate_texts_share_one_hint_in_first_visible_order() {
    let assignments = assign_hints(vec![
        span(0, 0, "zeta"),
        span(0, 5, "alpha"),
        span(1, 0, "zeta"),
    ]);

    assert_eq!(assignments.len(), 2);
    assert_eq!(assignments[0].text, "zeta");
    assert_eq!(assignments[0].hint, "a");
    assert_eq!(assignments[0].occurrences.len(), 2);
    assert_eq!(assignments[0].occurrences[1].line, 1);
    assert_eq!(assignments[1].text, "alpha");
    assert_eq!(assignments[1].hint, "s");
    assert_eq!(assignments[1].occurrences.len(), 1);
}

#[test]
fn many_texts_get_two_letter_hints_and_are_capped() {
    let spans: Vec<MatchSpan> = (0..700).map(|i| span(i, 0, &format!("t{i}"))).collect();
    let assignments = assign_hints(spans);

    assert_eq!(assignments.len(), 676);
    assert_eq!(assignments[0].hint, "aa");
    assert_eq!(assignments[0].text, "t0");
    assert_eq!(assignments[675].hint, "mm");
    assert_eq!(assignments[675].text, "t675");
}

#[test]
fn no_matches_yield_no_assignments() {
    assert!(assign_hints(Vec::new()).is_empty());
}
