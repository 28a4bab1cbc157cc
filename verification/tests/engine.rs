use qperf::extract::{extract_round, extract_types};
use qperf::grid::build_grid;
use qperf::events::filter_events;
use qperf::numbers::{parse_field_u64, u64_to_string};
use qperf::quizzers::{quizzer_index_of, quizzer_names};
use qperf::types::{get_question_types, select_types};
use qperf::QuizError;

fn s(x: &str) -> String {
    x.to_string()
}

fn row(fields: &[&str]) -> Vec<String> {
    fields.iter().map(|f| f.to_string()).collect()
}

#[test]
fn question_types_are_the_eight_codes() {
    assert_eq!(get_question_types(), vec!['A', 'G', 'I', 'M', 'Q', 'R', 'S', 'X']);
}

#[test]
fn select_types_sorts_and_dedups() {
    assert_eq!(select_types(&vec!['Q', 'A', 'Q', 'G']), vec!['A', 'G', 'Q']);
    assert_eq!(select_types(&vec![]), get_question_types());
}

#[test]
fn extract_round_reads_the_marker() {
    assert_eq!(extract_round("intro text SET #12 more"), Ok(12));
    assert_eq!(extract_round("SET #3"), Ok(3));
}

#[test]
fn extract_round_missing_marker() {
    assert_eq!(extract_round("no marker here"), Err(QuizError::MissingRoundNumber));
    assert_eq!(extract_round(""), Err(QuizError::MissingRoundNumber));
}

#[test]
fn extract_round_invalid_number() {
    assert_eq!(extract_round("SET #"), Err(QuizError::InvalidRoundNumber));
    assert_eq!(extract_round("SET #x"), Err(QuizError::InvalidRoundNumber));
    assert_eq!(extract_round("SET #0"), Err(QuizError::InvalidRoundNumber));
}

#[test]
fn extract_round_takes_first_marker() {
    assert_eq!(extract_round("SET #2 and later SET #9"), Ok(2));
}

#[test]
fn extract_types_takes_even_cells() {
    // Even-indexed tab-separated segments are candidate cells; each cell of
    // length two or more contributes its second-to-last character.
    let codes = extract_types("xQy\tskip\txGy\tskip\txAy");
    assert_eq!(codes, vec!['Q', 'G', 'A']);
}

#[test]
fn extract_types_skips_short_cells() {
    // Cells of length <= 1 carry no code; odd-indexed segments never do.
    let codes = extract_types("Qx\tZZ\t\tZZ\tA\tZZ\tGx");
    assert_eq!(codes, vec!['Q', 'G']);
}

#[test]
fn extract_types_empty_text() {
    assert_eq!(extract_types(""), Vec::<char>::new());
}

#[test]
fn grid_concatenates_and_repaginates() {
    // Two documents of 3 codes each become one round of 6: document
    // boundaries are discarded and the flat sequence is paged at 20.
    let pairs = vec![(1usize, vec!['A', 'G', 'Q']), (2usize, vec!['R', 'S', 'X'])];
    let g = build_grid(&pairs);
    assert_eq!(g, vec![vec!['A', 'G', 'Q', 'R', 'S', 'X']]);
}

#[test]
fn grid_pages_at_twenty() {
    let mut codes: Vec<char> = Vec::new();
    for _ in 0..25 {
        codes.push('G');
    }
    let g = build_grid(&vec![(1usize, codes)]);
    assert_eq!(g.len(), 2);
    assert_eq!(g[0].len(), 20);
    assert_eq!(g[1].len(), 5);
}

#[test]
fn grid_last_document_wins_a_round() {
    let pairs = vec![(1usize, vec!['A']), (1usize, vec!['Q'])];
    let g = build_grid(&pairs);
    assert_eq!(g, vec![vec!['Q']]);
}

#[test]
fn grid_round_trip_with_full_pages() {
    // A document declaring SET #3 behind two complete rounds of twenty
    // comes back unchanged as grid row 2.
    let full1: Vec<char> = vec!['G'; 20];
    let full2: Vec<char> = vec!['R'; 20];
    let d3 = "Qx\tSET #3\tAx\tz\tSx";
    let r3 = extract_round(d3).unwrap();
    let c3 = extract_types(d3);
    assert_eq!(r3, 3);
    assert_eq!(c3, vec!['Q', 'A', 'S']);
    let pairs = vec![(1usize, full1), (2usize, full2), (r3, c3.clone())];
    let g = build_grid(&pairs);
    assert_eq!(g.len(), 3);
    assert_eq!(g[2], c3);
}

#[test]
fn filter_keeps_only_counted_codes() {
    let rows = vec![
        row(&["1", "1", "Alice", "1", "TC"]),
        row(&["1", "2", "Bob", "2", "XX"]),
        row(&["1", "3", "Cara", "1", "BE"]),
        row(&["1", "4"]),
    ];
    let kept = filter_events(&rows, &s(""));
    assert_eq!(kept.len(), 2);
    assert_eq!(kept[0][2], "Alice");
    assert_eq!(kept[1][2], "Cara");
}

#[test]
fn filter_by_tournament_name() {
    let rows = vec![
        row(&["1", "1", "Alice", "1", "TC", "Spring"]),
        row(&["1", "2", "Bob", "2", "TC", "Fall"]),
        row(&["1", "3", "Cara", "1", "TC"]),
    ];
    let kept = filter_events(&rows, &s("Spring"));
    assert_eq!(kept.len(), 1);
    assert_eq!(kept[0][2], "Alice");
}

#[test]
fn quizzer_order_groups_by_team_then_appearance() {
    let rows = vec![
        row(&["1", "1", "Zoe", "2", "TC"]),
        row(&["1", "2", "Amy", "1", "TC"]),
        row(&["1", "3", "Ben", "2", "TC"]),
        row(&["1", "4", "Zoe", "1", "TC"]),
    ];
    // Teams ascending, names in order of first appearance inside a team;
    // Zoe first appeared under team 2 and is never added again.
    let names = quizzer_names(&rows);
    assert_eq!(names, vec![s("Amy"), s("Zoe"), s("Ben")]);
}

#[test]
fn quizzer_unparseable_team_defaults_to_zero() {
    let rows = vec![
        row(&["1", "1", "Amy", "5", "TC"]),
        row(&["1", "2", "Ben", "team?", "TC"]),
    ];
    let names = quizzer_names(&rows);
    assert_eq!(names, vec![s("Ben"), s("Amy")]);
}

#[test]
fn quizzer_lookup_falls_back_to_zero() {
    let names = vec![s("Amy"), s("Ben")];
    assert_eq!(quizzer_index_of(&names, &s("Ben")), 1);
    assert_eq!(quizzer_index_of(&names, &s("Nobody")), 0);
}

#[test]
fn numeric_fields_default_to_zero() {
    assert_eq!(parse_field_u64("12"), 12);
    assert_eq!(parse_field_u64("x"), 0);
    assert_eq!(parse_field_u64(""), 0);
    assert_eq!(parse_field_u64("\"3\""), 0);
}

#[test]
fn numbers_render_in_base_ten() {
    assert_eq!(u64_to_string(0), "0");
    assert_eq!(u64_to_string(7), "7");
    assert_eq!(u64_to_string(12345), "12345");
}

#[test]
fn error_messages_name_the_problem() {
    assert!(QuizError::MissingRoundNumber.message().contains("SET #"));
    assert!(QuizError::InvalidRoundNumber.message().contains("round number"));
}
