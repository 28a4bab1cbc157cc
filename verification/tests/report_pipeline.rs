use qperf::aggregate::aggregate;
use qperf::pipeline::qperf;
use qperf::report::render_report;
use qperf::types::select_types;

fn s(x: &str) -> String {
    x.to_string()
}

fn row(fields: &[&str]) -> Vec<String> {
    fields.iter().map(|f| f.to_string()).collect()
}

// The grid [['Q','G','A']] comes from one document declaring SET #1 with
// three question cells.
const GRID_DOC: &str = "Qx\tSET #1\tGx\tz\tAx";

#[test]
fn scenario_tossup_and_bonus_for_alice() {
    // Grid round 0 is Q,G,A. A correct tossup on question 1 counts an
    // attempt and a correct under Q; a bonus error on question 2 counts a
    // bonus attempt under G; nothing else moves, and nothing warns.
    let grid = vec![vec!['Q', 'G', 'A']];
    let rows = vec![
        row(&["1", "1", "Alice", "1", "TC"]),
        row(&["1", "2", "Alice", "1", "BE"]),
    ];
    let names = vec![s("Alice")];
    let types = select_types(&vec![]);
    let t = aggregate(&rows, &grid, &names, &types);
    // Columns, ascending: A=0 G=1 I=2 M=3 Q=4 R=5 S=6 X=7.
    for c in 0..8 {
        assert_eq!(t.attempts[0][c], if c == 4 { 1 } else { 0 });
        assert_eq!(t.correct[0][c], if c == 4 { 1 } else { 0 });
        assert_eq!(t.bonus_attempts[0][c], if c == 1 { 1 } else { 0 });
        assert_eq!(t.bonus_correct[0][c], 0);
    }
    assert!(t.warnings.is_empty());
    assert!(!t.any_warnings);
}

#[test]
fn scenario_out_of_bounds_row_warns_once() {
    // Question 9 does not exist in a three-question round: exactly one
    // warning, no increments anywhere; Bob still appears in the ordering
    // (his row passed the event filter) with all zeros.
    let grid = vec![vec!['Q', 'G', 'A']];
    let rows = vec![row(&["1", "9", "Bob", "2", "TE"])];
    let names = vec![s("Bob")];
    let types = select_types(&vec![]);
    let t = aggregate(&rows, &grid, &names, &types);
    assert_eq!(t.warnings.len(), 1);
    assert_eq!(t.warnings[0], "skipped: no question type for round 1, question 9");
    assert!(t.any_warnings);
    for c in 0..8 {
        assert_eq!(t.attempts[0][c], 0);
        assert_eq!(t.correct[0][c], 0);
        assert_eq!(t.bonus_attempts[0][c], 0);
        assert_eq!(t.bonus_correct[0][c], 0);
    }
    let report = render_report(&names, &t, &types, false);
    assert!(report.contains("Bob\t0.0"));
}

#[test]
fn question_21_counts_under_the_general_category() {
    // The 21st question position is always the default/general category,
    // whatever the grid holds there — even when the round itself is short.
    let grid = vec![vec!['Q', 'G', 'A']];
    let rows = vec![row(&["1", "21", "Amy", "1", "TC"])];
    let names = vec![s("Amy")];
    let types = select_types(&vec![]);
    let t = aggregate(&rows, &grid, &names, &types);
    assert!(t.warnings.is_empty());
    assert_eq!(t.attempts[0][1], 1);
    assert_eq!(t.correct[0][1], 1);
}

#[test]
fn unparseable_round_is_a_warned_skip() {
    let grid = vec![vec!['Q', 'G', 'A']];
    let rows = vec![row(&["one", "1", "Amy", "1", "TC"])];
    let names = vec![s("Amy")];
    let types = select_types(&vec![]);
    let t = aggregate(&rows, &grid, &names, &types);
    assert_eq!(t.warnings.len(), 1);
    assert_eq!(t.warnings[0], "skipped: no question type for round 0, question 1");
}

#[test]
fn report_exact_single_type() {
    let docs = vec![s(GRID_DOC)];
    let rows = vec![
        row(&["1", "1", "Alice", "1", "TC"]),
        row(&["1", "2", "Alice", "1", "BE"]),
    ];
    let (warnings, report) = qperf(&docs, &rows, &vec!['Q'], &s(""), false).unwrap();
    assert!(warnings.is_empty());
    // The bonus error resolves to type G, which is not selected: it falls
    // back to column 0, here the Q column — the defined index-0 fallback.
    assert_eq!(
        report,
        "Quizzer\tQ Attempts\tQ Correct\tQ Bonus Attempts\tQ Bonus Correct\nAlice\t1.0\t1.0\t1.0\t0.0\n"
    );
}

#[test]
fn report_round_option_adds_a_leading_column() {
    let docs = vec![s(GRID_DOC)];
    let rows = vec![row(&["1", "1", "Alice", "1", "TC"])];
    let (_, report) = qperf(&docs, &rows, &vec!['Q'], &s(""), true).unwrap();
    assert!(report.starts_with("Round\tQuizzer\t"));
    assert!(report.contains("\n\tAlice\t1.0"));
}

#[test]
fn report_one_data_row_per_distinct_quizzer() {
    let docs = vec![s(GRID_DOC)];
    let rows = vec![
        row(&["1", "1", "Zoe", "2", "TC"]),
        row(&["1", "2", "Amy", "1", "BE"]),
        row(&["1", "3", "Zoe", "1", "TE"]),
    ];
    let (_, report) = qperf(&docs, &rows, &vec![], &s(""), false).unwrap();
    assert_eq!(report.lines().count(), 3);
    let lines: Vec<&str> = report.lines().collect();
    assert!(lines[1].starts_with("Amy\t"));
    assert!(lines[2].starts_with("Zoe\t"));
}

#[test]
fn running_twice_is_byte_identical() {
    let docs = vec![s(GRID_DOC), s("Rx\tSET #2\tSx")];
    let rows = vec![
        row(&["1", "1", "Alice", "1", "TC"]),
        row(&["1", "9", "Bob", "2", "TE"]),
        row(&["2", "2", "Cara", "3", "BC"]),
    ];
    let first = qperf(&docs, &rows, &vec![], &s(""), false).unwrap();
    let second = qperf(&docs, &rows, &vec![], &s(""), false).unwrap();
    assert_eq!(first.0, second.0);
    assert_eq!(first.1, second.1);
}

#[test]
fn document_errors_are_fatal() {
    let docs = vec![s("no marker")];
    let rows = vec![row(&["1", "1", "Alice", "1", "TC"])];
    assert!(qperf(&docs, &rows, &vec![], &s(""), false).is_err());
    let docs2 = vec![s("SET #zzz")];
    assert!(qperf(&docs2, &rows, &vec![], &s(""), false).is_err());
}

#[test]
fn empty_inputs_yield_header_only() {
    let (warnings, report) = qperf(&vec![], &vec![], &vec![], &s(""), false).unwrap();
    assert!(warnings.is_empty());
    assert_eq!(report.lines().count(), 1);
    assert!(report.starts_with("Quizzer\tA Attempts\tA Correct\tA Bonus Attempts\tA Bonus Correct\tG Attempts"));
    assert!(report.ends_with("X Bonus Correct\n"));
}

#[test]
fn tournament_filter_restricts_the_run() {
    let docs = vec![s(GRID_DOC)];
    let rows = vec![
        row(&["1", "1", "Alice", "1", "TC", "Spring"]),
        row(&["1", "2", "Bob", "2", "TC", "Fall"]),
    ];
    let (_, report) = qperf(&docs, &rows, &vec![], &s("Spring"), false).unwrap();
    assert!(report.contains("Alice"));
    assert!(!report.contains("Bob"));
}
