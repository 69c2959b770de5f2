use eval::accuracy::aggregate;
use eval::evaluate::{evaluate, judge, judge_prompt, prompts};
use eval::records::{ground_truth_from_rows, merge, merge_into, Cell, GroundTruth, MIN_COLUMNS};
use eval::verdict::{classify, verdict_of, Verdict};
use eval::vote::{count_of, majority, response_pool, vote, DEFAULT_TRIALS};

fn text(s: &str) -> Cell {
    Cell::Text(s.to_string(), None)
}

fn answer_row(model: &str, question: &str, answer: &str) -> Vec<Cell> {
    let mut row = vec![
        text("main"),
        text("embed-small"),
        text(model),
        text("q1"),
        text(question),
        text(answer),
    ];
    for k in 0..10 {
        row.push(text(&format!("context {}", k + 1)));
    }
    row.push(Cell::Number("1.5".to_string(), 1.5f64.to_bits()));
    row.push(text("2024-05-01"));
    row
}

fn replies(list: &[Option<&str>]) -> Vec<Option<String>> {
    list.iter().map(|r| r.map(|s| s.to_string())).collect()
}

fn index_of(pairs: &[(&str, &str)]) -> GroundTruth {
    let mut index = GroundTruth::new();
    for (q, a) in pairs {
        index.insert(q.to_string(), a.to_string());
    }
    index
}

#[test]
fn classify_exact_words() {
    assert_eq!(classify("True"), Verdict::True);
    assert_eq!(classify("false"), Verdict::False);
    assert_eq!(classify("FALSE"), Verdict::False);
}

#[test]
fn classify_scans_whole_words() {
    assert_eq!(classify("I think the answer is FALSE because..."), Verdict::False);
    assert_eq!(classify("It is true."), Verdict::True);
    assert_eq!(classify("untrue and falsehood"), Verdict::Unknown);
}

#[test]
fn classify_unknown_reply() {
    assert_eq!(classify("maybe"), Verdict::Unknown);
    assert_eq!(classify(""), Verdict::Unknown);
}

#[test]
fn classify_true_wins_over_false() {
    assert_eq!(classify("true or false?"), Verdict::True);
    assert_eq!(classify("False, not true"), Verdict::True);
}

#[test]
fn verdict_of_decides_from_searches() {
    assert_eq!(verdict_of("true", false, false), Verdict::True);
    assert_eq!(verdict_of("false", true, false), Verdict::False);
    assert_eq!(verdict_of("x", true, true), Verdict::True);
    assert_eq!(verdict_of("x", false, true), Verdict::False);
    assert_eq!(verdict_of("x", false, false), Verdict::Unknown);
}

#[test]
fn verdict_labels() {
    assert_eq!(Verdict::True.as_string(), "true");
    assert_eq!(Verdict::False.as_string(), "false");
    assert_eq!(Verdict::Unknown.as_string(), "unknown");
    assert_eq!(Verdict::Error.as_string(), "Error validating response");
}

#[test]
fn vote_five_yes_four_no() {
    let outcomes = replies(&[
        Some("no"),
        Some("yes"),
        Some("no"),
        Some("yes"),
        Some("yes"),
        Some("no"),
        Some("yes"),
        Some("no"),
        Some("yes"),
    ]);
    assert_eq!(outcomes.len(), DEFAULT_TRIALS);
    assert_eq!(vote(&outcomes), "yes");
}

#[test]
fn vote_all_failed_gives_error() {
    let outcomes: Vec<Option<String>> = vec![None; 9];
    assert_eq!(vote(&outcomes), "Error");
}

#[test]
fn vote_failures_in_minority_are_outvoted() {
    let outcomes = replies(&[None, Some("yes"), None, Some("yes"), Some("yes")]);
    assert_eq!(vote(&outcomes), "yes");
}

#[test]
fn vote_empty_pool_gives_error() {
    assert_eq!(vote(&Vec::new()), "Error");
    assert_eq!(majority(&Vec::new()), "Error");
}

#[test]
fn vote_tie_goes_to_first_seen() {
    let outcomes = replies(&[Some("no"), Some("yes"), Some("yes"), Some("no")]);
    assert_eq!(vote(&outcomes), "no");
}

#[test]
fn vote_trims_replies() {
    let outcomes = replies(&[Some("  yes\n"), Some("yes"), Some("no ")]);
    assert_eq!(response_pool(&outcomes), vec!["yes", "yes", "no"]);
    assert_eq!(vote(&outcomes), "yes");
}

#[test]
fn response_pool_marks_failures() {
    let outcomes = replies(&[None, Some("ok")]);
    assert_eq!(response_pool(&outcomes), vec!["Error", "ok"]);
}

#[test]
fn count_of_counts_exact_texts() {
    let pool: Vec<String> = vec!["a".into(), "b".into(), "a".into(), "A".into()];
    assert_eq!(count_of(&pool, &"a".to_string()), 2);
    assert_eq!(count_of(&pool, &"c".to_string()), 0);
}

#[test]
fn ground_truth_last_write_wins() {
    let index = index_of(&[("q", "first"), ("other", "x"), ("q", "second")]);
    assert_eq!(index.get(&"q".to_string()), Some("second".to_string()));
    assert_eq!(index.get(&"other".to_string()), Some("x".to_string()));
    assert_eq!(index.get(&"Q".to_string()), None);
}

#[test]
fn ground_truth_from_sheet_rows() {
    let rows = vec![
        vec![text("1"), text("2+2?"), text("4")],
        vec![text("2"), text("short")],
        vec![text("3"), text("capital?"), text("Paris"), text("extra")],
    ];
    let index = ground_truth_from_rows(&rows);
    assert_eq!(index.get(&"2+2?".to_string()), Some("4".to_string()));
    assert_eq!(index.get(&"capital?".to_string()), Some("Paris".to_string()));
    assert_eq!(index.get(&"short".to_string()), None);
}

#[test]
fn merge_absent_question_gets_marker() {
    let index = index_of(&[("known?", "yes")]);
    let records = merge(&vec![answer_row("m", "unknown?", "a")], &index);
    assert_eq!(records.len(), 1);
    assert_eq!(records[0].ground_truth, "N/A");
}

#[test]
fn merge_drops_short_rows() {
    let index = index_of(&[("known?", "yes")]);
    let mut short = answer_row("m", "known?", "a");
    short.truncate(5);
    let mut seventeen = answer_row("m", "known?", "a");
    seventeen.truncate(MIN_COLUMNS - 1);
    let rows = vec![short, answer_row("m", "known?", "b"), seventeen];
    let records = merge(&rows, &index);
    assert_eq!(records.len(), 1);
    assert!(records.len() < rows.len());
    assert_eq!(records[0].generated_answer, "b");
    assert_eq!(records[0].ground_truth, "yes");
}

#[test]
fn merge_reads_columns() {
    let index = index_of(&[("2+2?", "4")]);
    let records = merge(&vec![answer_row("llama", "2+2?", "four")], &index);
    let r = &records[0];
    assert_eq!(r.branch_name, "main");
    assert_eq!(r.embedding_model, "embed-small");
    assert_eq!(r.judged_model, "llama");
    assert_eq!(r.question_id, "q1");
    assert_eq!(r.question, "2+2?");
    assert_eq!(r.ground_truth, "4");
    assert_eq!(r.generated_answer, "four");
    assert_eq!(r.retrieved_contexts.len(), 10);
    assert_eq!(r.retrieved_contexts[0], "context 1");
    assert_eq!(r.retrieved_contexts[9], "context 10");
    assert_eq!(f64::from_bits(r.elapsed_seconds_bits), 1.5);
    assert_eq!(r.date, "2024-05-01");
}

#[test]
fn merge_elapsed_seconds_fallbacks() {
    let index = GroundTruth::new();
    let cells = vec![
        Cell::Text("2.25".to_string(), Some(2.25f64.to_bits())),
        Cell::Text("soon".to_string(), None),
        Cell::Number("7".to_string(), 7.0f64.to_bits()),
        Cell::Empty,
        Cell::Other("true".to_string()),
    ];
    let expected = [2.25, 0.0, 7.0, 0.0, 0.0];
    for (cell, want) in cells.into_iter().zip(expected.iter()) {
        let mut row = answer_row("m", "q", "a");
        row[16] = cell;
        let records = merge(&vec![row], &index);
        assert_eq!(f64::from_bits(records[0].elapsed_seconds_bits), *want);
    }
}

#[test]
fn merge_into_concatenates_sources_in_order() {
    let index = GroundTruth::new();
    let mut all = Vec::new();
    merge_into(&mut all, &vec![answer_row("m", "q1", "a1")], &index);
    merge_into(&mut all, &vec![answer_row("m", "q2", "a2"), answer_row("m", "q3", "a3")], &index);
    let answers: Vec<&str> = all.iter().map(|r| r.generated_answer.as_str()).collect();
    assert_eq!(answers, vec!["a1", "a2", "a3"]);
}

#[test]
fn judge_prompt_layout() {
    let index = index_of(&[("2+2?", "4")]);
    let records = merge(&vec![answer_row("m", "2+2?", "four")], &index);
    assert_eq!(
        judge_prompt(&records[0], "Reply with 'Yes' or 'No' only."),
        "Consider the question: 2+2?\nGround truth: 4\nGenerated answer: four\n\nReply with 'Yes' or 'No' only."
    );
    assert_eq!(prompts(&records, "X").len(), 1);
}

#[test]
fn judge_without_calls_is_error() {
    assert_eq!(judge(&None), Verdict::Error);
    assert_eq!(judge(&Some(replies(&[Some("FALSE")]))), Verdict::False);
    assert_eq!(judge(&Some(replies(&[None, None]))), Verdict::Unknown);
}

#[test]
fn evaluate_keeps_record_order() {
    let outcomes = vec![
        Some(replies(&[Some("true")])),
        None,
        Some(replies(&[Some("no idea")])),
        Some(replies(&[Some("false"), Some("false"), Some("true")])),
    ];
    assert_eq!(
        evaluate(&outcomes),
        vec![Verdict::True, Verdict::Error, Verdict::Unknown, Verdict::False]
    );
}

#[test]
fn aggregate_sixty_percent() {
    let index = GroundTruth::new();
    let rows: Vec<Vec<Cell>> = (0..10).map(|i| answer_row("m", &format!("q{}", i), "a")).collect();
    let records = merge(&rows, &index);
    let mut verdicts = vec![Verdict::True; 6];
    verdicts.extend(vec![Verdict::False, Verdict::Unknown, Verdict::Error, Verdict::False]);
    let entries = aggregate(&records, &verdicts, &"judge".to_string());
    assert_eq!(entries.len(), 1);
    assert_eq!(entries[0].model_identifier, "m");
    assert_eq!(entries[0].correct, 6);
    assert_eq!(entries[0].total, 10);
    assert_eq!(entries[0].judge_model_identifier, "judge");
    let percent = 100.0 * entries[0].correct as f64 / entries[0].total as f64;
    assert_eq!(percent, 60.0);
}

#[test]
fn aggregate_groups_models_in_first_seen_order() {
    let index = GroundTruth::new();
    let rows = vec![
        answer_row("b", "q1", "x"),
        answer_row("a", "q2", "x"),
        answer_row("b", "q3", "x"),
    ];
    let records = merge(&rows, &index);
    let verdicts = vec![Verdict::True, Verdict::True, Verdict::False];
    let entries = aggregate(&records, &verdicts, &"j".to_string());
    assert_eq!(entries.len(), 2);
    assert_eq!(entries[0].model_identifier, "b");
    assert_eq!((entries[0].correct, entries[0].total), (1, 2));
    assert_eq!(entries[1].model_identifier, "a");
    assert_eq!((entries[1].correct, entries[1].total), (1, 1));
}

#[test]
fn aggregate_is_repeatable() {
    let index = GroundTruth::new();
    let rows = vec![answer_row("a", "q1", "x"), answer_row("b", "q2", "x")];
    let records = merge(&rows, &index);
    let verdicts = vec![Verdict::Unknown, Verdict::True];
    let first = aggregate(&records, &verdicts, &"j".to_string());
    let second = aggregate(&records, &verdicts, &"j".to_string());
    assert_eq!(first.len(), second.len());
    for (x, y) in first.iter().zip(second.iter()) {
        assert_eq!(x.model_identifier, y.model_identifier);
        assert_eq!((x.correct, x.total), (y.correct, y.total));
        assert_eq!(x.judge_model_identifier, y.judge_model_identifier);
    }
}

#[test]
fn aggregate_pairs_only_as_far_as_both_lists_go() {
    let index = GroundTruth::new();
    let rows = vec![answer_row("a", "q1", "x"), answer_row("a", "q2", "x")];
    let records = merge(&rows, &index);
    let entries = aggregate(&records, &vec![Verdict::True], &"j".to_string());
    assert_eq!((entries[0].correct, entries[0].total), (1, 1));
    assert!(aggregate(&records, &Vec::new(), &"j".to_string()).is_empty());
}

#[test]
fn end_to_end_single_question() {
    let index = ground_truth_from_rows(&vec![vec![text("1"), text("2+2?"), text("4")]]);
    let records = merge(&vec![answer_row("llama", "2+2?", "four")], &index);
    assert_eq!(records[0].ground_truth, "4");
    let asked = prompts(&records, "Is it correct?");
    let outcomes: Vec<Option<Vec<Option<String>>>> = asked
        .iter()
        .map(|_| Some(vec![Some("True, the answer matches.".to_string()); DEFAULT_TRIALS]))
        .collect();
    let verdicts = evaluate(&outcomes);
    assert_eq!(verdicts, vec![Verdict::True]);
    let entries = aggregate(&records, &verdicts, &"judge".to_string());
    assert_eq!(entries.len(), 1);
    assert_eq!(entries[0].model_identifier, "llama");
    let percent = 100.0 * entries[0].correct as f64 / entries[0].total as f64;
    assert_eq!(percent, 100.0);
}
