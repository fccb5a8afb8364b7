use msr_commit_viewer::database::{CommitDatabase, CommitRecord, Rating};
use msr_commit_viewer::evaluation::{
    classify, colored_report, csv_document, evaluate_keywords, EvaluatedKeyword, EvaluationResult,
    Tone,
};
use msr_commit_viewer::text::push_decimal;

fn rated(votes: &[bool]) -> CommitRecord {
    let mut c = CommitRecord::new("https://github.com/o/r".to_string(), "h".to_string());
    for (i, v) in votes.iter().enumerate() {
        c.set_rating(format!("rater{}", i), Rating { is_refactoring: *v, comment: String::new() });
    }
    c
}

#[test]
fn classification_by_majority() {
    assert_eq!(classify(&rated(&[true, true, false])), Some(EvaluationResult::TruePositive));
    assert_eq!(classify(&rated(&[true, false])), Some(EvaluationResult::Unsure));
    assert_eq!(classify(&rated(&[])), Some(EvaluationResult::Unsure));
    assert_eq!(classify(&rated(&[false, false, true])), Some(EvaluationResult::FalsePositive));
}

#[test]
fn moved_commit_is_not_counted() {
    let mut c = rated(&[true, true, true]);
    c.moved = true;
    assert_eq!(classify(&c), None);
    let mut db = CommitDatabase::new();
    db.push_keyword("kw".to_string(), vec![c, rated(&[false]), rated(&[])]).unwrap();
    let result = evaluate_keywords(&db);
    assert_eq!(result.len(), 1);
    assert_eq!(result[0].keyword, "kw");
    assert_eq!(result[0].true_positives, 0);
    assert_eq!(result[0].false_positives, 1);
    assert_eq!(result[0].unsure, 1);
}

#[test]
fn evaluation_per_keyword_in_order() {
    let mut db = CommitDatabase::new();
    db.push_keyword("one".to_string(), vec![rated(&[true]), rated(&[true, true, false])]).unwrap();
    db.push_keyword("two".to_string(), Vec::new()).unwrap();
    let result = evaluate_keywords(&db);
    assert_eq!(result.len(), 2);
    assert_eq!(result[0].keyword, "one");
    assert_eq!(result[0].true_positives, 2);
    assert_eq!(result[1].keyword, "two");
    assert_eq!(result[1].true_positives + result[1].false_positives + result[1].unsure, 0);
}

fn sample_row() -> EvaluatedKeyword {
    EvaluatedKeyword { keyword: "extract".to_string(), true_positives: 12, false_positives: 0, unsure: 305 }
}

#[test]
fn csv_row_and_document() {
    assert_eq!(sample_row().to_csv_row(), "extract,12,0,305\n");
    let doc = csv_document(&vec![sample_row(), EvaluatedKeyword {
        keyword: "inline".to_string(),
        true_positives: 1,
        false_positives: 2,
        unsure: 3,
    }]);
    assert_eq!(
        doc,
        "keyword,true_positives,false_positives,unsure\nextract,12,0,305\ninline,1,2,3\n"
    );
    assert_eq!(csv_document(&Vec::new()), "keyword,true_positives,false_positives,unsure\n");
}

#[test]
fn colored_text_has_ansi_headings() {
    let expected = "extract:\n  \x1b[32mTrue Positives\x1b[0m: 12\n  \x1b[36mFalse Positives\x1b[0m: 0\n  Unsure: 305\n";
    assert_eq!(sample_row().to_colored_string(), expected);
    assert_eq!(colored_report(&vec![sample_row(), sample_row()]), format!("{}{}", expected, expected));
}

#[test]
fn styled_pieces() {
    let pieces = sample_row().to_styled_string();
    let texts: Vec<&str> = pieces.iter().map(|p| p.text.as_str()).collect();
    assert_eq!(
        texts,
        vec!["extract:\n", "  True Positives", ": 12\n", "  False Positives", ": 0\n", "  Unsure: 305\n"]
    );
    let tones: Vec<Tone> = pieces.iter().map(|p| p.tone).collect();
    assert_eq!(
        tones,
        vec![Tone::Primary, Tone::Secondary, Tone::Primary, Tone::Tertiary, Tone::Primary, Tone::Primary]
    );
}

#[test]
fn decimal_digits() {
    for (n, text) in [(0usize, "0"), (7, "7"), (10, "10"), (12345, "12345"), (usize::MAX, "18446744073709551615")] {
        let mut s = "n=".to_string();
        push_decimal(&mut s, n);
        assert_eq!(s, format!("n={}", text));
    }
}
