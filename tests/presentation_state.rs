use msr_commit_viewer::database::{n_a, moved, CommitRecord, Rating};
use msr_commit_viewer::presentation::{commit_title, rating_form, submission, Choice};

fn record() -> CommitRecord {
    CommitRecord::new("https://github.com/o/r".to_string(), "abc".to_string())
}

#[test]
fn defaults_of_a_new_commit() {
    let c = record();
    assert_eq!(n_a(), "N/A");
    assert!(!moved());
    assert_eq!(c.section, "N/A");
    assert_eq!(c.time, "N/A");
    assert!(!c.moved);
    assert!(c.ratings.is_empty());
}

#[test]
fn form_without_rating_defaults_to_not_refactoring() {
    let f = rating_form(&record(), &"ann".to_string(), false);
    assert_eq!(f.selected, Choice::Invalid);
    assert_eq!(f.comment, "");
    assert!(f.valid_enabled && f.invalid_enabled && f.broken_enabled && f.comment_enabled);
}

#[test]
fn form_shows_earlier_rating() {
    let mut c = record();
    c.set_rating("ann".to_string(), Rating { is_refactoring: true, comment: "rename".to_string() });
    let f = rating_form(&c, &"ann".to_string(), false);
    assert_eq!(f.selected, Choice::Valid);
    assert_eq!(f.comment, "rename");
    let other = rating_form(&c, &"bob".to_string(), false);
    assert_eq!(other.selected, Choice::Invalid);
    assert_eq!(other.comment, "");
}

#[test]
fn form_of_moved_commit_is_broken() {
    let mut c = record();
    c.moved = true;
    c.set_rating("ann".to_string(), Rating { is_refactoring: true, comment: "gone".to_string() });
    let f = rating_form(&c, &"ann".to_string(), false);
    assert_eq!(f.selected, Choice::Broken);
    assert_eq!(f.comment, "gone");
    assert!(!f.valid_enabled && !f.invalid_enabled);
    assert!(f.broken_enabled && f.comment_enabled);
}

#[test]
fn readonly_form_is_disabled() {
    let f = rating_form(&record(), &"ann".to_string(), true);
    assert!(!f.valid_enabled && !f.invalid_enabled && !f.broken_enabled && !f.comment_enabled);
}

#[test]
fn submission_from_choice() {
    let s = submission(Choice::Valid, "x".to_string());
    assert!(s.is_refactoring && !s.moved);
    assert_eq!(s.comment, "x");
    let s = submission(Choice::Invalid, String::new());
    assert!(!s.is_refactoring && !s.moved);
    let s = submission(Choice::Broken, String::new());
    assert!(!s.is_refactoring && s.moved);
}

#[test]
fn titles() {
    let mut c = record();
    c.section = "core".to_string();
    c.time = "2020-01-01".to_string();
    assert_eq!(
        commit_title(&"kw".to_string(), &c, true),
        "Loading 'kw' / core | https://github.com/o/r @ abc - 2020-01-01"
    );
    assert_eq!(
        commit_title(&"kw".to_string(), &c, false),
        "'kw' / core | https://github.com/o/r @ abc - 2020-01-01"
    );
}
