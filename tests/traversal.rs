use msr_commit_viewer::database::{CommitDatabase, CommitRecord, DatabaseError};
use msr_commit_viewer::navigation::Position;

fn commits(n: usize) -> Vec<CommitRecord> {
    (0..n).map(|i| CommitRecord::new("https://gitlab.com/g/p".to_string(), format!("h{}", i))).collect()
}

fn pos(k: usize, i: usize) -> Position {
    Position { keyword_index: k, commit_index: i }
}

fn sample() -> CommitDatabase {
    let mut db = CommitDatabase::new();
    db.push_keyword("empty-first".to_string(), commits(0)).unwrap();
    db.push_keyword("a".to_string(), commits(2)).unwrap();
    db.push_keyword("empty-middle".to_string(), commits(0)).unwrap();
    db.push_keyword("b".to_string(), commits(1)).unwrap();
    db.push_keyword("c".to_string(), commits(2)).unwrap();
    db.push_keyword("empty-last".to_string(), commits(0)).unwrap();
    db
}

#[test]
fn next_visits_every_commit_once_in_order() {
    let db = sample();
    let mut seen = Vec::new();
    let mut p = db.first_position();
    while let Some(q) = p {
        seen.push(q);
        p = db.next_position(q);
    }
    assert_eq!(seen, vec![pos(1, 0), pos(1, 1), pos(3, 0), pos(4, 0), pos(4, 1)]);
}

#[test]
fn previous_walks_the_order_backwards() {
    let db = sample();
    let mut seen = Vec::new();
    let mut p = Some(pos(4, 1));
    while let Some(q) = p {
        seen.push(q);
        p = db.previous_position(q);
    }
    assert_eq!(seen, vec![pos(4, 1), pos(4, 0), pos(3, 0), pos(1, 1), pos(1, 0)]);
}

#[test]
fn previous_undoes_next_everywhere() {
    let db = sample();
    for p in [pos(1, 0), pos(1, 1), pos(3, 0), pos(4, 0)] {
        let q = db.next_position(p).unwrap();
        assert_eq!(db.previous_position(q), Some(p));
    }
}

#[test]
fn empty_database_has_no_first_commit() {
    assert_eq!(CommitDatabase::new().first_position(), None);
    let mut db = CommitDatabase::new();
    db.push_keyword("x".to_string(), commits(0)).unwrap();
    assert_eq!(db.first_position(), None);
}

#[test]
fn single_commit_is_first_and_last() {
    let mut db = CommitDatabase::new();
    db.push_keyword("x".to_string(), commits(1)).unwrap();
    assert_eq!(db.first_position(), Some(pos(0, 0)));
    assert_eq!(db.next_position(pos(0, 0)), None);
    assert_eq!(db.previous_position(pos(0, 0)), None);
}

#[test]
fn duplicate_keyword_is_refused() {
    let mut db = CommitDatabase::new();
    db.push_keyword("x".to_string(), commits(1)).unwrap();
    assert_eq!(
        db.push_keyword("x".to_string(), commits(2)),
        Err(DatabaseError::DuplicateKeyword("x".to_string()))
    );
    assert_eq!(db.keywords.len(), 1);
    assert_eq!(db.keywords[0].commits.len(), 1);
}

#[test]
fn commit_and_keyword_at_position() {
    let db = sample();
    assert_eq!(db.keyword_at(pos(3, 0)), "b");
    assert_eq!(db.commit_at(pos(4, 1)).commit, "h1");
}
