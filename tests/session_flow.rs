use msr_commit_viewer::database::{CommitDatabase, CommitRecord, Rating};
use msr_commit_viewer::navigation::Position;
use msr_commit_viewer::session::{
    choose_database, end_plan, Action, Event, Mode, Session, Start, StartError, Submission,
};

fn commit(hash: &str) -> CommitRecord {
    CommitRecord::new(format!("https://github.com/owner/repo"), hash.to_string())
}

fn two_keyword_db() -> CommitDatabase {
    let mut db = CommitDatabase::new();
    db.push_keyword("refactor-kw".to_string(), vec![commit("c1"), commit("c2")]).unwrap();
    db.push_keyword("bugfix-kw".to_string(), vec![commit("c3")]).unwrap();
    db
}

fn sub(is_refactoring: bool, comment: &str) -> Submission {
    Submission { comment: comment.to_string(), is_refactoring, moved: false }
}

fn pos(k: usize, i: usize) -> Position {
    Position { keyword_index: k, commit_index: i }
}

#[test]
fn end_to_end_register_rate_and_finish() {
    let mut s = Session::start(two_keyword_db(), Start::Register("bob".to_string())).unwrap();
    assert_eq!(s.position(), pos(0, 0));
    assert_eq!(s.handle(Event::Next(sub(true, ""))), Action::Checkpoint);
    assert_eq!(s.position(), pos(0, 1));
    assert_eq!(s.handle(Event::Next(sub(false, "only renames a test"))), Action::Checkpoint);
    assert_eq!(s.position(), pos(1, 0));
    let nav = s.navigation();
    assert!(nav.previous && !nav.next && nav.finish);
    assert_eq!(s.handle(Event::Finish(sub(true, ""))), Action::CheckpointAndEnd);
    assert_eq!(s.mode(), Mode::SaveAndStop);
    let plan = end_plan(s.mode());
    assert!(plan.write_store);
    assert!(plan.remove_checkpoint);
    let db = s.into_database();
    let bob = "bob".to_string();
    let r1 = db.keywords[0].commits[0].rating_of(&bob).unwrap();
    assert!(r1.is_refactoring);
    assert_eq!(r1.comment, "");
    let r2 = db.keywords[0].commits[1].rating_of(&bob).unwrap();
    assert!(!r2.is_refactoring);
    assert_eq!(r2.comment, "only renames a test");
    let r3 = db.keywords[1].commits[0].rating_of(&bob).unwrap();
    assert!(r3.is_refactoring);
    assert_eq!(db.reviewers(), vec!["bob".to_string()]);
}

#[test]
fn navigation_stores_rating_before_moving() {
    let mut s = Session::start(two_keyword_db(), Start::Register("ann".to_string())).unwrap();
    assert_eq!(s.handle(Event::Next(sub(true, "extract method"))), Action::Checkpoint);
    let stored = s.database().keywords[0].commits[0].rating_of(&"ann".to_string()).unwrap().clone();
    assert!(stored.is_refactoring);
    assert_eq!(stored.comment, "extract method");
    assert!(s.database().keywords[0].commits[1].rating_of(&"ann".to_string()).is_none());
}

#[test]
fn previous_after_next_returns_to_start() {
    let mut s = Session::start(two_keyword_db(), Start::Register("ann".to_string())).unwrap();
    s.handle(Event::Next(sub(true, "")));
    s.handle(Event::Next(sub(true, "")));
    assert_eq!(s.position(), pos(1, 0));
    assert_eq!(s.handle(Event::Previous(sub(false, ""))), Action::Checkpoint);
    assert_eq!(s.position(), pos(0, 1));
    assert_eq!(s.handle(Event::Next(sub(false, ""))), Action::Checkpoint);
    assert_eq!(s.position(), pos(1, 0));
}

#[test]
fn unavailable_navigation_is_ignored() {
    let mut s = Session::start(two_keyword_db(), Start::Register("ann".to_string())).unwrap();
    assert_eq!(s.handle(Event::Previous(sub(true, "x"))), Action::Ignored);
    assert_eq!(s.handle(Event::Finish(sub(true, "x"))), Action::Ignored);
    assert!(s.database().keywords[0].commits[0].ratings.is_empty());
    s.handle(Event::Next(sub(true, "")));
    s.handle(Event::Next(sub(true, "")));
    assert_eq!(s.handle(Event::Next(sub(true, ""))), Action::Ignored);
    assert_eq!(s.position(), pos(1, 0));
}

#[test]
fn plain_quit_discards_without_storing() {
    let mut s = Session::start(two_keyword_db(), Start::Register("ann".to_string())).unwrap();
    assert_eq!(s.handle(Event::Quit), Action::End);
    assert_eq!(s.mode(), Mode::Discard);
    assert!(s.database().keywords[0].commits[0].ratings.is_empty());
    let plan = end_plan(s.mode());
    assert!(!plan.write_store);
    assert!(!plan.remove_checkpoint);
    assert_eq!(s.handle(Event::Next(sub(true, ""))), Action::Ignored);
}

#[test]
fn save_and_quit_keeps_session() {
    let mut s = Session::start(two_keyword_db(), Start::Register("ann".to_string())).unwrap();
    s.handle(Event::Next(sub(true, "")));
    assert_eq!(s.handle(Event::SaveAndQuit), Action::End);
    assert_eq!(s.mode(), Mode::SaveAndStop);
    assert!(s.database().keywords[0].commits[1].ratings.is_empty());
    let plan = end_plan(Mode::SaveAndStop);
    assert!(plan.write_store && plan.remove_checkpoint);
}

#[test]
fn same_rating_twice_is_unchanged() {
    let mut c = commit("c1");
    let rating = Rating { is_refactoring: true, comment: "move field".to_string() };
    c.set_rating("ann".to_string(), rating.clone());
    c.set_rating("ann".to_string(), rating.clone());
    assert_eq!(c.ratings.len(), 1);
    let stored = c.rating_of(&"ann".to_string()).unwrap();
    assert!(stored.is_refactoring);
    assert_eq!(stored.comment, "move field");
}

#[test]
fn later_rating_replaces_earlier() {
    let mut c = commit("c1");
    c.set_rating("ann".to_string(), Rating { is_refactoring: true, comment: "a".to_string() });
    c.set_rating("bob".to_string(), Rating { is_refactoring: false, comment: "b".to_string() });
    c.set_rating("ann".to_string(), Rating { is_refactoring: false, comment: "c".to_string() });
    assert_eq!(c.ratings.len(), 2);
    assert_eq!(c.ratings[0].reviewer, "ann");
    assert_eq!(c.rating_of(&"ann".to_string()).unwrap().comment, "c");
    assert_eq!(c.rating_of(&"bob".to_string()).unwrap().comment, "b");
}

fn resume_db() -> CommitDatabase {
    let mut db = CommitDatabase::new();
    let mut k1 = vec![commit("a0"), commit("a1"), commit("a2")];
    k1[0].set_rating("A".to_string(), Rating { is_refactoring: true, comment: String::new() });
    let mut k2 = vec![commit("b0"), commit("b1"), commit("b2")];
    k2[1].set_rating("A".to_string(), Rating { is_refactoring: false, comment: String::new() });
    k2[2].set_rating("B".to_string(), Rating { is_refactoring: false, comment: String::new() });
    db.push_keyword("k1".to_string(), k1).unwrap();
    db.push_keyword("k2".to_string(), k2).unwrap();
    db
}

#[test]
fn resume_lands_on_last_rated_keyword() {
    let s = Session::start(resume_db(), Start::Edit("A".to_string(), true)).unwrap();
    assert_eq!(s.position(), pos(1, 1));
    assert!(!s.is_readonly());
}

#[test]
fn resume_without_ratings_starts_at_first() {
    let s = Session::start(resume_db(), Start::Edit("C".to_string(), true)).unwrap();
    assert_eq!(s.position(), pos(0, 0));
}

#[test]
fn edit_without_resume_starts_at_first() {
    let s = Session::start(resume_db(), Start::Edit("A".to_string(), false)).unwrap();
    assert_eq!(s.position(), pos(0, 0));
}

#[test]
fn view_is_readonly() {
    let s = Session::start(resume_db(), Start::View("B".to_string())).unwrap();
    assert!(s.is_readonly());
    assert_eq!(s.reviewer(), "B");
    assert_eq!(s.position(), pos(0, 0));
}

#[test]
fn start_errors() {
    assert_eq!(
        Session::start(resume_db(), Start::Register(String::new())).err(),
        Some(StartError::EmptyName)
    );
    let mut empty = CommitDatabase::new();
    empty.push_keyword("none".to_string(), Vec::new()).unwrap();
    assert_eq!(
        Session::start(empty, Start::View("A".to_string())).err(),
        Some(StartError::NoCommits)
    );
}

#[test]
fn checkpoint_is_used_only_when_accepted() {
    let primary = two_keyword_db();
    let checkpoint = resume_db();
    let chosen = choose_database(primary.clone(), Some(checkpoint.clone()), true);
    assert_eq!(chosen.keywords[0].keyword, "k1");
    let chosen = choose_database(primary.clone(), Some(checkpoint), false);
    assert_eq!(chosen.keywords[0].keyword, "refactor-kw");
    let chosen = choose_database(primary, None, true);
    assert_eq!(chosen.keywords[0].keyword, "refactor-kw");
}

#[test]
fn reviewers_listed_once_in_order_of_appearance() {
    let db = resume_db();
    assert_eq!(db.reviewers(), vec!["A".to_string(), "B".to_string()]);
    assert!(two_keyword_db().reviewers().is_empty());
}
