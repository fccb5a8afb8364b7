use vstd::prelude::*;

use crate::database::{
    lookup, with_rating, CommitDatabase, CommitRecord, CommitView, KeywordView, Rating,
    RatingEntryView, RatingView,
};
use crate::navigation::{
    first_position, lemma_traversal_visits_each_commit_once, next_position, position_view,
    previous_position, review_order, shape, total, valid_position, Position,
};

verus! {

/// What the rater entered for the commit on display when they navigated.
#[derive(Clone, Debug)]
pub struct Submission {
    pub comment: String,
    pub is_refactoring: bool,
    pub moved: bool,
}

impl Submission {
    /// The rating that the submission stores.
    pub open spec fn rating_view(&self) -> RatingView {
        RatingView { is_refactoring: self.is_refactoring, comment: self.comment@ }
    }
}

/// The database after the rater has submitted `rating` and the `moved` flag for
/// the commit at `p`; everything else stays as it was.
pub open spec fn record(
    db: Seq<KeywordView>,
    p: (int, int),
    reviewer: Seq<char>,
    moved: bool,
    rating: RatingView,
) -> Seq<KeywordView> {
    let kw = db[p.0];
    let c = kw.commits[p.1];
    let updated = CommitView { moved, ratings: with_rating(c.ratings, reviewer, rating), ..c };
    db.update(p.0, KeywordView { commits: kw.commits.update(p.1, updated), ..kw })
}

/// Recording a rating changes no keyword's number of commits.
pub proof fn lemma_record_keeps_shape(
    db: Seq<KeywordView>,
    p: (int, int),
    reviewer: Seq<char>,
    moved: bool,
    rating: RatingView,
)
    requires
        valid_position(shape(db), p),
    ensures
        shape(record(db, p, reviewer, moved, rating)) == shape(db),
{
    assert(shape(record(db, p, reviewer, moved, rating)) =~= shape(db));
}

impl CommitDatabase {
    /// Stores the rater's rating and the `moved` flag in the commit at `p`.
    pub fn record_rating(&mut self, p: Position, reviewer: String, moved: bool, rating: Rating)
        requires
            valid_position(shape(old(self)@), p@),
        ensures
            final(self)@ == record(old(self)@, p@, reviewer@, moved, rating@),
    {
        let ghost before = self@;
        let k = p.keyword_index;
        let i = p.commit_index;
        let ghost kw_before = self.keywords@[k as int];
        let commit: &mut CommitRecord = &mut self.keywords[k].commits[i];
        commit.moved = moved;
        commit.set_rating(reviewer, rating);
        assert(self.keywords@[k as int]@.commits =~= kw_before@.commits.update(
            i as int,
            self.keywords@[k as int].commits@[i as int]@,
        ));
        assert(self@ =~= record(before, p@, reviewer@, moved, rating@));
    }
}

/// How a session is to end, once that is decided.
#[derive(Clone, Copy, Debug, PartialEq, Eq, Structural)]
pub enum Mode {
    /// The session goes on.
    Continue,
    /// End without touching the primary store; the checkpoint stays for a
    /// later recovery. A plain quit ends this way.
    Discard,
    /// End by writing the primary store and deleting the checkpoint.
    SaveAndStop,
}

/// What the rater did while a commit was on display.
#[derive(Clone, Debug)]
pub enum Event {
    Next(Submission),
    Previous(Submission),
    Finish(Submission),
    Quit,
    SaveAndQuit,
}

/// What the caller has to do after an event.
#[derive(Clone, Copy, Debug, PartialEq, Eq, Structural)]
pub enum Action {
    /// Write the database to the checkpoint file, then show the current commit.
    Checkpoint,
    /// Write the database to the checkpoint file, then end the session.
    CheckpointAndEnd,
    /// End the session without writing the checkpoint.
    End,
    /// The event is not available here; nothing changed.
    Ignored,
}

/// The state of a rating session, as a mathematical value.
pub struct SessionView {
    pub db: Seq<KeywordView>,
    pub reviewer: Seq<char>,
    pub readonly: bool,
    pub position: (int, int),
    pub mode: Mode,
}

/// The position is a commit of the database.
pub open spec fn session_wf(s: SessionView) -> bool {
    valid_position(shape(s.db), s.position)
}

/// The session after the session's rater has submitted `sub` for the current commit.
pub open spec fn with_submission(s: SessionView, sub: Submission) -> SessionView {
    SessionView {
        db: record(s.db, s.position, s.reviewer, sub.moved, sub.rating_view()),
        ..s
    }
}

/// One step of a session. Navigation stores the submission in the commit that
/// was on display and then moves; `Next` is offered except at the last commit,
/// `Previous` except at the first, `Finish` only at the last. Quitting stores
/// nothing: a plain quit discards the session, a saving quit keeps it.
pub open spec fn step(s: SessionView, ev: Event) -> (SessionView, Action) {
    let lens = shape(s.db);
    if s.mode != Mode::Continue {
        (s, Action::Ignored)
    } else {
        match ev {
            Event::Next(sub) => match next_position(lens, s.position) {
                Some(q) => (SessionView { position: q, ..with_submission(s, sub) }, Action::Checkpoint),
                None => (s, Action::Ignored),
            },
            Event::Previous(sub) => match previous_position(lens, s.position) {
                Some(q) => (SessionView { position: q, ..with_submission(s, sub) }, Action::Checkpoint),
                None => (s, Action::Ignored),
            },
            Event::Finish(sub) => if next_position(lens, s.position) is None {
                (SessionView { mode: Mode::SaveAndStop, ..with_submission(s, sub) }, Action::CheckpointAndEnd)
            } else {
                (s, Action::Ignored)
            },
            Event::Quit => (SessionView { mode: Mode::Discard, ..s }, Action::End),
            Event::SaveAndQuit => (SessionView { mode: Mode::SaveAndStop, ..s }, Action::End),
        }
    }
}

/// A rating session of one rater over a database.
pub struct Session {
    db: CommitDatabase,
    reviewer: String,
    readonly: bool,
    position: Position,
    mode: Mode,
}

impl View for Session {
    type V = SessionView;

    closed spec fn view(&self) -> SessionView {
        SessionView {
            db: self.db@,
            reviewer: self.reviewer@,
            readonly: self.readonly,
            position: self.position@,
            mode: self.mode,
        }
    }
}

/// The last commit of `commits` that the rater has rated, or -1.
pub open spec fn last_rated(commits: Seq<CommitView>, reviewer: Seq<char>) -> int
    decreases commits.len(),
{
    if commits.len() == 0 {
        -1
    } else if lookup(commits.last().ratings, reviewer) is Some {
        commits.len() - 1
    } else {
        last_rated(commits.drop_last(), reviewer)
    }
}

/// Where a rater resumes: the last keyword under which they rated a commit,
/// at the last commit they rated there (not the one after it).
pub open spec fn resume_point(db: Seq<KeywordView>, reviewer: Seq<char>) -> Option<(int, int)>
    decreases db.len(),
{
    if db.len() == 0 {
        None
    } else {
        let i = last_rated(db.last().commits, reviewer);
        if i >= 0 {
            Some(((db.len() - 1) as int, i))
        } else {
            resume_point(db.drop_last(), reviewer)
        }
    }
}

proof fn lemma_last_rated(commits: Seq<CommitView>, reviewer: Seq<char>)
    ensures
        -1 <= last_rated(commits, reviewer) < commits.len(),
        last_rated(commits, reviewer) >= 0 ==> lookup(
            commits[last_rated(commits, reviewer)].ratings,
            reviewer,
        ) is Some,
    decreases commits.len(),
{
    if commits.len() > 0 {
        lemma_last_rated(commits.drop_last(), reviewer);
    }
}

proof fn lemma_resume_point_valid(db: Seq<KeywordView>, reviewer: Seq<char>)
    ensures
        resume_point(db, reviewer) matches Some(p) ==> valid_position(shape(db), p)
            && lookup(db[p.0].commits[p.1].ratings, reviewer) is Some,
    decreases db.len(),
{
    if db.len() > 0 {
        lemma_last_rated(db.last().commits, reviewer);
        lemma_resume_point_valid(db.drop_last(), reviewer);
        if let Some(p) = resume_point(db.drop_last(), reviewer) {
            assert(db.drop_last()[p.0] == db[p.0]);
        }
    }
}

impl CommitRecord {
    /// Whether the rater has rated this commit.
    fn rated_by(&self, reviewer: &String) -> (r: bool)
        ensures
            r == (lookup(self@.ratings, reviewer@) is Some),
    {
        self.rating_of(reviewer).is_some()
    }
}

impl CommitDatabase {
    /// Where the rater picks up their work again: see `resume_point`.
    pub fn resume_position(&self, reviewer: &String) -> (r: Option<Position>)
        ensures
            position_view(r) == resume_point(self@, reviewer@),
            r matches Some(q) ==> valid_position(shape(self@), q@),
    {
        proof {
            lemma_resume_point_valid(self@, reviewer@);
        }
        let ghost db = self@;
        let mut k: usize = self.keywords.len();
        assert(db.subrange(0, k as int) =~= db);
        while k > 0
            invariant
                k <= self@.len(),
                db == self@,
                resume_point(db, reviewer@) == resume_point(db.subrange(0, k as int), reviewer@),
            decreases k,
        {
            let ghost prefix = db.subrange(0, k as int);
            assert(prefix.drop_last() =~= db.subrange(0, k - 1));
            let commits = &self.keywords[k - 1].commits;
            let ghost cs = prefix.last().commits;
            let mut i: usize = commits.len();
            assert(cs.subrange(0, i as int) =~= cs);
            while i > 0
                invariant
                    0 < k <= self@.len(),
                    db == self@,
                    prefix == db.subrange(0, k as int),
                    resume_point(db, reviewer@) == resume_point(prefix, reviewer@),
                    cs == prefix.last().commits,
                    i <= commits@.len(),
                    commits == &self.keywords@[k - 1].commits,
                    cs == commits@.map_values(|c: CommitRecord| c@),
                    last_rated(cs, reviewer@) == last_rated(cs.subrange(0, i as int), reviewer@),
                decreases i,
            {
                assert(cs.subrange(0, i as int).drop_last() =~= cs.subrange(0, i - 1));
                if commits[i - 1].rated_by(reviewer) {
                    return Some(Position { keyword_index: k - 1, commit_index: i - 1 });
                }
                i = i - 1;
            }
            assert(cs.subrange(0, 0) =~= Seq::<CommitView>::empty());
            k = k - 1;
        }
        None
    }
}

/// How a rater enters a session: as a new rater, to view another
/// rater's ratings without changing them, or to edit their own ratings,
/// optionally resuming where they stopped.
#[derive(Clone, Debug)]
pub enum Start {
    Register(String),
    View(String),
    Edit(String, bool),
}

impl Start {
    pub open spec fn name(&self) -> Seq<char> {
        match self {
            Start::Register(n) => n@,
            Start::View(n) => n@,
            Start::Edit(n, _) => n@,
        }
    }
}

/// Why a session could not start.
#[derive(Clone, Copy, Debug, PartialEq, Eq, Structural)]
pub enum StartError {
    /// A new rater gave an empty name.
    EmptyName,
    /// The database holds no commit to rating.
    NoCommits,
}

/// Where a session starts: the resume point when the rater asked to resume
/// and has rated something, otherwise the first commit.
pub open spec fn start_position(db: Seq<KeywordView>, start: Start) -> Option<(int, int)> {
    match start {
        Start::Edit(n, true) => match resume_point(db, n@) {
            Some(p) => Some(p),
            None => first_position(shape(db)),
        },
        _ => first_position(shape(db)),
    }
}

/// Which navigation actions are offered.
#[derive(Clone, Copy, Debug, PartialEq, Eq, Structural)]
pub struct NavButtons {
    pub previous: bool,
    pub next: bool,
    pub finish: bool,
}

impl Session {
    pub open spec fn wf(&self) -> bool {
        session_wf(self@)
    }

    /// Opens a session over `db`. A new rater needs a non-empty name; a
    /// database without commits cannot be rated.
    pub fn start(db: CommitDatabase, start: Start) -> (r: Result<Session, StartError>)
        ensures
            r matches Err(StartError::EmptyName) <==> (start is Register && start.name().len() == 0),
            r matches Err(StartError::NoCommits) <==> (!(start is Register && start.name().len() == 0)
                && first_position(shape(db@)) is None),
            r matches Ok(s) ==> {
                &&& s.wf()
                &&& s@.db == db@
                &&& s@.reviewer == start.name()
                &&& s@.readonly == (start is View)
                &&& s@.mode == Mode::Continue
                &&& Some(s@.position) == start_position(db@, start)
            },
    {
        let (reviewer, readonly, resume) = match start {
            Start::Register(n) => {
                if n.as_str().unicode_len() == 0 {
                    return Err(StartError::EmptyName);
                }
                (n, false, false)
            },
            Start::View(n) => (n, true, false),
            Start::Edit(n, resume) => (n, false, resume),
        };
        let first = match db.first_position() {
            Some(p) => p,
            None => return Err(StartError::NoCommits),
        };
        let position = if resume {
            match db.resume_position(&reviewer) {
                Some(p) => p,
                None => first,
            }
        } else {
            first
        };
        Ok(Session { db, reviewer, readonly, position, mode: Mode::Continue })
    }

    /// The commit on display.
    pub fn position(&self) -> (r: Position)
        ensures
            r@ == self@.position,
    {
        self.position
    }

    /// The database with every rating submitted so far.
    pub fn database(&self) -> (r: &CommitDatabase)
        ensures
            r@ == self@.db,
    {
        &self.db
    }

    /// Ends the session and hands back its database.
    pub fn into_database(self) -> (r: CommitDatabase)
        ensures
            r@ == self@.db,
    {
        self.db
    }

    /// The rater whose ratings the session shows and stores.
    pub fn reviewer(&self) -> (r: &String)
        ensures
            r@ == self@.reviewer,
    {
        &self.reviewer
    }

    /// Whether the ratings are only shown, not edited.
    pub fn is_readonly(&self) -> (r: bool)
        ensures
            r == self@.readonly,
    {
        self.readonly
    }

    /// How the session is to end.
    pub fn mode(&self) -> (r: Mode)
        ensures
            r == self@.mode,
    {
        self.mode
    }

    /// The keyword and commit on display.
    pub fn current(&self) -> (r: (&String, &CommitRecord))
        requires
            self.wf(),
        ensures
            r.0@ == self@.db[self@.position.0].keyword,
            r.1@ == self@.db[self@.position.0].commits[self@.position.1],
    {
        (self.db.keyword_at(self.position), self.db.commit_at(self.position))
    }

    /// `Previous` is offered except at the first commit; `Next` except at the
    /// last; `Finish` only at the last.
    pub fn navigation(&self) -> (r: NavButtons)
        requires
            self.wf(),
        ensures
            r.previous == (previous_position(shape(self@.db), self@.position) is Some),
            r.next == (next_position(shape(self@.db), self@.position) is Some),
            r.finish == (next_position(shape(self@.db), self@.position) is None),
    {
        let previous = self.db.previous_position(self.position).is_some();
        let next = self.db.next_position(self.position).is_some();
        NavButtons { previous, next, finish: !next }
    }

    /// Applies one event and says what the caller has to do next.
    pub fn handle(&mut self, ev: Event) -> (a: Action)
        requires
            old(self).wf(),
        ensures
            final(self).wf(),
            (final(self)@, a) == step(old(self)@, ev),
    {
        let ghost s0 = self@;
        let ghost lens = shape(s0.db);
        if self.mode != Mode::Continue {
            return Action::Ignored;
        }
        match ev {
            Event::Next(sub) => match self.db.next_position(self.position) {
                Some(q) => {
                    self.submit(sub);
                    self.position = q;
                    Action::Checkpoint
                },
                None => Action::Ignored,
            },
            Event::Previous(sub) => match self.db.previous_position(self.position) {
                Some(q) => {
                    self.submit(sub);
                    self.position = q;
                    Action::Checkpoint
                },
                None => Action::Ignored,
            },
            Event::Finish(sub) => match self.db.next_position(self.position) {
                Some(_) => Action::Ignored,
                None => {
                    self.submit(sub);
                    self.mode = Mode::SaveAndStop;
                    Action::CheckpointAndEnd
                },
            },
            Event::Quit => {
                self.mode = Mode::Discard;
                Action::End
            },
            Event::SaveAndQuit => {
                self.mode = Mode::SaveAndStop;
                Action::End
            },
        }
    }

    /// Stores `sub` as the rater's rating of the current commit.
    fn submit(&mut self, sub: Submission)
        requires
            old(self).wf(),
        ensures
            final(self).wf(),
            final(self)@ == with_submission(old(self)@, sub),
    {
        proof {
            lemma_record_keeps_shape(self@.db, self@.position, self@.reviewer, sub.moved, sub.rating_view());
        }
        let rating = Rating { is_refactoring: sub.is_refactoring, comment: sub.comment };
        self.db.record_rating(self.position, self.reviewer.clone(), sub.moved, rating);
    }
}


/// What has to happen to the files when a session ends.
#[derive(Clone, Copy, Debug, PartialEq, Eq, Structural)]
pub struct EndPlan {
    /// Write the database to the primary store.
    pub write_store: bool,
    /// Delete the checkpoint file.
    pub remove_checkpoint: bool,
}

/// A session that is to be kept writes the primary store and deletes the
/// checkpoint; a discarded one leaves the store untouched and the checkpoint in
/// place for a later recovery.
pub fn end_plan(mode: Mode) -> (r: EndPlan)
    ensures
        r.write_store == (mode == Mode::SaveAndStop),
        r.remove_checkpoint == (mode == Mode::SaveAndStop),
{
    let keep = match mode {
        Mode::SaveAndStop => true,
        _ => false,
    };
    EndPlan { write_store: keep, remove_checkpoint: keep }
}

/// The database a session starts from: the checkpoint of an earlier run when
/// one was found and the rater accepted it, otherwise the primary store.
pub fn choose_database(
    primary: CommitDatabase,
    checkpoint: Option<CommitDatabase>,
    use_checkpoint: bool,
) -> (r: CommitDatabase)
    ensures
        r@ == (match checkpoint {
            Some(c) => if use_checkpoint { c@ } else { primary@ },
            None => primary@,
        }),
{
    match checkpoint {
        Some(c) => if use_checkpoint { c } else { primary },
        None => primary,
    }
}

/// Submitting the same rating twice for the same commit and rater leaves the
/// stored ratings as the first submission left them, and the stored rating is
/// the one submitted.
pub proof fn lemma_rating_idempotent(
    entries: Seq<RatingEntryView>,
    reviewer: Seq<char>,
    rating: RatingView,
)
    ensures
        with_rating(with_rating(entries, reviewer, rating), reviewer, rating) == with_rating(
            entries,
            reviewer,
            rating,
        ),
        lookup(with_rating(entries, reviewer, rating), reviewer) == Some(rating),
{
    crate::database::lemma_find_reviewer(entries, reviewer);
    let once = with_rating(entries, reviewer, rating);
    crate::database::lemma_find_reviewer(once, reviewer);
    let i = crate::database::find_reviewer(entries, reviewer);
    if i < 0 {
        assert(once.last().reviewer == reviewer);
        assert(once.drop_last() =~= entries);
    } else {
        assert(once[i].reviewer == reviewer);
        assert(crate::database::find_reviewer(once, reviewer) == i);
    }
    assert(with_rating(once, reviewer, rating) =~= once);
}

/// Recording the same submission twice for the same commit and rater gives
/// the same database as recording it once.
pub proof fn lemma_record_idempotent(
    db: Seq<KeywordView>,
    p: (int, int),
    reviewer: Seq<char>,
    moved: bool,
    rating: RatingView,
)
    requires
        valid_position(shape(db), p),
    ensures
        record(record(db, p, reviewer, moved, rating), p, reviewer, moved, rating) == record(
            db,
            p,
            reviewer,
            moved,
            rating,
        ),
{
    let c = db[p.0].commits[p.1];
    lemma_rating_idempotent(c.ratings, reviewer, rating);
    let once = record(db, p, reviewer, moved, rating);
    assert(once[p.0].commits =~= db[p.0].commits.update(
        p.1,
        CommitView { moved, ratings: with_rating(c.ratings, reviewer, rating), ..c },
    ));
    let c1 = once[p.0].commits[p.1];
    assert(c1.ratings == with_rating(c.ratings, reviewer, rating));
    let twice = record(once, p, reviewer, moved, rating);
    assert(twice[p.0].commits =~= once[p.0].commits);
    assert(twice[p.0] == once[p.0]);
    assert(twice =~= once);
}

/// After every navigation event that is carried out, the database that the
/// caller is told to checkpoint holds, for the commit that was on display, the
/// rater's submitted rating and `moved` flag.
pub proof fn lemma_navigation_stores_submission(s: SessionView, ev: Event, sub: Submission)
    requires
        session_wf(s),
        ev == Event::Next(sub) || ev == Event::Previous(sub) || ev == Event::Finish(sub),
        step(s, ev).1 != Action::Ignored,
    ensures
        step(s, ev).1 == Action::Checkpoint || step(s, ev).1 == Action::CheckpointAndEnd,
        lookup(step(s, ev).0.db[s.position.0].commits[s.position.1].ratings, s.reviewer) == Some(
            sub.rating_view(),
        ),
        step(s, ev).0.db[s.position.0].commits[s.position.1].moved == sub.moved,
{
    let c = s.db[s.position.0].commits[s.position.1];
    lemma_rating_idempotent(c.ratings, s.reviewer, sub.rating_view());
}

/// In a session, going back after going forward from any commit but the last
/// returns to the commit one started from.
pub proof fn lemma_session_previous_after_next(s: SessionView, a: Submission, b: Submission)
    requires
        session_wf(s),
        s.mode == Mode::Continue,
        next_position(shape(s.db), s.position) is Some,
    ensures
        step(s, Event::Next(a)).1 == Action::Checkpoint,
        step(step(s, Event::Next(a)).0, Event::Previous(b)).1 == Action::Checkpoint,
        step(step(s, Event::Next(a)).0, Event::Previous(b)).0.position == s.position,
{
    let lens = shape(s.db);
    lemma_record_keeps_shape(s.db, s.position, s.reviewer, a.moved, a.rating_view());
    crate::navigation::lemma_previous_undoes_next(lens, s.position);
}


/// In a session, `Next` from the n-th commit of the visiting order moves to the
/// one after it and keeps the database's shape; at the last commit it is not
/// carried out and only `Finish` moves on.
pub proof fn lemma_session_next_follows_order(s: SessionView, sub: Submission, n: int)
    requires
        s.mode == Mode::Continue,
        0 <= n < total(shape(s.db)),
        s.position == review_order(shape(s.db))[n],
    ensures
        n + 1 < total(shape(s.db)) ==> {
            &&& step(s, Event::Next(sub)).1 == Action::Checkpoint
            &&& shape(step(s, Event::Next(sub)).0.db) == shape(s.db)
            &&& step(s, Event::Next(sub)).0.position == review_order(shape(s.db))[n + 1]
        },
        n + 1 == total(shape(s.db)) ==> {
            &&& step(s, Event::Next(sub)).1 == Action::Ignored
            &&& step(s, Event::Finish(sub)).1 == Action::CheckpointAndEnd
        },
{
    let lens = shape(s.db);
    lemma_traversal_visits_each_commit_once(lens);
    assert(review_order(lens).contains(s.position));
    lemma_record_keeps_shape(s.db, s.position, s.reviewer, sub.moved, sub.rating_view());
}

} // verus!
