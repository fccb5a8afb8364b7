use vstd::prelude::*;
use vstd::string::*;

verus! {

/// What one rater said of one commit, as a mathematical value.
pub struct RatingView {
    pub is_refactoring: bool,
    pub comment: Seq<char>,
}

/// One rater's rating, as stored under a commit.
pub struct RatingEntryView {
    pub reviewer: Seq<char>,
    pub rating: RatingView,
}

/// A rater's judgement of a commit.
#[derive(Clone, Debug)]
pub struct Rating {
    pub is_refactoring: bool,
    pub comment: String,
}

impl View for Rating {
    type V = RatingView;

    open spec fn view(&self) -> RatingView {
        RatingView { is_refactoring: self.is_refactoring, comment: self.comment@ }
    }
}

/// A rating together with the name of the rater who gave it.
#[derive(Clone, Debug)]
pub struct RatingEntry {
    pub reviewer: String,
    pub rating: Rating,
}

impl View for RatingEntry {
    type V = RatingEntryView;

    open spec fn view(&self) -> RatingEntryView {
        RatingEntryView { reviewer: self.reviewer@, rating: self.rating@ }
    }
}

/// Index of the entry of the rater in `entries`, or -1 when there is none.
/// Where a name occurs more than once, the last occurrence counts.
pub open spec fn find_reviewer(entries: Seq<RatingEntryView>, reviewer: Seq<char>) -> int
    decreases entries.len(),
{
    if entries.len() == 0 {
        -1
    } else if entries.last().reviewer == reviewer {
        entries.len() - 1
    } else {
        find_reviewer(entries.drop_last(), reviewer)
    }
}

/// The rating that the rater gave, if any.
pub open spec fn lookup(entries: Seq<RatingEntryView>, reviewer: Seq<char>) -> Option<RatingView> {
    let i = find_reviewer(entries, reviewer);
    if i >= 0 {
        Some(entries[i].rating)
    } else {
        None
    }
}

/// The entries after the rater has submitted `rating`: an earlier rating of the
/// same rater is replaced in place, otherwise the rating is appended.
pub open spec fn with_rating(
    entries: Seq<RatingEntryView>,
    reviewer: Seq<char>,
    rating: RatingView,
) -> Seq<RatingEntryView> {
    let i = find_reviewer(entries, reviewer);
    let entry = RatingEntryView { reviewer, rating };
    if i >= 0 {
        entries.update(i, entry)
    } else {
        entries.push(entry)
    }
}

/// No rater occurs twice.
pub open spec fn reviewers_unique(entries: Seq<RatingEntryView>) -> bool {
    forall|i: int, j: int|
        0 <= i < j < entries.len() ==> #[trigger] entries[i].reviewer != #[trigger] entries[j].reviewer
}

pub proof fn lemma_find_reviewer(entries: Seq<RatingEntryView>, reviewer: Seq<char>)
    ensures
        -1 <= find_reviewer(entries, reviewer) < entries.len(),
        find_reviewer(entries, reviewer) >= 0 ==> entries[find_reviewer(entries, reviewer)].reviewer
            == reviewer,
        find_reviewer(entries, reviewer) < 0 ==> forall|j: int|
            0 <= j < entries.len() ==> #[trigger] entries[j].reviewer != reviewer,
        forall|j: int|
            find_reviewer(entries, reviewer) < j < entries.len() ==> #[trigger] entries[j].reviewer
                != reviewer,
    decreases entries.len(),
{
    if entries.len() > 0 {
        let rest = entries.drop_last();
        lemma_find_reviewer(rest, reviewer);
        assert forall|j: int|
            find_reviewer(entries, reviewer) < j < entries.len() implies #[trigger] entries[j].reviewer
                != reviewer by {
            if j < rest.len() {
                assert(rest[j] == entries[j]);
            }
        }
        assert forall|j: int|
            find_reviewer(entries, reviewer) < 0 && 0 <= j < entries.len() implies
                #[trigger] entries[j].reviewer != reviewer by {
            if j < rest.len() {
                assert(rest[j] == entries[j]);
            }
        }
    }
}


/// A commit under rating, as a mathematical value.
pub struct CommitView {
    pub origin: Seq<char>,
    pub moved: bool,
    pub commit: Seq<char>,
    pub section: Seq<char>,
    pub time: Seq<char>,
    pub ratings: Seq<RatingEntryView>,
}

/// A commit to be judged: where it lives, its hash, two display labels, whether
/// it can no longer be retrieved, and the ratings that raters gave it.
#[derive(Clone, Debug)]
pub struct CommitRecord {
    pub origin: String,
    pub moved: bool,
    pub commit: String,
    pub section: String,
    pub time: String,
    pub ratings: Vec<RatingEntry>,
}

impl View for CommitRecord {
    type V = CommitView;

    open spec fn view(&self) -> CommitView {
        CommitView {
            origin: self.origin@,
            moved: self.moved,
            commit: self.commit@,
            section: self.section@,
            time: self.time@,
            ratings: self.ratings@.map_values(|e: RatingEntry| e@),
        }
    }
}

/// The label shown where a commit has no section or time.
pub fn n_a() -> (r: String)
    ensures
        r@ == "N/A"@,
{
    String::from_str("N/A")
}

/// Whether a commit read without a `moved` flag counts as moved.
pub fn moved() -> (r: bool)
    ensures
        r == false,
{
    false
}

impl CommitRecord {
    /// A commit that is not marked moved, with both labels "N/A" and no ratings.
    pub fn new(origin: String, commit: String) -> (r: CommitRecord)
        ensures
            r@.origin == origin@,
            r@.commit == commit@,
            r@.moved == false,
            r@.section == "N/A"@,
            r@.time == "N/A"@,
            r@.ratings == Seq::<RatingEntryView>::empty(),
    {
        let r = CommitRecord {
            origin,
            moved: moved(),
            commit,
            section: n_a(),
            time: n_a(),
            ratings: Vec::new(),
        };
        assert(r@.ratings =~= Seq::<RatingEntryView>::empty());
        r
    }

    /// Position of the rater's entry among the ratings.
    fn reviewer_index(&self, reviewer: &String) -> (r: Option<usize>)
        ensures
            match r {
                Some(i) => i == find_reviewer(self@.ratings, reviewer@) && i < self.ratings@.len(),
                None => find_reviewer(self@.ratings, reviewer@) == -1,
            },
    {
        let ghost entries = self@.ratings;
        let mut i: usize = self.ratings.len();
        assert(entries.subrange(0, i as int) =~= entries);
        while i > 0
            invariant
                i <= self.ratings@.len(),
                entries == self@.ratings,
                find_reviewer(entries, reviewer@) == find_reviewer(entries.subrange(0, i as int), reviewer@),
            decreases i,
        {
            let ghost prefix = entries.subrange(0, i as int);
            assert(prefix.drop_last() =~= entries.subrange(0, i - 1));
            if self.ratings[i - 1].reviewer == *reviewer {
                return Some(i - 1);
            }
            i = i - 1;
        }
        None
    }

    /// The rating that the rater gave this commit.
    pub fn rating_of(&self, reviewer: &String) -> (r: Option<&Rating>)
        ensures
            match r {
                Some(rt) => lookup(self@.ratings, reviewer@) == Some(rt@),
                None => lookup(self@.ratings, reviewer@) is None,
            },
    {
        match self.reviewer_index(reviewer) {
            Some(i) => Some(&self.ratings[i].rating),
            None => None,
        }
    }

    /// Stores `rating` as the rater's rating of this commit, replacing the one
    /// they gave before; the other fields are left as they are.
    pub fn set_rating(&mut self, reviewer: String, rating: Rating)
        ensures
            final(self)@ == (CommitView { ratings: with_rating(old(self)@.ratings, reviewer@, rating@), ..old(self)@ }),
            reviewers_unique(old(self)@.ratings) ==> reviewers_unique(final(self)@.ratings),
    {
        let ghost old_entries = self@.ratings;
        proof {
            lemma_find_reviewer(old_entries, reviewer@);
        }
        let entry = RatingEntry { reviewer, rating };
        match self.reviewer_index(&entry.reviewer) {
            Some(i) => {
                self.ratings.set(i, entry);
            },
            None => {
                self.ratings.push(entry);
            },
        }
        assert(self@.ratings =~= with_rating(old_entries, entry.reviewer@, entry.rating@));
    }
}

/// A keyword with its commits, as a mathematical value.
pub struct KeywordView {
    pub keyword: Seq<char>,
    pub commits: Seq<CommitView>,
}

/// A keyword and the commits collected under it, in visiting order.
#[derive(Clone, Debug)]
pub struct KeywordCommits {
    pub keyword: String,
    pub commits: Vec<CommitRecord>,
}

impl View for KeywordCommits {
    type V = KeywordView;

    open spec fn view(&self) -> KeywordView {
        KeywordView {
            keyword: self.keyword@,
            commits: self.commits@.map_values(|c: CommitRecord| c@),
        }
    }
}

/// The keyword order and, within each keyword, the commit order define the one
/// order in which commits are rated.
#[derive(Clone, Debug)]
pub struct CommitDatabase {
    pub keywords: Vec<KeywordCommits>,
}

impl View for CommitDatabase {
    type V = Seq<KeywordView>;

    open spec fn view(&self) -> Seq<KeywordView> {
        self.keywords@.map_values(|k: KeywordCommits| k@)
    }
}

/// No keyword occurs twice.
pub open spec fn keywords_unique(db: Seq<KeywordView>) -> bool {
    forall|i: int, j: int|
        0 <= i < j < db.len() ==> #[trigger] db[i].keyword != #[trigger] db[j].keyword
}

/// Why a keyword could not be added to a database.
#[derive(Clone, Debug, PartialEq, Eq)]
pub enum DatabaseError {
    DuplicateKeyword(String),
}

impl CommitDatabase {
    /// A database without keywords.
    pub fn new() -> (r: CommitDatabase)
        ensures
            r@ == Seq::<KeywordView>::empty(),
    {
        let r = CommitDatabase { keywords: Vec::new() };
        assert(r@ =~= Seq::<KeywordView>::empty());
        r
    }

    /// Appends `keyword` with its commits after the keywords already present;
    /// a keyword that is already present is refused and nothing changes.
    pub fn push_keyword(&mut self, keyword: String, commits: Vec<CommitRecord>) -> (r: Result<(), DatabaseError>)
        ensures
            match r {
                Ok(()) => final(self)@ == old(self)@.push(KeywordView { keyword: keyword@, commits: commits@.map_values(|c: CommitRecord| c@) }),
                Err(DatabaseError::DuplicateKeyword(k)) => final(self)@ == old(self)@ && k@ == keyword@,
            },
            r is Err <==> exists|i: int| 0 <= i < old(self)@.len() && #[trigger] old(self)@[i].keyword == keyword@,
            keywords_unique(old(self)@) ==> keywords_unique(final(self)@),
    {
        let mut i: usize = 0;
        while i < self.keywords.len()
            invariant
                i <= self.keywords@.len(),
                forall|j: int| 0 <= j < i ==> #[trigger] self@[j].keyword != keyword@,
            decreases self.keywords@.len() - i,
        {
            if self.keywords[i].keyword == keyword {
                assert(self@[i as int].keyword == keyword@);
                return Err(DatabaseError::DuplicateKeyword(keyword));
            }
            i = i + 1;
        }
        let ghost before = self@;
        self.keywords.push(KeywordCommits { keyword, commits });
        assert(self@ =~= before.push(KeywordView { keyword: keyword@, commits: commits@.map_values(|c: CommitRecord| c@) }));
        Ok(())
    }
}


/// The rater has rated some commit of `db`.
pub open spec fn has_rated_any(db: Seq<KeywordView>, reviewer: Seq<char>) -> bool {
    exists|k: int, i: int, j: int|
        0 <= k < db.len() && 0 <= i < db[k].commits.len() && 0 <= j < db[k].commits[i].ratings.len()
            && #[trigger] db[k].commits[i].ratings[j].reviewer == reviewer
}

/// The views of a list of names.
pub open spec fn names_view(names: Seq<String>) -> Seq<Seq<char>> {
    names.map_values(|n: String| n@)
}

fn contains_name(names: &Vec<String>, name: &String) -> (r: bool)
    ensures
        r == names_view(names@).contains(name@),
{
    let mut i: usize = 0;
    while i < names.len()
        invariant
            i <= names@.len(),
            forall|j: int| 0 <= j < i ==> names@[j]@ != name@,
        decreases names@.len() - i,
    {
        if names[i] == *name {
            assert(names_view(names@)[i as int] == name@);
            return true;
        }
        i = i + 1;
    }
    assert forall|j: int| 0 <= j < names_view(names@).len() implies names_view(names@)[j] != name@ by {
        assert(names_view(names@)[j] == names@[j]@);
    }
    false
}

impl CommitDatabase {
    /// Every rater who rated some commit, each once, in order of first appearance.
    pub fn reviewers(&self) -> (r: Vec<String>)
        ensures
            names_view(r@).no_duplicates(),
            forall|n: Seq<char>| names_view(r@).contains(n) <==> has_rated_any(self@, n),
    {
        let ghost db = self@;
        let mut out: Vec<String> = Vec::new();
        let mut k: usize = 0;
        while k < self.keywords.len()
            invariant
                db == self@,
                k <= db.len(),
                names_view(out@).no_duplicates(),
                forall|n: Seq<char>| names_view(out@).contains(n) ==> has_rated_any(db, n),
                forall|k2: int, i2: int, j2: int|
                    0 <= k2 < k && 0 <= i2 < db[k2].commits.len() && 0 <= j2 < db[k2].commits[i2].ratings.len()
                        ==> names_view(out@).contains(#[trigger] db[k2].commits[i2].ratings[j2].reviewer),
            decreases db.len() - k,
        {
            let commits = &self.keywords[k].commits;
            let mut i: usize = 0;
            while i < commits.len()
                invariant
                    db == self@,
                    k < db.len(),
                    commits == &self.keywords@[k as int].commits,
                    i <= commits@.len(),
                    names_view(out@).no_duplicates(),
                    forall|n: Seq<char>| names_view(out@).contains(n) ==> has_rated_any(db, n),
                    forall|k2: int, i2: int, j2: int|
                        0 <= k2 <= k && 0 <= i2 < db[k2].commits.len() && 0 <= j2 < db[k2].commits[i2].ratings.len()
                            && (k2 < k || i2 < i)
                            ==> names_view(out@).contains(#[trigger] db[k2].commits[i2].ratings[j2].reviewer),
                decreases commits@.len() - i,
            {
                let ratings = &commits[i].ratings;
                let mut j: usize = 0;
                while j < ratings.len()
                    invariant
                        db == self@,
                        k < db.len(),
                        commits == &self.keywords@[k as int].commits,
                        i < commits@.len(),
                        ratings == &commits@[i as int].ratings,
                        j <= ratings@.len(),
                        names_view(out@).no_duplicates(),
                        forall|n: Seq<char>| names_view(out@).contains(n) ==> has_rated_any(db, n),
                        forall|k2: int, i2: int, j2: int|
                            0 <= k2 <= k && 0 <= i2 < db[k2].commits.len() && 0 <= j2 < db[k2].commits[i2].ratings.len()
                                && (k2 < k || i2 < i || (i2 == i && j2 < j))
                                ==> names_view(out@).contains(#[trigger] db[k2].commits[i2].ratings[j2].reviewer),
                    decreases ratings@.len() - j,
                {
                    let name = &ratings[j].reviewer;
                    let ghost here = db[k as int].commits[i as int].ratings[j as int].reviewer;
                    assert(here == name@);
                    if !contains_name(&out, name) {
                        let ghost before = names_view(out@);
                        out.push(name.clone());
                        assert(names_view(out@) =~= before.push(name@));
                        assert(names_view(out@)[before.len() as int] == name@);
                        assert(has_rated_any(db, here));
                        assert forall|n: Seq<char>| names_view(out@).contains(n) implies has_rated_any(db, n) by {
                            if n != name@ {
                                let m = choose|m: int| 0 <= m < names_view(out@).len() && names_view(out@)[m] == n;
                                assert(before[m] == n);
                            }
                        }
                        assert forall|x: Seq<char>| before.contains(x) implies names_view(out@).contains(x) by {
                            let m = choose|m: int| 0 <= m < before.len() && before[m] == x;
                            assert(names_view(out@)[m] == x);
                        }
                    }
                    assert(names_view(out@).contains(here));
                    j = j + 1;
                }
                i = i + 1;
            }
            k = k + 1;
        }
        out
    }
}

} // verus!
