use vstd::prelude::*;

use crate::database::{CommitDatabase, KeywordView};

verus! {

/// A cursor into the visiting order: a keyword and a commit within it.
#[derive(Clone, Copy, Debug, PartialEq, Eq, Structural)]
pub struct Position {
    pub keyword_index: usize,
    pub commit_index: usize,
}

impl View for Position {
    type V = (int, int);

    open spec fn view(&self) -> (int, int) {
        (self.keyword_index as int, self.commit_index as int)
    }
}

/// The number of commits under each keyword.
pub open spec fn shape(db: Seq<KeywordView>) -> Seq<nat> {
    db.map_values(|k: KeywordView| k.commits.len())
}

/// `p` names a commit of a database of the given shape.
pub open spec fn valid_position(lens: Seq<nat>, p: (int, int)) -> bool {
    0 <= p.0 < lens.len() && 0 <= p.1 < lens[p.0]
}

/// The number of commits under the keywords before `k`.
pub open spec fn offset(lens: Seq<nat>, k: int) -> nat
    decreases k,
{
    if k <= 0 {
        0
    } else {
        offset(lens, k - 1) + lens[k - 1]
    }
}

/// The number of commits in all.
pub open spec fn total(lens: Seq<nat>) -> nat {
    offset(lens, lens.len() as int)
}

/// How many commits come before `p` in the visiting order.
pub open spec fn flat_index(lens: Seq<nat>, p: (int, int)) -> int {
    offset(lens, p.0) + p.1
}

/// The visiting order: keyword by keyword, and within a keyword commit by commit.
pub open spec fn review_order(lens: Seq<nat>) -> Seq<(int, int)>
    decreases lens.len(),
{
    if lens.len() == 0 {
        Seq::empty()
    } else {
        let k = lens.len() - 1;
        review_order(lens.drop_last()) + Seq::new(lens.last(), |i: int| (k, i))
    }
}

/// The first keyword at or after `k` that has a commit, or `lens.len()`.
pub open spec fn next_nonempty(lens: Seq<nat>, k: int) -> int
    decreases lens.len() - k,
{
    if k >= lens.len() {
        lens.len() as int
    } else if k >= 0 && lens[k] > 0 {
        k
    } else {
        next_nonempty(lens, k + 1)
    }
}

/// The last keyword before `k` that has a commit, or -1.
pub open spec fn prev_nonempty(lens: Seq<nat>, k: int) -> int
    decreases k,
{
    if k <= 0 {
        -1
    } else if k - 1 < lens.len() && lens[k - 1] > 0 {
        k - 1
    } else {
        prev_nonempty(lens, k - 1)
    }
}

/// The first commit in visiting order, if there is any.
pub open spec fn first_position(lens: Seq<nat>) -> Option<(int, int)> {
    let k = next_nonempty(lens, 0);
    if k < lens.len() {
        Some((k, 0))
    } else {
        None
    }
}

/// The commit after `p`: the next one of the same keyword, else the first one of
/// the next keyword that has commits; none after the last commit.
pub open spec fn next_position(lens: Seq<nat>, p: (int, int)) -> Option<(int, int)> {
    if p.1 + 1 < lens[p.0] {
        Some((p.0, p.1 + 1))
    } else {
        let k = next_nonempty(lens, p.0 + 1);
        if k < lens.len() {
            Some((k, 0))
        } else {
            None
        }
    }
}

/// The commit before `p`: the previous one of the same keyword, else the last
/// one of the previous keyword that has commits; none before the first commit.
pub open spec fn previous_position(lens: Seq<nat>, p: (int, int)) -> Option<(int, int)> {
    if p.1 > 0 {
        Some((p.0, p.1 - 1))
    } else {
        let k = prev_nonempty(lens, p.0);
        if k >= 0 {
            Some((k, lens[k] - 1))
        } else {
            None
        }
    }
}


/// `a` comes before `b` when keywords are compared first and commits second.
pub open spec fn lex_before(a: (int, int), b: (int, int)) -> bool {
    a.0 < b.0 || (a.0 == b.0 && a.1 < b.1)
}

proof fn lemma_offset_monotone(lens: Seq<nat>, a: int, b: int)
    requires
        0 <= a <= b <= lens.len(),
    ensures
        offset(lens, a) <= offset(lens, b),
        a < b ==> offset(lens, a) + lens[a] <= offset(lens, b),
    decreases b,
{
    if a < b {
        lemma_offset_monotone(lens, a, b - 1);
    }
}

proof fn lemma_valid_below_total(lens: Seq<nat>, p: (int, int))
    requires
        valid_position(lens, p),
    ensures
        0 <= flat_index(lens, p) < total(lens),
{
    lemma_offset_monotone(lens, p.0, lens.len() as int);
}

proof fn lemma_lex_is_flat(lens: Seq<nat>, a: (int, int), b: (int, int))
    requires
        valid_position(lens, a),
        valid_position(lens, b),
    ensures
        lex_before(a, b) <==> flat_index(lens, a) < flat_index(lens, b),
        flat_index(lens, a) == flat_index(lens, b) <==> a == b,
{
    if a.0 < b.0 {
        lemma_offset_monotone(lens, a.0, b.0);
    } else if b.0 < a.0 {
        lemma_offset_monotone(lens, b.0, a.0);
    }
}

proof fn lemma_review_order(lens: Seq<nat>)
    ensures
        review_order(lens).len() == total(lens),
        forall|n: int|
            0 <= n < total(lens) ==> valid_position(lens, #[trigger] review_order(lens)[n])
                && flat_index(lens, review_order(lens)[n]) == n,
    decreases lens.len(),
{
    if lens.len() > 0 {
        let init = lens.drop_last();
        let k = lens.len() - 1;
        lemma_review_order(init);
        assert forall|j: int| 0 <= j <= init.len() implies offset(init, j) == offset(lens, j) by {
            lemma_offset_prefix(lens, init, j);
        }
        let order = review_order(lens);
        assert forall|n: int| 0 <= n < total(lens) implies valid_position(lens, #[trigger] order[n])
            && flat_index(lens, order[n]) == n by {
            if n < total(init) {
                assert(order[n] == review_order(init)[n]);
                assert(offset(init, review_order(init)[n].0) == offset(lens, review_order(init)[n].0));
            } else {
                assert(order[n] == (k, n - total(init)));
            }
        }
    }
}

proof fn lemma_offset_prefix(lens: Seq<nat>, init: Seq<nat>, j: int)
    requires
        init.len() <= lens.len(),
        forall|i: int| 0 <= i < init.len() ==> init[i] == lens[i],
        0 <= j <= init.len(),
    ensures
        offset(init, j) == offset(lens, j),
    decreases j,
{
    if j > 0 {
        lemma_offset_prefix(lens, init, j - 1);
    }
}

proof fn lemma_skip_forward(lens: Seq<nat>, k: int)
    requires
        0 <= k <= lens.len(),
    ensures
        k <= next_nonempty(lens, k) <= lens.len(),
        next_nonempty(lens, k) < lens.len() ==> lens[next_nonempty(lens, k)] > 0,
        offset(lens, next_nonempty(lens, k)) == offset(lens, k),
    decreases lens.len() - k,
{
    if k < lens.len() && lens[k] == 0 {
        lemma_skip_forward(lens, k + 1);
    }
}

proof fn lemma_skip_backward(lens: Seq<nat>, k: int)
    requires
        0 <= k <= lens.len(),
    ensures
        -1 <= prev_nonempty(lens, k) < k,
        prev_nonempty(lens, k) >= 0 ==> lens[prev_nonempty(lens, k)] > 0 && offset(
            lens,
            prev_nonempty(lens, k) + 1,
        ) == offset(lens, k),
        prev_nonempty(lens, k) < 0 ==> offset(lens, k) == 0,
    decreases k,
{
    if k > 0 && lens[k - 1] == 0 {
        lemma_skip_backward(lens, k - 1);
    }
}

proof fn lemma_first(lens: Seq<nat>)
    ensures
        match first_position(lens) {
            Some(q) => valid_position(lens, q) && flat_index(lens, q) == 0,
            None => total(lens) == 0,
        },
{
    lemma_skip_forward(lens, 0);
}

proof fn lemma_next(lens: Seq<nat>, p: (int, int))
    requires
        valid_position(lens, p),
    ensures
        match next_position(lens, p) {
            Some(q) => valid_position(lens, q) && flat_index(lens, q) == flat_index(lens, p) + 1,
            None => flat_index(lens, p) + 1 == total(lens),
        },
{
    if p.1 + 1 >= lens[p.0] {
        lemma_skip_forward(lens, p.0 + 1);
    }
}

proof fn lemma_previous(lens: Seq<nat>, p: (int, int))
    requires
        valid_position(lens, p),
    ensures
        match previous_position(lens, p) {
            Some(q) => valid_position(lens, q) && flat_index(lens, q) == flat_index(lens, p) - 1,
            None => flat_index(lens, p) == 0,
        },
{
    if p.1 == 0 {
        lemma_skip_backward(lens, p.0);
    }
}

/// Walking forward from the first commit visits every commit exactly once, in
/// keyword-then-commit order, and stops at the last one, after which there is
/// no next commit.
pub proof fn lemma_traversal_visits_each_commit_once(lens: Seq<nat>)
    ensures
        review_order(lens).len() == total(lens),
        review_order(lens).no_duplicates(),
        forall|p: (int, int)| valid_position(lens, p) <==> review_order(lens).contains(p),
        forall|a: int, b: int|
            0 <= a < b < total(lens) ==> lex_before(
                #[trigger] review_order(lens)[a],
                #[trigger] review_order(lens)[b],
            ),
        total(lens) == 0 ==> first_position(lens) is None,
        total(lens) > 0 ==> first_position(lens) == Some(review_order(lens)[0]),
        forall|n: int|
            0 <= n < total(lens) - 1 ==> next_position(lens, #[trigger] review_order(lens)[n])
                == Some(review_order(lens)[n + 1]),
        total(lens) > 0 ==> next_position(lens, review_order(lens)[total(lens) - 1]) is None,
{
    lemma_review_order(lens);
    let order = review_order(lens);
    assert forall|a: int, b: int| 0 <= a < b < order.len() implies order[a] != order[b] by {
        lemma_lex_is_flat(lens, order[a], order[b]);
    }
    assert forall|p: (int, int)| valid_position(lens, p) <==> order.contains(p) by {
        if valid_position(lens, p) {
            lemma_valid_below_total(lens, p);
            let n = flat_index(lens, p);
            lemma_lex_is_flat(lens, p, order[n]);
        }
    }
    assert forall|a: int, b: int| 0 <= a < b < total(lens) implies lex_before(
        #[trigger] order[a],
        #[trigger] order[b],
    ) by {
        lemma_lex_is_flat(lens, order[a], order[b]);
    }
    lemma_first(lens);
    if total(lens) > 0 {
        if let Some(q) = first_position(lens) {
            lemma_lex_is_flat(lens, q, order[0]);
        }
        lemma_next(lens, order[total(lens) - 1]);
    }
    assert forall|n: int| 0 <= n < total(lens) - 1 implies next_position(lens, #[trigger] order[n])
        == Some(order[n + 1]) by {
        lemma_next(lens, order[n]);
        if let Some(q) = next_position(lens, order[n]) {
            lemma_lex_is_flat(lens, q, order[n + 1]);
        }
    }
}

/// Stepping back after stepping forward returns to the commit one started from.
pub proof fn lemma_previous_undoes_next(lens: Seq<nat>, p: (int, int))
    requires
        valid_position(lens, p),
        next_position(lens, p) is Some,
    ensures
        previous_position(lens, next_position(lens, p).unwrap()) == Some(p),
{
    lemma_next(lens, p);
    let q = next_position(lens, p).unwrap();
    lemma_previous(lens, q);
    lemma_lex_is_flat(lens, p, previous_position(lens, q).unwrap());
}

/// Stepping forward after stepping back from any commit but the first returns
/// to the commit one started from.
pub proof fn lemma_next_undoes_previous(lens: Seq<nat>, p: (int, int))
    requires
        valid_position(lens, p),
        previous_position(lens, p) is Some,
    ensures
        next_position(lens, previous_position(lens, p).unwrap()) == Some(p),
{
    lemma_previous(lens, p);
    let q = previous_position(lens, p).unwrap();
    lemma_next(lens, q);
    lemma_valid_below_total(lens, p);
    lemma_lex_is_flat(lens, p, next_position(lens, q).unwrap());
}


/// The mathematical value of an optional position.
pub open spec fn position_view(r: Option<Position>) -> Option<(int, int)> {
    match r {
        Some(p) => Some(p@),
        None => None,
    }
}

impl CommitDatabase {
    /// Number of commits under keyword `k`.
    fn commit_count(&self, k: usize) -> (r: usize)
        requires
            k < self@.len(),
        ensures
            r == shape(self@)[k as int],
    {
        self.keywords[k].commits.len()
    }

    /// The first keyword at or after `k` that has a commit, or the number of keywords.
    fn skip_empty_keywords(&self, k: usize) -> (r: usize)
        requires
            k <= self@.len(),
        ensures
            r == next_nonempty(shape(self@), k as int),
    {
        let ghost lens = shape(self@);
        let mut j: usize = k;
        while j < self.keywords.len() && self.commit_count(j) == 0
            invariant
                k <= j <= self@.len(),
                lens == shape(self@),
                lens.len() == self@.len(),
                next_nonempty(lens, k as int) == next_nonempty(lens, j as int),
            decreases self@.len() - j,
        {
            j = j + 1;
        }
        j
    }

    /// The first commit in visiting order; none when the database holds no commit.
    pub fn first_position(&self) -> (r: Option<Position>)
        ensures
            position_view(r) == first_position(shape(self@)),
            r matches Some(q) ==> valid_position(shape(self@), q@),
    {
        proof {
            lemma_first(shape(self@));
        }
        let k = self.skip_empty_keywords(0);
        if k < self.keywords.len() {
            Some(Position { keyword_index: k, commit_index: 0 })
        } else {
            None
        }
    }

    /// The commit after `p` in visiting order; none after the last commit.
    pub fn next_position(&self, p: Position) -> (r: Option<Position>)
        requires
            valid_position(shape(self@), p@),
        ensures
            position_view(r) == next_position(shape(self@), p@),
            r matches Some(q) ==> valid_position(shape(self@), q@),
    {
        proof {
            lemma_next(shape(self@), p@);
        }
        let n = self.commit_count(p.keyword_index);
        let nk = self.keywords.len();
        if p.commit_index + 1 < n {
            Some(Position { keyword_index: p.keyword_index, commit_index: p.commit_index + 1 })
        } else {
            let k = self.skip_empty_keywords(p.keyword_index + 1);
            if k < nk {
                Some(Position { keyword_index: k, commit_index: 0 })
            } else {
                None
            }
        }
    }

    /// The commit before `p` in visiting order; none before the first commit.
    pub fn previous_position(&self, p: Position) -> (r: Option<Position>)
        requires
            valid_position(shape(self@), p@),
        ensures
            position_view(r) == previous_position(shape(self@), p@),
            r matches Some(q) ==> valid_position(shape(self@), q@),
    {
        proof {
            lemma_previous(shape(self@), p@);
        }
        if p.commit_index > 0 {
            Some(Position { keyword_index: p.keyword_index, commit_index: p.commit_index - 1 })
        } else {
            let ghost lens = shape(self@);
            let mut k: usize = p.keyword_index;
            while k > 0 && self.commit_count(k - 1) == 0
                invariant
                    k <= p.keyword_index < self@.len(),
                    lens == shape(self@),
                    lens.len() == self@.len(),
                    prev_nonempty(lens, p.keyword_index as int) == prev_nonempty(lens, k as int),
                decreases k,
            {
                k = k - 1;
            }
            if k > 0 {
                let n = self.commit_count(k - 1);
                Some(Position { keyword_index: k - 1, commit_index: n - 1 })
            } else {
                None
            }
        }
    }

    /// The commit that `p` names.
    pub fn commit_at(&self, p: Position) -> (r: &crate::database::CommitRecord)
        requires
            valid_position(shape(self@), p@),
        ensures
            r@ == self@[p.keyword_index as int].commits[p.commit_index as int],
    {
        &self.keywords[p.keyword_index].commits[p.commit_index]
    }

    /// The keyword that `p` lies under.
    pub fn keyword_at(&self, p: Position) -> (r: &String)
        requires
            valid_position(shape(self@), p@),
        ensures
            r@ == self@[p.keyword_index as int].keyword,
    {
        &self.keywords[p.keyword_index].keyword
    }
}

} // verus!
