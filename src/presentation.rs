use vstd::prelude::*;
use vstd::string::*;

use crate::database::{lookup, CommitRecord, CommitView};
use crate::session::Submission;

verus! {

/// The three answers a rater can give about a commit.
#[derive(Clone, Copy, Debug, PartialEq, Eq, Structural)]
pub enum Choice {
    /// The commit is a refactoring.
    Valid,
    /// The commit does not contain a refactoring.
    Invalid,
    /// The commit can no longer be retrieved.
    Broken,
}

/// The rating inputs shown for a commit: which answer is selected, the comment,
/// and which inputs accept changes.
#[derive(Clone, Debug)]
pub struct RatingForm {
    pub selected: Choice,
    pub comment: String,
    pub valid_enabled: bool,
    pub invalid_enabled: bool,
    pub broken_enabled: bool,
    pub comment_enabled: bool,
}

/// The answer preselected for the rater: broken for a moved commit, otherwise
/// the rater's earlier answer, and "not a refactoring" when there is none.
pub open spec fn preselected(c: CommitView, reviewer: Seq<char>) -> Choice {
    if c.moved {
        Choice::Broken
    } else {
        match lookup(c.ratings, reviewer) {
            Some(r) => if r.is_refactoring { Choice::Valid } else { Choice::Invalid },
            None => Choice::Invalid,
        }
    }
}

/// The comment prefilled for the rater: their earlier comment, or nothing.
pub open spec fn prefilled_comment(c: CommitView, reviewer: Seq<char>) -> Seq<char> {
    match lookup(c.ratings, reviewer) {
        Some(r) => r.comment,
        None => Seq::empty(),
    }
}

/// The inputs for `commit` as the rater sees them. A moved commit can only be
/// marked broken; in a read-only session nothing can be changed.
pub fn rating_form(commit: &CommitRecord, reviewer: &String, readonly: bool) -> (r: RatingForm)
    ensures
        r.selected == preselected(commit@, reviewer@),
        r.comment@ == prefilled_comment(commit@, reviewer@),
        r.valid_enabled == (!commit@.moved && !readonly),
        r.invalid_enabled == (!commit@.moved && !readonly),
        r.broken_enabled == !readonly,
        r.comment_enabled == !readonly,
{
    let existing = commit.rating_of(reviewer);
    let comment = match existing {
        Some(rating) => rating.comment.clone(),
        None => String::new(),
    };
    let selected = if commit.moved {
        Choice::Broken
    } else {
        match existing {
            Some(rating) => if rating.is_refactoring { Choice::Valid } else { Choice::Invalid },
            None => Choice::Invalid,
        }
    };
    let choices = !commit.moved && !readonly;
    RatingForm {
        selected,
        comment,
        valid_enabled: choices,
        invalid_enabled: choices,
        broken_enabled: !readonly,
        comment_enabled: !readonly,
    }
}

/// What the rater submits with the answer `selected` and `comment`: a
/// refactoring only for a valid answer, moved only for a broken one.
pub fn submission(selected: Choice, comment: String) -> (r: Submission)
    ensures
        r.comment@ == comment@,
        r.is_refactoring == (selected == Choice::Valid),
        r.moved == (selected == Choice::Broken),
{
    Submission {
        comment,
        is_refactoring: selected == Choice::Valid,
        moved: selected == Choice::Broken,
    }
}

/// The heading of a commit: keyword, section, origin, hash and time, marked
/// as loading until its message and diff have arrived.
pub open spec fn title_text(keyword: Seq<char>, c: CommitView, loading: bool) -> Seq<char> {
    let body = "'"@ + keyword + "' / "@ + c.section + " | "@ + c.origin + " @ "@ + c.commit + " - "@
        + c.time;
    if loading {
        "Loading "@ + body
    } else {
        body
    }
}

/// The heading of `commit` under `keyword`; see `title_text`.
pub fn commit_title(keyword: &String, commit: &CommitRecord, loading: bool) -> (r: String)
    ensures
        r@ == title_text(keyword@, commit@, loading),
{
    let mut s = if loading {
        String::from_str("Loading '")
    } else {
        String::from_str("'")
    };
    proof {
        reveal_strlit("Loading '");
        reveal_strlit("Loading ");
        reveal_strlit("'");
    }
    s.append(keyword.as_str());
    s.append("' / ");
    s.append(commit.section.as_str());
    s.append(" | ");
    s.append(commit.origin.as_str());
    s.append(" @ ");
    s.append(commit.commit.as_str());
    s.append(" - ");
    s.append(commit.time.as_str());
    assert(s@ =~= title_text(keyword@, commit@, loading));
    s
}

} // verus!
