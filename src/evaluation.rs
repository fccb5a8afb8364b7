use vstd::prelude::*;
use vstd::string::*;

use crate::database::{CommitDatabase, CommitRecord, CommitView, KeywordCommits, KeywordView, RatingEntryView};
use crate::text::{decimal, push_decimal};

verus! {

/// How many of the ratings say `value` about whether the commit is a refactoring.
pub open spec fn votes(entries: Seq<RatingEntryView>, value: bool) -> nat
    decreases entries.len(),
{
    if entries.len() == 0 {
        0
    } else {
        votes(entries.drop_last(), value) + if entries.last().rating.is_refactoring == value {
            1nat
        } else {
            0nat
        }
    }
}

/// The verdict of the raters on one commit.
#[derive(Clone, Copy, Debug, PartialEq, Eq, Structural)]
pub enum EvaluationResult {
    TruePositive,
    FalsePositive,
    Unsure,
}

/// A commit that is not moved is a true positive when more raters call it a
/// refactoring than not, a false positive when fewer do, and unsure on a tie
/// (no ratings included). A moved commit is not evaluated.
pub open spec fn classification(c: CommitView) -> Option<EvaluationResult> {
    if c.moved {
        None
    } else {
        let yes = votes(c.ratings, true);
        let no = votes(c.ratings, false);
        if yes > no {
            Some(EvaluationResult::TruePositive)
        } else if yes < no {
            Some(EvaluationResult::FalsePositive)
        } else {
            Some(EvaluationResult::Unsure)
        }
    }
}

/// How many of `commits` are classified `r`.
pub open spec fn tally(commits: Seq<CommitView>, r: EvaluationResult) -> nat
    decreases commits.len(),
{
    if commits.len() == 0 {
        0
    } else {
        tally(commits.drop_last(), r) + if classification(commits.last()) == Some(r) {
            1nat
        } else {
            0nat
        }
    }
}

proof fn lemma_votes_bounded(entries: Seq<RatingEntryView>, value: bool)
    ensures
        votes(entries, value) <= entries.len(),
    decreases entries.len(),
{
    if entries.len() > 0 {
        lemma_votes_bounded(entries.drop_last(), value);
    }
}

proof fn lemma_tally_bounded(commits: Seq<CommitView>, r: EvaluationResult)
    ensures
        tally(commits, r) <= commits.len(),
    decreases commits.len(),
{
    if commits.len() > 0 {
        lemma_tally_bounded(commits.drop_last(), r);
    }
}

/// The counts of one keyword's commits by verdict.
#[derive(Clone, Debug)]
pub struct EvaluatedKeyword {
    pub keyword: String,
    pub true_positives: usize,
    pub false_positives: usize,
    pub unsure: usize,
}

/// `e` is the evaluation of `kw`.
pub open spec fn evaluates(e: EvaluatedKeyword, kw: KeywordView) -> bool {
    &&& e.keyword@ == kw.keyword
    &&& e.true_positives == tally(kw.commits, EvaluationResult::TruePositive)
    &&& e.false_positives == tally(kw.commits, EvaluationResult::FalsePositive)
    &&& e.unsure == tally(kw.commits, EvaluationResult::Unsure)
}

/// The verdict on `commit`; none for a moved commit.
pub fn classify(commit: &CommitRecord) -> (r: Option<EvaluationResult>)
    ensures
        r == classification(commit@),
{
    if commit.moved {
        return None;
    }
    let ghost entries = commit@.ratings;
    let mut yes: usize = 0;
    let mut no: usize = 0;
    let mut i: usize = 0;
    while i < commit.ratings.len()
        invariant
            i <= commit.ratings@.len(),
            entries == commit@.ratings,
            yes == votes(entries.subrange(0, i as int), true),
            no == votes(entries.subrange(0, i as int), false),
        decreases commit.ratings@.len() - i,
    {
        proof {
            assert(entries.subrange(0, i + 1).drop_last() =~= entries.subrange(0, i as int));
            lemma_votes_bounded(entries.subrange(0, i as int), true);
            lemma_votes_bounded(entries.subrange(0, i as int), false);
        }
        if commit.ratings[i].rating.is_refactoring {
            yes = yes + 1;
        } else {
            no = no + 1;
        }
        i = i + 1;
    }
    assert(entries.subrange(0, i as int) =~= entries);
    if yes > no {
        Some(EvaluationResult::TruePositive)
    } else if yes < no {
        Some(EvaluationResult::FalsePositive)
    } else {
        Some(EvaluationResult::Unsure)
    }
}

/// Counts the verdicts on the commits of one keyword.
pub fn evaluate_keyword(kw: &KeywordCommits) -> (r: EvaluatedKeyword)
    ensures
        evaluates(r, kw@),
{
    let ghost commits = kw@.commits;
    let mut tp: usize = 0;
    let mut fp: usize = 0;
    let mut unsure: usize = 0;
    let mut i: usize = 0;
    while i < kw.commits.len()
        invariant
            i <= kw.commits@.len(),
            commits == kw@.commits,
            tp == tally(commits.subrange(0, i as int), EvaluationResult::TruePositive),
            fp == tally(commits.subrange(0, i as int), EvaluationResult::FalsePositive),
            unsure == tally(commits.subrange(0, i as int), EvaluationResult::Unsure),
        decreases kw.commits@.len() - i,
    {
        proof {
            assert(commits.subrange(0, i + 1).drop_last() =~= commits.subrange(0, i as int));
            lemma_tally_bounded(commits.subrange(0, i as int), EvaluationResult::TruePositive);
            lemma_tally_bounded(commits.subrange(0, i as int), EvaluationResult::FalsePositive);
            lemma_tally_bounded(commits.subrange(0, i as int), EvaluationResult::Unsure);
        }
        match classify(&kw.commits[i]) {
            Some(EvaluationResult::TruePositive) => tp = tp + 1,
            Some(EvaluationResult::FalsePositive) => fp = fp + 1,
            Some(EvaluationResult::Unsure) => unsure = unsure + 1,
            None => {},
        }
        i = i + 1;
    }
    assert(commits.subrange(0, i as int) =~= commits);
    EvaluatedKeyword { keyword: kw.keyword.clone(), true_positives: tp, false_positives: fp, unsure }
}

/// Evaluates every keyword, in database order.
pub fn evaluate_keywords(db: &CommitDatabase) -> (r: Vec<EvaluatedKeyword>)
    ensures
        r@.len() == db@.len(),
        forall|k: int| 0 <= k < db@.len() ==> evaluates(#[trigger] r@[k], db@[k]),
{
    let mut out: Vec<EvaluatedKeyword> = Vec::new();
    let mut k: usize = 0;
    while k < db.keywords.len()
        invariant
            k <= db.keywords@.len(),
            out@.len() == k,
            forall|j: int| 0 <= j < k ==> evaluates(#[trigger] out@[j], db@[j]),
        decreases db.keywords@.len() - k,
    {
        out.push(evaluate_keyword(&db.keywords[k]));
        k = k + 1;
    }
    out
}


/// A terminal colour used in the console summary.
#[derive(Clone, Copy, Debug, PartialEq, Eq, Structural)]
pub enum Tint {
    Green,
    Cyan,
}

/// The ANSI foreground code of a tint.
pub open spec fn tint_code(t: Tint) -> Seq<char> {
    match t {
        Tint::Green => "32"@,
        Tint::Cyan => "36"@,
    }
}

/// `text` between the escape that selects the tint and the escape that resets it.
pub open spec fn painted(t: Tint, text: Seq<char>) -> Seq<char> {
    "\x1b["@ + tint_code(t) + "m"@ + text + "\x1b[0m"@
}

/// Relies on ansi_term's `Colour::paint` and the `Display` of the painted
/// string: a foreground colour alone is written as its start escape, the text,
/// and the reset escape.
#[verifier::external_body]
fn paint(t: Tint, text: &str) -> (r: String)
    ensures
        r@ == painted(t, text@),
{
    let colour = match t {
        Tint::Green => ansi_term::Colour::Green,
        Tint::Cyan => ansi_term::Colour::Cyan,
    };
    colour.paint(text).to_string()
}

/// The first line of the CSV summary.
pub open spec fn csv_header_text() -> Seq<char> {
    "keyword,true_positives,false_positives,unsure\n"@
}

/// One CSV line: keyword, true positives, false positives, unsure.
pub open spec fn csv_row_text(e: EvaluatedKeyword) -> Seq<char> {
    e.keyword@ + ","@ + decimal(e.true_positives as nat) + ","@ + decimal(
        e.false_positives as nat,
    ) + ","@ + decimal(e.unsure as nat) + "\n"@
}

/// The CSV lines of all results, in order.
pub open spec fn csv_rows_text(rows: Seq<EvaluatedKeyword>) -> Seq<char>
    decreases rows.len(),
{
    if rows.len() == 0 {
        Seq::empty()
    } else {
        csv_rows_text(rows.drop_last()) + csv_row_text(rows.last())
    }
}

/// The console text of one result, with the two headings coloured.
pub open spec fn colored_text(e: EvaluatedKeyword) -> Seq<char> {
    e.keyword@ + ":\n  "@ + painted(Tint::Green, "True Positives"@) + ": "@ + decimal(
        e.true_positives as nat,
    ) + "\n  "@ + painted(Tint::Cyan, "False Positives"@) + ": "@ + decimal(
        e.false_positives as nat,
    ) + "\n  Unsure: "@ + decimal(e.unsure as nat) + "\n"@
}

/// The console texts of all results, one after the other.
pub open spec fn colored_report_text(rows: Seq<EvaluatedKeyword>) -> Seq<char>
    decreases rows.len(),
{
    if rows.len() == 0 {
        Seq::empty()
    } else {
        colored_report_text(rows.drop_last()) + colored_text(rows.last())
    }
}

/// The emphasis of a piece of styled text in the in-session summary.
#[derive(Clone, Copy, Debug, PartialEq, Eq, Structural)]
pub enum Tone {
    Primary,
    Secondary,
    Tertiary,
}

/// A piece of text with its emphasis.
#[derive(Clone, Debug)]
pub struct StyledText {
    pub text: String,
    pub tone: Tone,
}

impl EvaluatedKeyword {
    /// The result as one CSV line.
    pub fn to_csv_row(&self) -> (r: String)
        ensures
            r@ == csv_row_text(*self),
    {
        let mut s = self.keyword.clone();
        s.append(",");
        push_decimal(&mut s, self.true_positives);
        s.append(",");
        push_decimal(&mut s, self.false_positives);
        s.append(",");
        push_decimal(&mut s, self.unsure);
        s.append("\n");
        s
    }

    /// The result as console text with coloured headings.
    pub fn to_colored_string(&self) -> (r: String)
        ensures
            r@ == colored_text(*self),
    {
        let mut s = self.keyword.clone();
        s.append(":\n  ");
        let green = paint(Tint::Green, "True Positives");
        s.append(green.as_str());
        s.append(": ");
        push_decimal(&mut s, self.true_positives);
        s.append("\n  ");
        let cyan = paint(Tint::Cyan, "False Positives");
        s.append(cyan.as_str());
        s.append(": ");
        push_decimal(&mut s, self.false_positives);
        s.append("\n  Unsure: ");
        push_decimal(&mut s, self.unsure);
        s.append("\n");
        s
    }

    /// The result as styled pieces for the in-session summary: the keyword line,
    /// then each heading in its own tone followed by its count.
    pub fn to_styled_string(&self) -> (r: Vec<StyledText>)
        ensures
            r@.len() == 6,
            r@[0].text@ == self.keyword@ + ":\n"@ && r@[0].tone == Tone::Primary,
            r@[1].text@ == "  True Positives"@ && r@[1].tone == Tone::Secondary,
            r@[2].text@ == ": "@ + decimal(self.true_positives as nat) + "\n"@ && r@[2].tone
                == Tone::Primary,
            r@[3].text@ == "  False Positives"@ && r@[3].tone == Tone::Tertiary,
            r@[4].text@ == ": "@ + decimal(self.false_positives as nat) + "\n"@ && r@[4].tone
                == Tone::Primary,
            r@[5].text@ == "  Unsure: "@ + decimal(self.unsure as nat) + "\n"@ && r@[5].tone
                == Tone::Primary,
    {
        let mut out: Vec<StyledText> = Vec::new();
        let mut title = self.keyword.clone();
        title.append(":\n");
        out.push(StyledText { text: title, tone: Tone::Primary });
        out.push(StyledText { text: String::from_str("  True Positives"), tone: Tone::Secondary });
        let mut tp = String::from_str(": ");
        push_decimal(&mut tp, self.true_positives);
        tp.append("\n");
        out.push(StyledText { text: tp, tone: Tone::Primary });
        out.push(StyledText { text: String::from_str("  False Positives"), tone: Tone::Tertiary });
        let mut fp = String::from_str(": ");
        push_decimal(&mut fp, self.false_positives);
        fp.append("\n");
        out.push(StyledText { text: fp, tone: Tone::Primary });
        let mut unsure = String::from_str("  Unsure: ");
        push_decimal(&mut unsure, self.unsure);
        unsure.append("\n");
        out.push(StyledText { text: unsure, tone: Tone::Primary });
        out
    }
}

/// The CSV summary: the header line, then one line per result.
pub fn csv_document(rows: &Vec<EvaluatedKeyword>) -> (r: String)
    ensures
        r@ == csv_header_text() + csv_rows_text(rows@),
{
    let mut s = String::from_str("keyword,true_positives,false_positives,unsure\n");
    let mut i: usize = 0;
    while i < rows.len()
        invariant
            i <= rows@.len(),
            s@ == csv_header_text() + csv_rows_text(rows@.subrange(0, i as int)),
        decreases rows@.len() - i,
    {
        assert(rows@.subrange(0, i + 1).drop_last() =~= rows@.subrange(0, i as int));
        let row = rows[i].to_csv_row();
        s.append(row.as_str());
        i = i + 1;
        assert(s@ =~= csv_header_text() + csv_rows_text(rows@.subrange(0, i as int)));
    }
    assert(rows@.subrange(0, i as int) =~= rows@);
    s
}

/// The console summary: every result's coloured text, one after the other.
pub fn colored_report(rows: &Vec<EvaluatedKeyword>) -> (r: String)
    ensures
        r@ == colored_report_text(rows@),
{
    let mut s = String::new();
    let mut i: usize = 0;
    while i < rows.len()
        invariant
            i <= rows@.len(),
            s@ == colored_report_text(rows@.subrange(0, i as int)),
        decreases rows@.len() - i,
    {
        assert(rows@.subrange(0, i + 1).drop_last() =~= rows@.subrange(0, i as int));
        let text = rows[i].to_colored_string();
        s.append(text.as_str());
        i = i + 1;
        assert(s@ =~= colored_report_text(rows@.subrange(0, i as int)));
    }
    assert(rows@.subrange(0, i as int) =~= rows@);
    s
}

} // verus!
