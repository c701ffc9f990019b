//! The ranklist engine: per-user, per-problem metrics under a scoring rule,
//! a deterministic sort under a tie-breaker, and standard competition ranks.

use vstd::prelude::*;
use vstd::multiset::Multiset;
use vstd::seq_lib::group_to_multiset_ensures;

use core::cmp::Ordering;

use crate::config::{spec_get_problem, Config, Problem};
use crate::error::{code_of, Error, Reason};
use crate::jobs::Job;
use crate::store::{highest_pref, latest_pref, triple_matches, JobStore, User};

verus! {

/// How the counted submission of a user on a problem is selected.
#[derive(Clone, Copy, Debug, PartialEq, Eq, Structural)]
pub enum ScoringRule {
    Latest,
    Highest,
}

/// How users with equal totals are ordered and ranked.
#[derive(Clone, Copy, Debug, PartialEq, Eq, Structural)]
pub enum TieBreaker {
    Default,
    SubmissionTime,
    SubmissionCount,
    UserId,
}

/// The two choices of a ranklist query; absent ones fall back to `Latest`
/// and `Default`.
#[derive(Clone, Copy, Debug)]
pub struct RankingRule {
    pub scoring_rule: Option<ScoringRule>,
    pub tie_breaker: Option<TieBreaker>,
}

/// What one problem contributes to a user's standing: the selected
/// submission's score and creation time, and how many submissions the user
/// made on the problem.
#[derive(Clone, Copy, Debug, PartialEq, Eq, Structural)]
pub struct ProblemResult {
    pub score: u64,
    pub submission_time: i64,
    pub submission_count: u64,
}

/// One user's standing: their per-problem results, aligned with the chosen
/// problem list, `None` where the user never submitted.
#[derive(Debug)]
pub struct RankEntry {
    pub user: User,
    pub results: Vec<Option<ProblemResult>>,
}

/// One row of the ranklist response.
#[derive(Debug)]
pub struct RankingItem {
    pub user: User,
    pub rank: u32,
    pub scores: Vec<u64>,
}

/// A user's total: the sum of their selected scores.
pub open spec fn total_of(rs: Seq<Option<ProblemResult>>) -> int
    decreases rs.len(),
{
    if rs.len() == 0 {
        0
    } else {
        total_of(rs.drop_last()) + match rs.last() {
            Some(p) => p.score as int,
            None => 0,
        }
    }
}

/// A user's total submission count over all problems.
pub open spec fn count_of(rs: Seq<Option<ProblemResult>>) -> int
    decreases rs.len(),
{
    if rs.len() == 0 {
        0
    } else {
        count_of(rs.drop_last()) + match rs.last() {
            Some(p) => p.submission_count as int,
            None => 0,
        }
    }
}

/// A user's latest submission time over all problems, `None` where the user
/// never submitted.
pub open spec fn time_of(rs: Seq<Option<ProblemResult>>) -> Option<i64>
    decreases rs.len(),
{
    if rs.len() == 0 {
        None
    } else {
        let rest = time_of(rs.drop_last());
        match rs.last() {
            None => rest,
            Some(p) => match rest {
                None => Some(p.submission_time),
                Some(t) => if p.submission_time > t {
                    Some(p.submission_time)
                } else {
                    Some(t)
                },
            },
        }
    }
}

/// The score a standing displays for one problem: the selected score, or 0
/// where the user never submitted.
pub open spec fn displayed(m: Option<ProblemResult>) -> u64 {
    match m {
        Some(pr) => pr.score,
        None => 0u64,
    }
}

/// The sum of a row of displayed scores.
pub open spec fn scores_sum(s: Seq<u64>) -> int
    decreases s.len(),
{
    if s.len() == 0 {
        0
    } else {
        scores_sum(s.drop_last()) + s.last()
    }
}

/// Displayed scores sum to the user's total.
proof fn lemma_scores_sum(results: Seq<Option<ProblemResult>>, s: Seq<u64>)
    requires
        s.len() == results.len(),
        forall|k: int| 0 <= k < s.len() ==> s[k] == displayed(#[trigger] results[k]),
    ensures
        scores_sum(s) == total_of(results),
    decreases s.len(),
{
    if s.len() > 0 {
        lemma_scores_sum(results.drop_last(), s.drop_last());
    }
}

/// Totals and counts stay within `len` times the largest case value.
proof fn lemma_sums_bounded(rs: Seq<Option<ProblemResult>>)
    ensures
        0 <= total_of(rs) <= rs.len() * 0xffff_ffff_ffff_ffff,
        0 <= count_of(rs) <= rs.len() * 0xffff_ffff_ffff_ffff,
    decreases rs.len(),
{
    if rs.len() > 0 {
        lemma_sums_bounded(rs.drop_last());
    }
}

/// How a tie-breaker orders two users with the same total: `Less` means the
/// first ranks strictly better. Totals order first, descending; then the
/// tie-breaker key; `Default` declares every total-tie equal. A user who
/// never submitted is latest-possible under `SubmissionTime`.
pub open spec fn spec_compare(rule: TieBreaker, a: RankEntry, b: RankEntry) -> Ordering {
    let ta = total_of(a.results@);
    let tb = total_of(b.results@);
    if ta > tb {
        Ordering::Less
    } else if ta < tb {
        Ordering::Greater
    } else {
        match rule {
            TieBreaker::Default => Ordering::Equal,
            TieBreaker::SubmissionTime => {
                match (time_of(a.results@), time_of(b.results@)) {
                    (Option::None, Option::None) => Ordering::Equal,
                    (Option::None, Option::Some(_)) => Ordering::Greater,
                    (Option::Some(_), Option::None) => Ordering::Less,
                    (Option::Some(x), Option::Some(y)) => if x < y {
                        Ordering::Less
                    } else if x == y {
                        Ordering::Equal
                    } else {
                        Ordering::Greater
                    },
                }
            },
            TieBreaker::SubmissionCount => {
                let ca = count_of(a.results@);
                let cb = count_of(b.results@);
                if ca < cb {
                    Ordering::Less
                } else if ca == cb {
                    Ordering::Equal
                } else {
                    Ordering::Greater
                }
            },
            TieBreaker::UserId => {
                if a.user.id < b.user.id {
                    Ordering::Less
                } else if a.user.id == b.user.id {
                    Ordering::Equal
                } else {
                    Ordering::Greater
                }
            },
        }
    }
}

/// The sum of a user's selected scores, as displayed.
fn total_score(results: &Vec<Option<ProblemResult>>) -> (r: u128)
    ensures
        r == total_of(results@),
{
    let mut acc: u128 = 0;
    let mut i: usize = 0;
    while i < results.len()
        invariant
            i <= results.len(),
            acc == total_of(results@.take(i as int)),
        decreases results.len() - i,
    {
        proof {
            lemma_sums_bounded(results@.take(i as int));
            assert(results@.take(i + 1).drop_last() =~= results@.take(i as int));
            assert(results@.take(i + 1).last() == results@[i as int]);
        }
        match &results[i] {
            Some(p) => {
                acc = acc + (p.score as u128);
            },
            None => {},
        }
        i = i + 1;
    }
    proof {
        assert(results@.take(results.len() as int) =~= results@);
    }
    acc
}

/// The sum of a user's submission counts.
fn total_count(results: &Vec<Option<ProblemResult>>) -> (r: u128)
    ensures
        r == count_of(results@),
{
    let mut acc: u128 = 0;
    let mut i: usize = 0;
    while i < results.len()
        invariant
            i <= results.len(),
            acc == count_of(results@.take(i as int)),
        decreases results.len() - i,
    {
        proof {
            lemma_sums_bounded(results@.take(i as int));
            assert(results@.take(i + 1).drop_last() =~= results@.take(i as int));
            assert(results@.take(i + 1).last() == results@[i as int]);
        }
        match &results[i] {
            Some(p) => {
                acc = acc + (p.submission_count as u128);
            },
            None => {},
        }
        i = i + 1;
    }
    proof {
        assert(results@.take(results.len() as int) =~= results@);
    }
    acc
}

/// The latest submission time, `None` where the user never submitted.
fn latest_time(results: &Vec<Option<ProblemResult>>) -> (r: Option<i64>)
    ensures
        r == time_of(results@),
{
    let mut cur: Option<i64> = None;
    let mut i: usize = 0;
    while i < results.len()
        invariant
            i <= results.len(),
            cur == time_of(results@.take(i as int)),
        decreases results.len() - i,
    {
        proof {
            assert(results@.take(i + 1).drop_last() =~= results@.take(i as int));
            assert(results@.take(i + 1).last() == results@[i as int]);
        }
        match &results[i] {
            Some(p) => {
                match cur {
                    None => {
                        cur = Some(p.submission_time);
                    },
                    Some(t) => {
                        if p.submission_time > t {
                            cur = Some(p.submission_time);
                        }
                    },
                }
            },
            None => {},
        }
        i = i + 1;
    }
    proof {
        assert(results@.take(results.len() as int) =~= results@);
    }
    cur
}

impl TieBreaker {
    /// Order two users' standings: totals descending, then this tie-breaker's
    /// key.
    pub fn compare(&self, a: &RankEntry, b: &RankEntry) -> (r: Ordering)
        ensures
            r == spec_compare(*self, *a, *b),
    {
        let ta = total_score(&a.results);
        let tb = total_score(&b.results);
        if ta > tb {
            return Ordering::Less;
        }
        if ta < tb {
            return Ordering::Greater;
        }
        match self {
            TieBreaker::Default => Ordering::Equal,
            TieBreaker::SubmissionTime => {
                let x = latest_time(&a.results);
                let y = latest_time(&b.results);
                match (x, y) {
                    (None, None) => Ordering::Equal,
                    (None, Some(_)) => Ordering::Greater,
                    (Some(_), None) => Ordering::Less,
                    (Some(p), Some(q)) => {
                        if p < q {
                            Ordering::Less
                        } else if p == q {
                            Ordering::Equal
                        } else {
                            Ordering::Greater
                        }
                    },
                }
            },
            TieBreaker::SubmissionCount => {
                let ca = total_count(&a.results);
                let cb = total_count(&b.results);
                if ca < cb {
                    Ordering::Less
                } else if ca == cb {
                    Ordering::Equal
                } else {
                    Ordering::Greater
                }
            },
            TieBreaker::UserId => {
                if a.user.id < b.user.id {
                    Ordering::Less
                } else if a.user.id == b.user.id {
                    Ordering::Equal
                } else {
                    Ordering::Greater
                }
            },
        }
    }
}

/// The presentation order of the ranklist: better-compared first, and among
/// rows the tie-breaker declares equal, ascending user id.
pub open spec fn row_le(rule: TieBreaker, a: RankEntry, b: RankEntry) -> bool {
    ||| spec_compare(rule, a, b) == Ordering::Less
    ||| (spec_compare(rule, a, b) == Ordering::Equal && a.user.id <= b.user.id)
}

/// The presentation order is total.
proof fn lemma_row_le_total(rule: TieBreaker, a: RankEntry, b: RankEntry)
    ensures
        row_le(rule, a, b) || row_le(rule, b, a),
{
}

/// The presentation order is transitive.
proof fn lemma_row_le_trans(rule: TieBreaker, a: RankEntry, b: RankEntry, c: RankEntry)
    requires
        row_le(rule, a, b),
        row_le(rule, b, c),
    ensures
        row_le(rule, a, c),
{
}

/// Whether the rows are sorted for presentation.
pub open spec fn rows_sorted(rule: TieBreaker, rows: Seq<RankEntry>) -> bool {
    forall|i: int, j: int| 0 <= i < j < rows.len() ==> row_le(rule, #[trigger] rows[i], #[trigger] rows[j])
}

/// Whether `row_le(rule, a, b)` holds.
fn row_le_exec(rule: &TieBreaker, a: &RankEntry, b: &RankEntry) -> (r: bool)
    ensures
        r == row_le(*rule, *a, *b),
{
    let c = rule.compare(a, b);
    match c {
        Ordering::Less => true,
        Ordering::Equal => a.user.id <= b.user.id,
        Ordering::Greater => false,
    }
}

/// Sort the rows for presentation: the result is a permutation of the input,
/// ordered by the tie-breaker's comparison and then by user id.
pub fn sort_entries(rule: &TieBreaker, rows: Vec<RankEntry>) -> (r: Vec<RankEntry>)
    ensures
        r@.to_multiset() == rows@.to_multiset(),
        r@.len() == rows@.len(),
        rows_sorted(*rule, r@),
{
    broadcast use group_to_multiset_ensures;

    let mut src = rows;
    let mut out: Vec<RankEntry> = Vec::new();
    proof {
        assert(out@.to_multiset().add(src@.to_multiset()) =~= rows@.to_multiset());
    }
    while src.len() > 0
        invariant
            out@.to_multiset().add(src@.to_multiset()) == rows@.to_multiset(),
            out@.len() + src@.len() == rows@.len(),
            rows_sorted(*rule, out@),
            forall|i: int, j: int|
                0 <= i < out@.len() && 0 <= j < src@.len() ==> row_le(
                    *rule,
                    #[trigger] out@[i],
                    #[trigger] src@[j],
                ),
        decreases src.len(),
    {
        // Find the least remaining row under the presentation order.
        let mut m: usize = 0;
        let mut i: usize = 1;
        while i < src.len()
            invariant
                m < i <= src.len(),
                forall|k: int| 0 <= k < i ==> row_le(*rule, src@[m as int], #[trigger] src@[k]),
            decreases src.len() - i,
        {
            if !row_le_exec(rule, &src[m], &src[i]) {
                proof {
                    lemma_row_le_total(*rule, src@[m as int], src@[i as int]);
                    assert forall|k: int| 0 <= k < i + 1 implies row_le(
                        *rule,
                        src@[i as int],
                        #[trigger] src@[k],
                    ) by {
                        if k < i {
                            lemma_row_le_trans(*rule, src@[i as int], src@[m as int], src@[k]);
                        }
                    }
                }
                m = i;
            }
            i = i + 1;
        }
        let ghost src0 = src@;
        let ghost out0 = out@;
        let x = src.remove(m);
        out.push(x);
        proof {
            out0.to_multiset_ensures();
            src0.to_multiset_ensures();
            assert(out@ == out0.push(x));
            assert(src@ == src0.remove(m as int));
            assert(out0.push(x).to_multiset() == out0.to_multiset().insert(x));
            assert(src0.remove(m as int).to_multiset() == src0.to_multiset().remove(
                src0[m as int],
            ));
            assert(src0.to_multiset().count(x) > 0);
            assert(out@.to_multiset().add(src@.to_multiset()) =~= rows@.to_multiset());
            // The removed row stays below everything that remains.
            assert forall|j: int| 0 <= j < src@.len() implies row_le(
                *rule,
                x,
                #[trigger] src@[j],
            ) by {
                if j < m {
                    assert(src@[j] == src0[j]);
                } else {
                    assert(src@[j] == src0[j + 1]);
                }
            }
        }
    }
    proof {
        assert(src@.to_multiset() =~= Multiset::<RankEntry>::empty());
        assert(out@.to_multiset() =~= rows@.to_multiset());
    }
    out
}

/// The ranks of sorted rows: row 0 gets rank 1, and each later row keeps its
/// predecessor's rank exactly when the tie-breaker declares them equal, else
/// its position plus one. Ranks never decrease along the list, and two
/// neighbours share a rank exactly when they compare equal.
pub fn assign_ranks(rule: &TieBreaker, rows: &Vec<RankEntry>) -> (r: Vec<u32>)
    requires
        rows@.len() <= u32::MAX,
    ensures
        r@.len() == rows@.len(),
        rows@.len() > 0 ==> r@[0] == 1,
        forall|i: int|
            1 <= i < rows@.len() ==> #[trigger] r@[i] == if spec_compare(
                *rule,
                rows@[i],
                rows@[i - 1],
            ) == Ordering::Equal {
                r@[i - 1]
            } else {
                (i + 1) as u32
            },
        forall|i: int| 0 <= i < rows@.len() ==> 1 <= #[trigger] r@[i] <= i + 1,
        forall|i: int|
            1 <= i < rows@.len() ==> #[trigger] r@[i - 1] <= r@[i] && ((r@[i - 1] == r@[i])
                <==> spec_compare(*rule, rows@[i], rows@[i - 1]) == Ordering::Equal),
{
    let mut out: Vec<u32> = Vec::new();
    let mut i: usize = 0;
    while i < rows.len()
        invariant
            i <= rows.len(),
            rows@.len() <= u32::MAX,
            out@.len() == i,
            i > 0 ==> out@[0] == 1,
            forall|k: int|
                1 <= k < i ==> #[trigger] out@[k] == if spec_compare(
                    *rule,
                    rows@[k],
                    rows@[k - 1],
                ) == Ordering::Equal {
                    out@[k - 1]
                } else {
                    (k + 1) as u32
                },
            forall|k: int| 0 <= k < i ==> 1 <= #[trigger] out@[k] <= k + 1,
        decreases rows.len() - i,
    {
        if i == 0 {
            out.push(1);
        } else {
            let c = rule.compare(&rows[i], &rows[i - 1]);
            let prev = out[i - 1];
            let rank = match c {
                Ordering::Equal => prev,
                _ => (i + 1) as u32,
            };
            out.push(rank);
        }
        i = i + 1;
    }
    out
}

/// The problems a contest poses that the configuration knows, in the order
/// the contest lists them; unknown ids are dropped.
pub open spec fn known_problems(config: Config, ids: Seq<u32>) -> Seq<Problem>
    decreases ids.len(),
{
    if ids.len() == 0 {
        Seq::empty()
    } else {
        let rest = known_problems(config, ids.drop_last());
        match spec_get_problem(config.problems@, ids.last()) {
            Some(p) => rest.push(p),
            None => rest,
        }
    }
}

/// Resolve a contest's problem list against the configuration.
fn resolve_problems<'a>(config: &'a Config, ids: &Vec<u32>) -> (r: Vec<&'a Problem>)
    ensures
        r@.map_values(|p: &Problem| *p) == known_problems(*config, ids@),
{
    let mut out: Vec<&Problem> = Vec::new();
    proof {
        assert(out@.map_values(|p: &Problem| *p) =~= known_problems(*config, ids@.take(0)));
    }
    let mut i: usize = 0;
    while i < ids.len()
        invariant
            i <= ids.len(),
            out@.map_values(|p: &Problem| *p) == known_problems(*config, ids@.take(i as int)),
        decreases ids.len() - i,
    {
        proof {
            assert(ids@.take(i + 1).drop_last() =~= ids@.take(i as int));
            assert(ids@.take(i + 1).last() == ids@[i as int]);
        }
        match config.get_problem(ids[i]) {
            Some(p) => {
                out.push(p);
                proof {
                    assert(out@.map_values(|p: &Problem| *p) =~= known_problems(
                        *config,
                        ids@.take(i + 1),
                    ));
                }
            },
            None => {},
        }
        i = i + 1;
    }
    proof {
        assert(ids@.take(ids.len() as int) =~= ids@);
    }
    out
}

/// A stored job is the one a scoring rule selects for a user on a problem in
/// a contest: it matches the triple, and no other matching job is preferred
/// (more recent under `Latest`; better-scoring under `Highest`).
pub open spec fn is_selected(
    store: JobStore,
    rule: ScoringRule,
    uid: u32,
    pid: u32,
    cid: u32,
    j: Job,
) -> bool {
    &&& j.id < store.jobs.len()
    &&& store.jobs@[j.id as int] == j
    &&& triple_matches(j, uid, pid, cid)
    &&& forall|i: int|
        0 <= i < store.jobs.len() && triple_matches(#[trigger] store.jobs@[i], uid, pid, cid)
            ==> match rule {
            ScoringRule::Latest => !latest_pref(store.jobs@[i], j),
            ScoringRule::Highest => !highest_pref(store.jobs@[i], j),
        }
}

/// Under `Latest`, the selected submission's creation time is maximal among
/// the user's submissions on the problem in the contest.
pub proof fn lemma_latest_maximal(store: JobStore, uid: u32, pid: u32, cid: u32, j: Job)
    requires
        is_selected(store, ScoringRule::Latest, uid, pid, cid, j),
    ensures
        forall|i: int|
            0 <= i < store.jobs.len() && triple_matches(#[trigger] store.jobs@[i], uid, pid, cid)
                ==> store.jobs@[i].created_time <= j.created_time,
{
}

/// Under `Highest`, the selected submission's score is maximal among the
/// user's submissions on the problem in the contest, and among those with the
/// same score its creation time is minimal.
pub proof fn lemma_highest_maximal(store: JobStore, uid: u32, pid: u32, cid: u32, j: Job)
    requires
        is_selected(store, ScoringRule::Highest, uid, pid, cid, j),
    ensures
        forall|i: int|
            0 <= i < store.jobs.len() && triple_matches(#[trigger] store.jobs@[i], uid, pid, cid)
                ==> store.jobs@[i].score <= j.score,
        forall|i: int|
            0 <= i < store.jobs.len() && triple_matches(#[trigger] store.jobs@[i], uid, pid, cid)
                && store.jobs@[i].score == j.score ==> store.jobs@[i].created_time
                >= j.created_time,
{
}

/// What one problem contributes to a user's standing: nothing where the user
/// never submitted, else the selected submission's score and creation time
/// together with the user's submission count on the problem.
pub open spec fn metric_ok(
    store: JobStore,
    rule: ScoringRule,
    uid: u32,
    pid: u32,
    cid: u32,
    m: Option<ProblemResult>,
) -> bool {
    match m {
        None => forall|i: int|
            0 <= i < store.jobs.len() ==> !triple_matches(#[trigger] store.jobs@[i], uid, pid, cid),
        Some(pr) => {
            &&& exists|j: Job|
                #[trigger] is_selected(store, rule, uid, pid, cid, j) && pr.score == j.score
                    && pr.submission_time == j.created_time
            &&& pr.submission_count == store.jobs@.filter(
                |j: Job| triple_matches(j, uid, pid, cid),
            ).len()
        },
    }
}

/// A standing that is right for its user: one entry per chosen problem, each
/// the metric the scoring rule owes.
pub open spec fn entry_ok(
    store: JobStore,
    rule: ScoringRule,
    cid: u32,
    problems: Seq<Problem>,
    e: RankEntry,
) -> bool {
    &&& e.results@.len() == problems.len()
    &&& forall|q: int|
        0 <= q < problems.len() ==> metric_ok(
            store,
            rule,
            e.user.id,
            (#[trigger] problems[q]).id,
            cid,
            e.results@[q],
        )
}

/// The scoring rule a query chooses, falling back to `Latest`.
pub open spec fn chosen_scoring(rule: RankingRule) -> ScoringRule {
    match rule.scoring_rule {
        Some(s) => s,
        None => ScoringRule::Latest,
    }
}

/// The tie-breaker a query chooses, falling back to `Default`.
pub open spec fn chosen_breaker(rule: RankingRule) -> TieBreaker {
    match rule.tie_breaker {
        Some(t) => t,
        None => TieBreaker::Default,
    }
}

/// The problems a ranklist covers: all configured problems for the global
/// pseudo-contest, else the contest's known problems.
pub open spec fn chosen_problems(config: Config, store: JobStore, cid: u32) -> Seq<Problem> {
    if cid == 0 {
        config.problems@
    } else {
        known_problems(config, store.contests@[cid - 1].problem_ids@)
    }
}

/// Build one user's standing over the chosen problems.
fn build_entry(
    store: &JobStore,
    rule: &ScoringRule,
    user: &User,
    problems: &Vec<&Problem>,
    cid: u32,
) -> (r: RankEntry)
    requires
        store.wf(),
    ensures
        r.user == *user,
        entry_ok(*store, *rule, cid, problems@.map_values(|p: &Problem| *p), r),
{
    let mut results: Vec<Option<ProblemResult>> = Vec::new();
    let mut k: usize = 0;
    while k < problems.len()
        invariant
            k <= problems.len(),
            store.wf(),
            results@.len() == k,
            forall|q: int|
                0 <= q < k ==> metric_ok(
                    *store,
                    *rule,
                    user.id,
                    (#[trigger] problems@[q]).id,
                    cid,
                    results@[q],
                ),
        decreases problems.len() - k,
    {
        let pid = problems[k].id;
        let selected = match rule {
            ScoringRule::Latest => store.get_latest_submission(user.id, pid, cid),
            ScoringRule::Highest => store.get_highest_submission(user.id, pid, cid),
        };
        let metric = match selected {
            None => None,
            Some(j) => {
                let count = store.get_submission_count(user.id, pid, cid);
                proof {
                    assert(is_selected(*store, *rule, user.id, pid, cid, *j));
                }
                Some(
                    ProblemResult {
                        score: j.score,
                        submission_time: j.created_time,
                        submission_count: count,
                    },
                )
            },
        };
        results.push(metric);
        k = k + 1;
    }
    let entry = RankEntry { user: user.clone(), results };
    proof {
        let mapped = problems@.map_values(|p: &Problem| *p);
        assert forall|q: int| 0 <= q < mapped.len() implies metric_ok(
            *store,
            *rule,
            entry.user.id,
            (#[trigger] mapped[q]).id,
            cid,
            entry.results@[q],
        ) by {
            assert(mapped[q] == *problems@[q]);
        }
    }
    entry
}

/// The scores a standing displays: the selected score, or 0 where the user
/// never submitted.
fn scores_of(results: &Vec<Option<ProblemResult>>) -> (r: Vec<u64>)
    ensures
        r@.len() == results@.len(),
        forall|k: int| 0 <= k < results@.len() ==> #[trigger] r@[k] == displayed(results@[k]),
        scores_sum(r@) == total_of(results@),
{
    let mut out: Vec<u64> = Vec::new();
    let mut k: usize = 0;
    while k < results.len()
        invariant
            k <= results.len(),
            out@.len() == k,
            forall|q: int| 0 <= q < k ==> #[trigger] out@[q] == displayed(results@[q]),
        decreases results.len() - k,
    {
        match &results[k] {
            Some(pr) => {
                out.push(pr.score);
            },
            None => {
                out.push(0);
            },
        }
        k = k + 1;
    }
    proof {
        lemma_scores_sum(results@, out@);
    }
    out
}

/// Compute the ranklist of a contest, or of the whole judge for the global
/// pseudo-contest 0.
///
/// For contest 0 every user stands against every configured problem; for a
/// real contest, exactly its users against those of its problems the
/// configuration knows. Each user's metrics follow the scoring rule
/// (default `Latest`); rows are ordered and ranked under the tie-breaker
/// (default `Default`), presentation ties resolved by ascending user id.
/// The users a ranklist covers: every stored user for the global
/// pseudo-contest, else exactly the contest's members, in id order.
pub open spec fn chosen_users(store: JobStore, cid: u32) -> Seq<User> {
    if cid == 0 {
        store.users@
    } else {
        store.users@.filter(|u: User| store.contests@[cid - 1].user_ids@.contains(u.id))
    }
}

/// Mapping a function over two sequences that hold the same elements yields
/// sequences that hold the same images.
proof fn lemma_map_values_multiset<A, B>(s1: Seq<A>, s2: Seq<A>, f: spec_fn(A) -> B)
    requires
        s1.to_multiset() == s2.to_multiset(),
    ensures
        s1.map_values(f).to_multiset() == s2.map_values(f).to_multiset(),
    decreases s1.len(),
{
    broadcast use group_to_multiset_ensures;

    s1.to_multiset_ensures();
    s2.to_multiset_ensures();
    if s1.len() == 0 {
        assert(s2.len() == 0);
        assert(s1.map_values(f) =~= s2.map_values(f));
    } else {
        let x = s1.last();
        assert(s1.to_multiset().count(x) > 0);
        assert(s2.contains(x));
        let j = choose|j: int| 0 <= j < s2.len() && s2[j] == x;
        let s1p = s1.drop_last();
        let s2p = s2.remove(j);
        assert(s1p.push(x) =~= s1);
        assert(s1p.push(x).to_multiset() == s1p.to_multiset().insert(x));
        assert(s2.remove(j).to_multiset() == s2.to_multiset().remove(s2[j]));
        assert(s1p.to_multiset() =~= s2p.to_multiset());
        lemma_map_values_multiset(s1p, s2p, f);
        assert(s1.map_values(f) =~= s1p.map_values(f).push(f(x)));
        assert(s1p.map_values(f).push(f(x)).to_multiset() == s1p.map_values(f).to_multiset().insert(
            f(x),
        ));
        assert(s2p.map_values(f) =~= s2.map_values(f).remove(j));
        assert(s2.map_values(f)[j] == f(x));
        assert(s2.map_values(f).remove(j).to_multiset() == s2.map_values(f).to_multiset().remove(
            f(x),
        ));
        assert(s2.map_values(f).to_multiset().count(f(x)) > 0);
        assert(s1.map_values(f).to_multiset() =~= s2.map_values(f).to_multiset());
    }
}

/// The standings a ranklist is computed from: their users are exactly the
/// chosen users, one standing each; every standing carries the metrics its
/// user owes under the scoring rule; and they come in presentation order,
/// better-compared first and ties by ascending user id.
pub open spec fn rank_rows_ok(
    store: JobStore,
    config: Config,
    contest_id: u32,
    rule: RankingRule,
    rows: Seq<RankEntry>,
) -> bool {
    &&& rows.map_values(|e: RankEntry| e.user).to_multiset() == chosen_users(
        store,
        contest_id,
    ).to_multiset()
    &&& (forall|k: int|
        0 <= k < rows.len() ==> entry_ok(
            store,
            chosen_scoring(rule),
            contest_id,
            chosen_problems(config, store, contest_id),
            #[trigger] rows[k],
        ))
    &&& rows_sorted(chosen_breaker(rule), rows)
}

/// How the response follows from the sorted standings: the same users in the
/// same order, their displayed scores, and 1-indexed standard competition
/// ranks — the first row ranks 1, and each later row keeps its predecessor's
/// rank exactly when the tie-breaker compares the two standings equal, else
/// takes its position plus one.
pub open spec fn items_of_rows(
    rule: RankingRule,
    rows: Seq<RankEntry>,
    items: Seq<RankingItem>,
) -> bool {
    &&& items.len() == rows.len()
    &&& (forall|i: int| 0 <= i < items.len() ==> (#[trigger] items[i]).user == rows[i].user)
    &&& (forall|i: int|
        0 <= i < items.len() ==> (#[trigger] items[i]).scores@.len() == rows[i].results@.len())
    &&& (forall|i: int, q: int|
        0 <= i < items.len() && 0 <= q < rows[i].results@.len() ==> (#[trigger] items[
            i
        ].scores@[q]) == displayed(rows[i].results@[q]))
    &&& (items.len() > 0 ==> items[0].rank == 1)
    &&& (forall|i: int|
        1 <= i < items.len() ==> (#[trigger] items[i]).rank == if spec_compare(
            chosen_breaker(rule),
            rows[i],
            rows[i - 1],
        ) == Ordering::Equal {
            items[i - 1].rank
        } else {
            (i + 1) as u32
        })
}

/// What a computed ranklist owes its query.
///
/// What a computed ranklist owes its query: the items cover exactly the
/// chosen users, one each, and arise from sorted standings (`rank_rows_ok`)
/// by `items_of_rows` — presentation order, the shown scores, and the full
/// 1-indexed standard competition rank rule, under every tie-breaker.
pub open spec fn ranklist_ok(
    store: JobStore,
    config: Config,
    contest_id: u32,
    rule: RankingRule,
    items: Seq<RankingItem>,
) -> bool {
    &&& (contest_id != 0 ==> 1 <= contest_id <= store.contests.len())
    &&& items.len() == chosen_users(store, contest_id).len()
    &&& items.map_values(|it: RankingItem| it.user).to_multiset() == chosen_users(
        store,
        contest_id,
    ).to_multiset()
    &&& (exists|rows: Seq<RankEntry>|
        #[trigger] rank_rows_ok(store, config, contest_id, rule, rows) && items_of_rows(
            rule,
            rows,
            items,
        ))
}

/// The response rows carry exactly the users the standings carry, which are
/// the chosen users, one each.
#[verifier::spinoff_prover]
proof fn lemma_ranklist_users(
    store: JobStore,
    contest_id: u32,
    entries_view: Seq<RankEntry>,
    sorted: Seq<RankEntry>,
    items: Seq<RankingItem>,
)
    requires
        entries_view.map_values(|e: RankEntry| e.user) == chosen_users(store, contest_id),
        sorted.to_multiset() == entries_view.to_multiset(),
        items.len() == sorted.len(),
        forall|k: int| 0 <= k < items.len() ==> (#[trigger] items[k]).user == sorted[k].user,
    ensures
        sorted.map_values(|e: RankEntry| e.user).to_multiset() == chosen_users(
            store,
            contest_id,
        ).to_multiset(),
        items.map_values(|it: RankingItem| it.user).to_multiset() == chosen_users(
            store,
            contest_id,
        ).to_multiset(),
        items.len() == chosen_users(store, contest_id).len(),
{
    broadcast use group_to_multiset_ensures;

    sorted.to_multiset_ensures();
    entries_view.to_multiset_ensures();
    lemma_map_values_multiset(sorted, entries_view, |e: RankEntry| e.user);
    assert(items.map_values(|it: RankingItem| it.user) =~= sorted.map_values(
        |e: RankEntry| e.user,
    ));
    assert(sorted.len() == entries_view.len());
    assert(items.len() == chosen_users(store, contest_id).len());
}

/// Sorted standings with competition ranks and rows presenting them witness
/// `rank_rows_ok` and `items_of_rows`.
#[verifier::spinoff_prover]
proof fn lemma_ranklist_witness(
    store: JobStore,
    config: Config,
    contest_id: u32,
    rule: RankingRule,
    scoring: ScoringRule,
    breaker: TieBreaker,
    pspec: Seq<Problem>,
    sorted: Seq<RankEntry>,
    ranks: Seq<u32>,
    items: Seq<RankingItem>,
)
    requires
        scoring == chosen_scoring(rule),
        breaker == chosen_breaker(rule),
        pspec == chosen_problems(config, store, contest_id),
        sorted.map_values(|e: RankEntry| e.user).to_multiset() == chosen_users(
            store,
            contest_id,
        ).to_multiset(),
        rows_sorted(breaker, sorted),
        forall|k: int|
            0 <= k < sorted.len() ==> entry_ok(
                store,
                scoring,
                contest_id,
                pspec,
                #[trigger] sorted[k],
            ),
        ranks.len() == sorted.len(),
        ranks.len() > 0 ==> ranks[0] == 1,
        forall|k: int|
            1 <= k < ranks.len() ==> #[trigger] ranks[k] == if spec_compare(
                breaker,
                sorted[k],
                sorted[k - 1],
            ) == Ordering::Equal {
                ranks[k - 1]
            } else {
                (k + 1) as u32
            },
        items.len() == sorted.len(),
        forall|k: int| 0 <= k < items.len() ==> (#[trigger] items[k]).rank == ranks[k],
        forall|k: int| 0 <= k < items.len() ==> (#[trigger] items[k]).user == sorted[k].user,
        forall|k: int| 0 <= k < items.len() ==> (#[trigger] items[k]).scores@.len() == pspec.len(),
        forall|k: int, q: int|
            0 <= k < items.len() && 0 <= q < pspec.len() ==> (#[trigger] items[k]).scores@[q]
                == displayed(#[trigger] sorted[k].results@[q]),
    ensures
        rank_rows_ok(store, config, contest_id, rule, sorted),
        items_of_rows(rule, sorted, items),
{
    assert forall|k: int| 0 <= k < sorted.len() implies (#[trigger] sorted[k]).results@.len()
        == pspec.len() by {
        assert(entry_ok(store, scoring, contest_id, pspec, sorted[k]));
    }
}

#[verifier::rlimit(100)]
#[verifier::spinoff_prover]
pub fn get_rank_list(store: &JobStore, config: &Config, contest_id: u32, rule: &RankingRule) -> (r:
    Result<Vec<RankingItem>, Error>)
    requires
        store.wf(),
    ensures
        match r {
            Err(e) => {
                &&& contest_id != 0
                &&& !(1 <= contest_id <= store.contests.len())
                &&& e.reason == Reason::NotFound
                &&& e.code == code_of(Reason::NotFound)
                &&& e.message@ == "Contest not found."@
            },
            Ok(items) => ranklist_ok(*store, *config, contest_id, *rule, items@),
        },
{
    if contest_id != 0 && !store.does_contest_exist(contest_id) {
        return Err(Error::new(Reason::NotFound, "Contest not found.".to_owned()));
    }
    let scoring = match rule.scoring_rule {
        Some(s) => s,
        None => ScoringRule::Latest,
    };
    let breaker = match rule.tie_breaker {
        Some(t) => t,
        None => TieBreaker::Default,
    };

    // The users and problems the ranklist covers.
    let users: Vec<&User>;
    let problems: Vec<&Problem>;
    if contest_id == 0 {
        let mut all: Vec<&User> = Vec::new();
        let mut i: usize = 0;
        while i < store.users.len()
            invariant
                i <= store.users.len(),
                all@.len() == i,
                forall|k: int| 0 <= k < i ==> #[trigger] all@[k] == &store.users@[k],
            decreases store.users.len() - i,
        {
            all.push(&store.users[i]);
            i = i + 1;
        }
        users = all;
        let mut ps: Vec<&Problem> = Vec::new();
        let mut i: usize = 0;
        while i < config.problems.len()
            invariant
                i <= config.problems.len(),
                ps@.len() == i,
                forall|k: int| 0 <= k < i ==> #[trigger] ps@[k] == &config.problems@[k],
            decreases config.problems.len() - i,
        {
            ps.push(&config.problems[i]);
            i = i + 1;
        }
        problems = ps;
        proof {
            assert(problems@.map_values(|p: &Problem| *p) =~= chosen_problems(
                *config,
                *store,
                contest_id,
            ));
        }
    } else {
        let contest = match store.get_contest(contest_id) {
            Err(e) => {
                return Err(e);
            },
            Ok(c) => c,
        };
        users = store.get_some_users(&contest.user_ids);
        problems = resolve_problems(config, &contest.problem_ids);
    }
    let ghost pspec = chosen_problems(*config, *store, contest_id);
    let ghost n_users = users@.len();
    let ghost n_problems = pspec.len();
    proof {
        assert(problems@.map_values(|p: &Problem| *p) == pspec);
    }

    // One standing per user.
    let mut entries: Vec<RankEntry> = Vec::new();
    let mut i: usize = 0;
    while i < users.len()
        invariant
            i <= users.len(),
            store.wf(),
            pspec == problems@.map_values(|p: &Problem| *p),
            entries@.len() == i,
            forall|k: int| 0 <= k < i ==> (#[trigger] entries@[k]).user == *users@[k],
            forall|k: int|
                0 <= k < i ==> entry_ok(
                    *store,
                    scoring,
                    contest_id,
                    pspec,
                    #[trigger] entries@[k],
                ),
        decreases users.len() - i,
    {
        let entry = build_entry(store, &scoring, users[i], &problems, contest_id);
        entries.push(entry);
        i = i + 1;
    }

    // Order and rank them.
    let ghost entries_view = entries@;
    proof {
        if contest_id != 0 {
            store.users@.lemma_filter_len(
                |u: User| store.contests@[contest_id - 1].user_ids@.contains(u.id),
            );
        }
        if contest_id == 0 {
            assert(users@.map_values(|u: &User| *u) =~= store.users@);
        }
        assert(users@.map_values(|u: &User| *u) == chosen_users(*store, contest_id));
        assert(entries_view.map_values(|e: RankEntry| e.user) =~= chosen_users(
            *store,
            contest_id,
        ));
    }
    let sorted = sort_entries(&breaker, entries);
    proof {
        broadcast use group_to_multiset_ensures;

        lemma_map_values_multiset(sorted@, entries_view, |e: RankEntry| e.user);
        assert(sorted@.map_values(|e: RankEntry| e.user).to_multiset() == chosen_users(
            *store,
            contest_id,
        ).to_multiset());
        assert(sorted@.len() == n_users);
        assert(sorted@.len() <= u32::MAX);
        assert forall|k: int| 0 <= k < sorted@.len() implies entry_ok(
            *store,
            scoring,
            contest_id,
            pspec,
            #[trigger] sorted@[k],
        ) by {
            assert(sorted@.to_multiset().count(sorted@[k]) > 0);
        }
    }
    let ranks = assign_ranks(&breaker, &sorted);

    // Assemble the response.
    let mut items: Vec<RankingItem> = Vec::new();
    let mut i: usize = 0;
    while i < sorted.len()
        invariant
            i <= sorted.len(),
            ranks@.len() == sorted@.len(),
            sorted@.len() <= u32::MAX,
            items@.len() == i,
            n_problems == pspec.len(),
            rows_sorted(breaker, sorted@),
            forall|k: int|
                0 <= k < sorted@.len() ==> entry_ok(
                    *store,
                    scoring,
                    contest_id,
                    pspec,
                    #[trigger] sorted@[k],
                ),
            forall|k: int| 0 <= k < i ==> (#[trigger] items@[k]).rank == ranks@[k],
            forall|k: int| 0 <= k < i ==> (#[trigger] items@[k]).user == sorted@[k].user,
            forall|k: int| 0 <= k < i ==> (#[trigger] items@[k]).scores@.len() == n_problems,
            forall|k: int, q: int|
                0 <= k < i && 0 <= q < n_problems ==> (#[trigger] items@[k]).scores@[q]
                    == displayed(#[trigger] sorted@[k].results@[q]),
            forall|k: int|
                0 <= k < i ==> scores_sum((#[trigger] items@[k]).scores@) == total_of(
                    sorted@[k].results@,
                ),
            ranks@.len() > 0 ==> ranks@[0] == 1,
            forall|k: int| 0 <= k < ranks@.len() ==> 1 <= #[trigger] ranks@[k] <= k + 1,
            forall|k: int| 1 <= k < ranks@.len() ==> #[trigger] ranks@[k - 1] <= ranks@[k],
            forall|k: int|
                1 <= k < ranks@.len() ==> #[trigger] ranks@[k] == if spec_compare(
                    breaker,
                    sorted@[k],
                    sorted@[k - 1],
                ) == Ordering::Equal {
                    ranks@[k - 1]
                } else {
                    (k + 1) as u32
                },
        decreases sorted.len() - i,
    {
        let scores = scores_of(&sorted[i].results);
        items.push(RankingItem { user: sorted[i].user.clone(), rank: ranks[i], scores });
        i = i + 1;
    }
    proof {
        if contest_id != 0 {
            assert(users@.map_values(|u: &User| *u) == store.users@.filter(
                |u: User| store.contests@[contest_id - 1].user_ids@.contains(u.id),
            ));
        }
        lemma_ranklist_users(*store, contest_id, entries_view, sorted@, items@);
        lemma_ranklist_witness(
            *store,
            *config,
            contest_id,
            *rule,
            scoring,
            breaker,
            pspec,
            sorted@,
            ranks@,
            items@,
        );
        assert(contest_id != 0 ==> 1 <= contest_id <= store.contests.len());
        assert(ranklist_ok(*store, *config, contest_id, *rule, items@));
    }
    Ok(items)
}

} // verus!
