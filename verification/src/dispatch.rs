//! The dispatcher: validating a new submission and persisting it as a
//! queueing job, resetting a finished job for rejudging, canceling a queueing
//! job, and creating or updating contests.
//!
//! Publishing a persisted job's id to the work queue is outside work; the
//! application does it after the calls here return.

use vstd::prelude::*;

use crate::config::{config_wf, spec_get_lang, spec_get_problem, Config};
use crate::error::{code_of, Error, Reason};
use crate::jobs::{cases_fresh, make_waiting_cases, CaseResult, Job, JobResult, JobStatus,
    Submission};
use crate::store::{contains_u32, triple_matches, Contest, JobStore};

verus! {

/// The first check a submission fails, with the reason and message it earns;
/// `None` when the submission is acceptable.
///
/// The checks run in this order: the language must be configured, the problem
/// must be configured, the user must exist; then, for a real contest, the
/// contest must exist, include the user and pose the problem, the submission
/// must fall inside the contest window, and the user must still be under the
/// contest's submission allowance for that problem.
pub open spec fn submission_error(config: Config, store: JobStore, s: Submission, now: i64) -> Option<
    (Reason, Seq<char>),
> {
    if spec_get_lang(config.languages@, s.language@) is None {
        Some((Reason::NotFound, "No such language."@))
    } else if spec_get_problem(config.problems@, s.problem_id) is None {
        Some((Reason::NotFound, "No such problem."@))
    } else if !(s.user_id < store.users.len()) {
        Some((Reason::NotFound, "No such user."@))
    } else if s.contest_id == 0 {
        None
    } else if !(1 <= s.contest_id <= store.contests.len()) {
        Some((Reason::NotFound, "No such contest."@))
    } else {
        let c = store.contests@[s.contest_id - 1];
        if !c.user_ids@.contains(s.user_id) {
            Some((Reason::InvalidArgument, "User not in contest."@))
        } else if !c.problem_ids@.contains(s.problem_id) {
            Some((Reason::InvalidArgument, "Problem not in contest."@))
        } else if now < c.from {
            Some((Reason::InvalidArgument, "Contest hasn't yet begun."@))
        } else if now > c.to {
            Some((Reason::InvalidArgument, "Contest has already ended."@))
        } else if store.jobs@.filter(
            |j: Job| triple_matches(j, s.user_id, s.problem_id, s.contest_id),
        ).len() >= c.submission_limit {
            Some((Reason::RateLimit, "Submission limit exceeded."@))
        } else {
            None
        }
    }
}

/// A job as `new_job` persists it: the given id, both timestamps at `now`,
/// the submission as handed in, queueing with a `Waiting` result, no score,
/// and one fresh `Waiting` case more than the problem has.
pub open spec fn is_fresh_job(j: Job, id: u32, now: i64, s: Submission, ncases: int) -> bool {
    &&& j.id == id
    &&& j.created_time == now
    &&& j.updated_time == now
    &&& j.submission == s
    &&& j.state == JobStatus::Queueing
    &&& j.result == JobResult::Waiting
    &&& j.score == 0
    &&& cases_fresh(j.cases@, ncases)
}

/// Validate a submission and persist it as a new queueing job under the next
/// free id, to be published to the work queue by the caller.
pub fn new_job(store: &mut JobStore, config: &Config, submission: Submission, now: i64) -> (r:
    Result<Job, Error>)
    requires
        old(store).wf(),
        old(store).jobs.len() < u32::MAX,
        config_wf(*config),
    ensures
        final(store).wf(),
        final(store).users == old(store).users,
        final(store).contests == old(store).contests,
        match r {
            Err(e) => {
                &&& final(store).jobs == old(store).jobs
                &&& submission_error(*config, *old(store), submission, now) matches Some(p)
                    && e.reason == p.0 && e.message@ == p.1 && e.code == code_of(p.0)
            },
            Ok(job) => {
                &&& submission_error(*config, *old(store), submission, now) is None
                &&& is_fresh_job(
                    job,
                    old(store).jobs.len() as u32,
                    now,
                    submission,
                    spec_get_problem(config.problems@, submission.problem_id)->Some_0.cases.len() as int,
                )
                &&& final(store).jobs@.len() == old(store).jobs@.len() + 1
                &&& final(store).jobs@.drop_last() == old(store).jobs@
                &&& is_fresh_job(
                    final(store).jobs@.last(),
                    old(store).jobs.len() as u32,
                    now,
                    submission,
                    spec_get_problem(config.problems@, submission.problem_id)->Some_0.cases.len() as int,
                )
            },
        },
{
    if config.get_lang(&submission.language).is_none() {
        return Err(Error::new(Reason::NotFound, "No such language.".to_owned()));
    }
    let problem = match config.get_problem(submission.problem_id) {
        None => {
            return Err(Error::new(Reason::NotFound, "No such problem.".to_owned()));
        },
        Some(p) => p,
    };
    if !store.does_user_exist(submission.user_id) {
        return Err(Error::new(Reason::NotFound, "No such user.".to_owned()));
    }
    let cid = submission.contest_id;
    if cid != 0 {
        let contest = match store.get_contest(cid) {
            Err(_) => {
                return Err(Error::new(Reason::NotFound, "No such contest.".to_owned()));
            },
            Ok(c) => c,
        };
        if !contains_u32(&contest.user_ids, submission.user_id) {
            return Err(Error::new(Reason::InvalidArgument, "User not in contest.".to_owned()));
        }
        if !contains_u32(&contest.problem_ids, submission.problem_id) {
            return Err(Error::new(Reason::InvalidArgument, "Problem not in contest.".to_owned()));
        }
        if now < contest.from {
            return Err(
                Error::new(Reason::InvalidArgument, "Contest hasn't yet begun.".to_owned()),
            );
        }
        if now > contest.to {
            return Err(
                Error::new(Reason::InvalidArgument, "Contest has already ended.".to_owned()),
            );
        }
        let limit = contest.submission_limit;
        if store.get_submission_count(submission.user_id, submission.problem_id, cid) >= (
        limit as u64) {
            return Err(Error::new(Reason::RateLimit, "Submission limit exceeded.".to_owned()));
        }
    }
    proof {
        crate::config::lemma_get_problem_member(config.problems@, submission.problem_id);
    }
    let id = store.jobs_count();
    let cases = make_waiting_cases(problem.cases.len());
    let job = Job {
        id,
        created_time: now,
        updated_time: now,
        submission,
        state: JobStatus::Queueing,
        result: JobResult::Waiting,
        score: 0,
        cases,
    };
    let stored = job.clone();
    store.new_job(stored);
    proof {
        assert(store.jobs@.drop_last() =~= old(store).jobs@);
    }
    Ok(job)
}

/// A job reset for rejudging: the identity and submission of `orig`, both
/// case list and score cleared, queueing again, touched at `now`.
pub open spec fn is_reset_job(j: Job, orig: Job, now: i64) -> bool {
    &&& j.id == orig.id
    &&& j.created_time == orig.created_time
    &&& j.submission == orig.submission
    &&& j.updated_time == now
    &&& j.state == JobStatus::Queueing
    &&& j.result == JobResult::Waiting
    &&& j.score == 0
    &&& cases_fresh(j.cases@, orig.cases.len() - 1)
}

/// Reset a finished job to `Queueing` so it is judged again, to be published
/// to the work queue by the caller. Only a finished job can be rejudged.
pub fn rejudge_job(store: &mut JobStore, id: u32, now: i64) -> (r: Result<Job, Error>)
    requires
        old(store).wf(),
        id < old(store).jobs.len() ==> old(store).jobs@[id as int].created_time <= now,
    ensures
        final(store).wf(),
        final(store).users == old(store).users,
        final(store).contests == old(store).contests,
        match r {
            Err(e) => {
                &&& final(store).jobs == old(store).jobs
                &&& if id >= old(store).jobs.len() {
                    e.reason == Reason::NotFound && e.message@ == "Job not found."@
                } else {
                    &&& old(store).jobs@[id as int].state != JobStatus::Finished
                    &&& e.reason == Reason::InvalidState
                    &&& e.message@ == "Job not finished."@
                }
            },
            Ok(job) => {
                &&& id < old(store).jobs.len()
                &&& old(store).jobs@[id as int].state == JobStatus::Finished
                &&& is_reset_job(job, old(store).jobs@[id as int], now)
                &&& job.created_time <= job.updated_time
                &&& final(store).jobs@.len() == old(store).jobs@.len()
                &&& (forall|k: int|
                    0 <= k < old(store).jobs@.len() && k != id ==> final(store).jobs@[k] == old(
                        store,
                    ).jobs@[k])
                &&& is_reset_job(final(store).jobs@[id as int], old(store).jobs@[id as int], now)
            },
        },
{
    if !store.does_job_exist(id) {
        return Err(Error::new(Reason::NotFound, "Job not found.".to_owned()));
    }
    let total = match store.get_job(id) {
        Err(_) => {
            return Err(Error::new(Reason::NotFound, "Job not found.".to_owned()));
        },
        Ok(j) => {
            if !matches!(j.state, JobStatus::Finished) {
                return Err(Error::new(Reason::InvalidState, "Job not finished.".to_owned()));
            }
            j.cases.len()
        },
    };
    // Rebuild the case list as fresh `Waiting` entries, one per old entry.
    let mut cases: Vec<CaseResult> = Vec::new();
    let mut i: usize = 0;
    while i < total
        invariant
            i <= total,
            cases.len() == i,
            forall|k: int|
                0 <= k < i ==> #[trigger] cases@[k] == (CaseResult {
                    id: k as u32,
                    result: JobResult::Waiting,
                    time: 0,
                    memory: 0,
                }),
        decreases total - i,
    {
        cases.push(CaseResult { id: i as u32, result: JobResult::Waiting, time: 0, memory: 0 });
        i = i + 1;
    }
    let orig = match store.get_job(id) {
        Err(e) => {
            return Err(e);
        },
        Ok(j) => j,
    };
    let job = Job {
        id: orig.id,
        created_time: orig.created_time,
        updated_time: now,
        submission: orig.submission.clone(),
        state: JobStatus::Queueing,
        result: JobResult::Waiting,
        score: 0,
        cases,
    };
    let stored = job.clone();
    match store.update_job(stored) {
        Err(e) => Err(e),
        Ok(()) => Ok(job),
    }
}

/// Cancel a queueing job: it moves to `Canceled` and a worker picking it up
/// will skip it. Only a queueing job can be canceled.
pub fn cancel_job(store: &mut JobStore, id: u32) -> (r: Result<(), Error>)
    requires
        old(store).wf(),
    ensures
        final(store).wf(),
        final(store).users == old(store).users,
        final(store).contests == old(store).contests,
        match r {
            Err(e) => {
                &&& final(store).jobs == old(store).jobs
                &&& if id >= old(store).jobs.len() {
                    e.reason == Reason::NotFound && e.message@ == "Job not found."@
                } else {
                    &&& old(store).jobs@[id as int].state != JobStatus::Queueing
                    &&& e.reason == Reason::InvalidState
                    &&& e.message@ == "Job not queueing."@
                }
            },
            Ok(()) => {
                &&& id < old(store).jobs.len()
                &&& old(store).jobs@[id as int].state == JobStatus::Queueing
                &&& final(store).jobs@.len() == old(store).jobs@.len()
                &&& (forall|k: int|
                    0 <= k < old(store).jobs@.len() && k != id ==> final(store).jobs@[k] == old(
                        store,
                    ).jobs@[k])
                &&& crate::jobs::job_eqv(
                    final(store).jobs@[id as int],
                    (Job { state: JobStatus::Canceled, ..old(store).jobs@[id as int] }),
                )
            },
        },
{
    let canceled = match store.get_job(id) {
        Err(e) => {
            return Err(e);
        },
        Ok(j) => {
            if !matches!(j.state, JobStatus::Queueing) {
                return Err(Error::new(Reason::InvalidState, "Job not queueing.".to_owned()));
            }
            let mut c = j.clone();
            c.state = JobStatus::Canceled;
            c
        },
    };
    match store.update_job(canceled) {
        Err(e) => Err(e),
        Ok(()) => Ok(()),
    }
}

/// A request to create or update a contest: with an id it replaces that
/// contest, without one it creates a contest under the next free id.
#[derive(Debug)]
pub struct ContestForm {
    pub id: Option<u32>,
    pub name: String,
    pub from: i64,
    pub to: i64,
    pub problem_ids: Vec<u32>,
    pub user_ids: Vec<u32>,
    pub submission_limit: u32,
}

/// The first check a contest form fails; `None` when it is acceptable. Every
/// problem id must be configured and every user id must name an existing
/// user; with an id, the contest must exist.
pub open spec fn contest_error(config: Config, store: JobStore, f: ContestForm) -> Option<(
    Reason,
    Seq<char>,
)> {
    if exists|k: int|
        0 <= k < f.problem_ids.len() && spec_get_problem(
            config.problems@,
            #[trigger] f.problem_ids@[k],
        ) is None {
        Some((Reason::NotFound, "Unknown problem."@))
    } else if exists|k: int|
        0 <= k < f.user_ids.len() && !(#[trigger] f.user_ids@[k] < store.users.len()) {
        Some((Reason::NotFound, "Unknown user."@))
    } else if f.id matches Some(cid) && !(1 <= cid <= store.contests.len()) {
        Some((Reason::NotFound, "Contest not found."@))
    } else {
        None
    }
}

/// The contest a form describes, under the given id.
pub open spec fn contest_of_form(f: ContestForm, cid: u32) -> Contest {
    Contest {
        id: cid,
        name: f.name,
        from: f.from,
        to: f.to,
        problem_ids: f.problem_ids,
        user_ids: f.user_ids,
        submission_limit: f.submission_limit,
    }
}

/// Create or replace a contest. Its problem ids must all be configured and
/// its user ids must all name existing users. With an id the named contest is
/// replaced; without one the contest is created under the next free id.
pub fn update_contest(store: &mut JobStore, config: &Config, form: ContestForm) -> (r: Result<
    Contest,
    Error,
>)
    requires
        old(store).wf(),
        old(store).contests.len() < u32::MAX,
    ensures
        final(store).wf(),
        final(store).users == old(store).users,
        final(store).jobs == old(store).jobs,
        match r {
            Err(e) => {
                &&& final(store).contests == old(store).contests
                &&& contest_error(*config, *old(store), form) matches Some(p) && e.reason == p.0
                    && e.message@ == p.1 && e.code == code_of(p.0)
            },
            Ok(c) => {
                &&& contest_error(*config, *old(store), form) is None
                &&& match form.id {
                    Some(cid) => {
                        &&& final(store).contests@ == old(store).contests@.update(
                            cid - 1,
                            contest_of_form(form, cid),
                        )
                        &&& crate::store::contest_eqv(c, contest_of_form(form, cid))
                    },
                    None => {
                        &&& final(store).contests@ == old(store).contests@.push(
                            contest_of_form(form, (old(store).contests.len() + 1) as u32),
                        )
                        &&& crate::store::contest_eqv(
                            c,
                            contest_of_form(form, (old(store).contests.len() + 1) as u32),
                        )
                    },
                }
            },
        },
{
    // Every named problem must be configured.
    let mut i: usize = 0;
    while i < form.problem_ids.len()
        invariant
            *store == *old(store),
            store.wf(),
            i <= form.problem_ids.len(),
            forall|k: int|
                0 <= k < i ==> spec_get_problem(
                    config.problems@,
                    #[trigger] form.problem_ids@[k],
                ) is Some,
        decreases form.problem_ids.len() - i,
    {
        if config.get_problem(form.problem_ids[i]).is_none() {
            return Err(Error::new(Reason::NotFound, "Unknown problem.".to_owned()));
        }
        i = i + 1;
    }
    // Every named user must exist.
    let user_count = store.user_count();
    let mut i: usize = 0;
    while i < form.user_ids.len()
        invariant
            *store == *old(store),
            store.wf(),
            i <= form.user_ids.len(),
            user_count == store.users.len(),
            forall|k: int|
                0 <= k < form.problem_ids.len() ==> spec_get_problem(
                    config.problems@,
                    #[trigger] form.problem_ids@[k],
                ) is Some,
            forall|k: int| 0 <= k < i ==> #[trigger] form.user_ids@[k] < user_count,
        decreases form.user_ids.len() - i,
    {
        if form.user_ids[i] >= user_count {
            return Err(Error::new(Reason::NotFound, "Unknown user.".to_owned()));
        }
        i = i + 1;
    }
    match form.id {
        Some(cid) => {
            let contest = Contest {
                id: cid,
                name: form.name,
                from: form.from,
                to: form.to,
                problem_ids: form.problem_ids,
                user_ids: form.user_ids,
                submission_limit: form.submission_limit,
            };
            let copy = contest.clone();
            match store.update_contest(contest) {
                Err(e) => Err(e),
                Ok(()) => Ok(copy),
            }
        },
        None => {
            let cid = store.contests_count() + 1;
            let contest = Contest {
                id: cid,
                name: form.name,
                from: form.from,
                to: form.to,
                problem_ids: form.problem_ids,
                user_ids: form.user_ids,
                submission_limit: form.submission_limit,
            };
            let copy = contest.clone();
            store.new_contest(contest);
            Ok(copy)
        },
    }
}

} // verus!
