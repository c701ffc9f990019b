//! Jobs: the durable record of one submission's lifecycle and judging result.

use vstd::prelude::*;

verus! {

/// A submission handed in by a user: source code plus the coordinates it is
/// judged under. A `contest_id` of 0 means the global pseudo-contest.
#[derive(Debug)]
pub struct Submission {
    pub source_code: String,
    pub language: String,
    pub user_id: u32,
    pub contest_id: u32,
    pub problem_id: u32,
}

/// Lifecycle state of a job.
#[derive(Clone, Copy, Debug, PartialEq, Eq, Structural)]
pub enum JobStatus {
    Queueing,
    Running,
    Finished,
    Canceled,
}

/// Verdict of a job or of one of its cases.
#[derive(Clone, Copy, Debug, PartialEq, Eq, Structural)]
pub enum JobResult {
    Waiting,
    Running,
    Accepted,
    CompilationError,
    CompilationSuccess,
    WrongAnswer,
    RuntimeError,
    TimeLimitExceeded,
    MemoryLimitExceeded,
    SystemError,
    SpjError,
    Skipped,
}

impl JobResult {
    /// The stable small integer under which a verdict is persisted.
    pub fn to_index(&self) -> (r: u32)
        ensures
            r == result_index(*self),
    {
        match self {
            JobResult::Waiting => 0,
            JobResult::Running => 1,
            JobResult::Accepted => 2,
            JobResult::CompilationError => 3,
            JobResult::CompilationSuccess => 4,
            JobResult::WrongAnswer => 5,
            JobResult::RuntimeError => 6,
            JobResult::TimeLimitExceeded => 7,
            JobResult::MemoryLimitExceeded => 8,
            JobResult::SystemError => 9,
            JobResult::SpjError => 10,
            JobResult::Skipped => 11,
        }
    }

    /// The verdict persisted under a stable small integer, if the integer is
    /// in range.
    pub fn from_index(value: u32) -> (r: Option<JobResult>)
        ensures
            value <= 11 ==> (r matches Some(v) && result_index(v) == value),
            value > 11 ==> r is None,
    {
        match value {
            0 => Some(JobResult::Waiting),
            1 => Some(JobResult::Running),
            2 => Some(JobResult::Accepted),
            3 => Some(JobResult::CompilationError),
            4 => Some(JobResult::CompilationSuccess),
            5 => Some(JobResult::WrongAnswer),
            6 => Some(JobResult::RuntimeError),
            7 => Some(JobResult::TimeLimitExceeded),
            8 => Some(JobResult::MemoryLimitExceeded),
            9 => Some(JobResult::SystemError),
            10 => Some(JobResult::SpjError),
            11 => Some(JobResult::Skipped),
            _ => None,
        }
    }
}

/// The stable enumeration order of verdicts.
pub open spec fn result_index(r: JobResult) -> u32 {
    match r {
        JobResult::Waiting => 0,
        JobResult::Running => 1,
        JobResult::Accepted => 2,
        JobResult::CompilationError => 3,
        JobResult::CompilationSuccess => 4,
        JobResult::WrongAnswer => 5,
        JobResult::RuntimeError => 6,
        JobResult::TimeLimitExceeded => 7,
        JobResult::MemoryLimitExceeded => 8,
        JobResult::SystemError => 9,
        JobResult::SpjError => 10,
        JobResult::Skipped => 11,
    }
}

impl JobStatus {
    /// The stable small integer under which a state is persisted.
    pub fn to_index(&self) -> (r: u32)
        ensures
            r == status_index(*self),
    {
        match self {
            JobStatus::Queueing => 0,
            JobStatus::Running => 1,
            JobStatus::Finished => 2,
            JobStatus::Canceled => 3,
        }
    }

    /// The state persisted under a stable small integer, if in range.
    pub fn from_index(value: u32) -> (r: Option<JobStatus>)
        ensures
            value <= 3 ==> (r matches Some(v) && status_index(v) == value),
            value > 3 ==> r is None,
    {
        match value {
            0 => Some(JobStatus::Queueing),
            1 => Some(JobStatus::Running),
            2 => Some(JobStatus::Finished),
            3 => Some(JobStatus::Canceled),
            _ => None,
        }
    }
}

/// The stable enumeration order of job states.
pub open spec fn status_index(s: JobStatus) -> u32 {
    match s {
        JobStatus::Queueing => 0,
        JobStatus::Running => 1,
        JobStatus::Finished => 2,
        JobStatus::Canceled => 3,
    }
}

/// The outcome of one case of a job. Index 0 is the compilation pseudo-case;
/// index `i >= 1` corresponds to the problem's case `i - 1`. `time` is
/// elapsed microseconds at the moment of decision; `memory` is reported but
/// never measured, so it stays 0.
#[derive(Clone, Copy, Debug, PartialEq, Eq, Structural)]
pub struct CaseResult {
    pub id: u32,
    pub result: JobResult,
    pub time: u32,
    pub memory: u32,
}

impl Clone for Submission {
    fn clone(&self) -> (r: Self)
        ensures
            r == *self,
    {
        Submission {
            source_code: self.source_code.clone(),
            language: self.language.clone(),
            user_id: self.user_id,
            contest_id: self.contest_id,
            problem_id: self.problem_id,
        }
    }
}

/// A job: one submission together with everything the judge has recorded
/// about it. Timestamps are UTC microseconds.
#[derive(Debug)]
pub struct Job {
    pub id: u32,
    pub created_time: i64,
    pub updated_time: i64,
    pub submission: Submission,
    pub state: JobStatus,
    pub result: JobResult,
    pub score: u64,
    pub cases: Vec<CaseResult>,
}

/// Two jobs that agree on every field. `Vec` fields are compared by
/// contents, so this is what a copy of a job preserves.
pub open spec fn job_eqv(a: Job, b: Job) -> bool {
    &&& a.id == b.id
    &&& a.created_time == b.created_time
    &&& a.updated_time == b.updated_time
    &&& a.submission == b.submission
    &&& a.state == b.state
    &&& a.result == b.result
    &&& a.score == b.score
    &&& a.cases@ == b.cases@
}

impl Clone for Job {
    fn clone(&self) -> (r: Self)
        ensures
            job_eqv(r, *self),
    {
        let cases = self.cases.clone();
        proof {
            assert(cases@ =~= self.cases@);
        }
        Job {
            id: self.id,
            created_time: self.created_time,
            updated_time: self.updated_time,
            submission: self.submission.clone(),
            state: self.state,
            result: self.result,
            score: self.score,
            cases,
        }
    }
}

/// The first non-`Accepted` verdict among `cases[from..]`, or `Accepted` if
/// every one of them is `Accepted`.
pub open spec fn first_non_accepted_from(cases: Seq<CaseResult>, from: int) -> JobResult
    decreases cases.len() - from,
{
    if from < 0 || from >= cases.len() {
        JobResult::Accepted
    } else if cases[from].result != JobResult::Accepted {
        cases[from].result
    } else {
        first_non_accepted_from(cases, from + 1)
    }
}

/// The overall verdict a finished job owes to its cases: the first
/// non-`Accepted` verdict among `cases[1..]` in index order, or `Accepted`.
pub open spec fn overall_verdict(cases: Seq<CaseResult>) -> JobResult {
    first_non_accepted_from(cases, 1)
}

/// All of `cases[from..]` are still `Waiting`.
pub open spec fn all_waiting_from(cases: Seq<CaseResult>, from: int) -> bool {
    forall|i: int| from <= i < cases.len() ==> (#[trigger] cases[i]).result == JobResult::Waiting
}

/// A freshly allocated case list: `n + 1` entries, numbered from 0, all
/// `Waiting`, with no time or memory recorded.
pub open spec fn cases_fresh(cases: Seq<CaseResult>, n: int) -> bool {
    &&& cases.len() == n + 1
    &&& forall|i: int|
        0 <= i < cases.len() ==> #[trigger] cases[i] == (CaseResult {
            id: i as u32,
            result: JobResult::Waiting,
            time: 0,
            memory: 0,
        })
}

/// Build the case list of a job that has not been judged yet: one `Waiting`
/// entry for the compilation pseudo-case and one per problem case.
pub fn make_waiting_cases(n: usize) -> (r: Vec<CaseResult>)
    requires
        n < usize::MAX,
    ensures
        cases_fresh(r@, n as int),
{
    let mut cases: Vec<CaseResult> = Vec::new();
    let mut i: usize = 0;
    while i <= n
        invariant
            n < usize::MAX,
            i <= n + 1,
            cases.len() == i,
            forall|k: int|
                0 <= k < i ==> #[trigger] cases@[k] == (CaseResult {
                    id: k as u32,
                    result: JobResult::Waiting,
                    time: 0,
                    memory: 0,
                }),
        decreases n + 1 - i,
    {
        cases.push(CaseResult { id: i as u32, result: JobResult::Waiting, time: 0, memory: 0 });
        i = i + 1;
    }
    cases
}

} // verus!
