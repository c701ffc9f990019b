//! The judging pipeline: output normalization, per-case verdicts, and the
//! state evolution of a job from `Queueing` to `Finished`.
//!
//! Everything here is pure logic over plain values. The surrounding
//! application compiles and runs the submission, watches the child process,
//! reads the files, and reports what it saw as a [`CompileEvent`] and one
//! [`CaseEvent`] per test case; the functions here turn those observations
//! into verdicts and job updates.

use vstd::prelude::*;

use crate::config::{Case, Problem, ProblemType, score_total, score_total_prefix, problem_wf};
use crate::jobs::{
    all_waiting_from, cases_fresh, overall_verdict, first_non_accepted_from, CaseResult, Job,
    JobResult, JobStatus,
};

verus! {

/// Whitespace as the judge understands it: the ASCII blank characters.
///
/// Comparison is deliberately byte-level: outputs are compared as the bytes
/// the program wrote, and only ASCII blanks count as trailing whitespace.
/// A buffer whose trailing whitespace is a multi-byte character (a no-break
/// space, say) keeps it; such outputs are judged as differing from an answer
/// without it.
pub open spec fn is_ws(b: u8) -> bool {
    b == 9 || b == 10 || b == 11 || b == 12 || b == 13 || b == 32
}

/// `s` with its trailing whitespace removed.
pub open spec fn trim_end_spec(s: Seq<u8>) -> Seq<u8>
    decreases s.len(),
{
    if s.len() == 0 {
        s
    } else if is_ws(s.last()) {
        trim_end_spec(s.drop_last())
    } else {
        s
    }
}

/// The position of the first newline at or after `from`, or -1 if there is
/// none.
pub open spec fn find_newline(s: Seq<u8>, from: int) -> int
    decreases s.len() - from,
{
    if from < 0 || from >= s.len() {
        -1
    } else if s[from] == 10 {
        from
    } else {
        find_newline(s, from + 1)
    }
}

/// `s` split on newlines, each line with its trailing whitespace removed, and
/// the lines concatenated without separators.
pub open spec fn norm_lines(s: Seq<u8>) -> Seq<u8>
    decreases s.len(),
{
    let nl = find_newline(s, 0);
    if 0 <= nl && nl < s.len() {
        trim_end_spec(s.take(nl)) + norm_lines(s.skip(nl + 1))
    } else {
        trim_end_spec(s)
    }
}

/// The normalization applied to both sides of a `Standard` comparison:
/// trailing whitespace of the whole buffer removed, then every line's
/// trailing whitespace removed, then the lines concatenated without
/// separators. Whitespace is the ASCII blank set (`is_ws`); the comparison
/// reads both buffers as bytes.
pub open spec fn spec_normalize_standard(s: Seq<u8>) -> Seq<u8> {
    norm_lines(trim_end_spec(s))
}

/// Whether a byte is whitespace to the judge.
pub fn ws(b: u8) -> (r: bool)
    ensures
        r == is_ws(b),
{
    b == 9 || b == 10 || b == 11 || b == 12 || b == 13 || b == 32
}

/// The length of `v[start..end]` once its trailing whitespace is removed.
fn trimmed_len(v: &Vec<u8>, start: usize, end: usize) -> (r: usize)
    requires
        start <= end <= v.len(),
    ensures
        start <= r <= end,
        trim_end_spec(v@.subrange(start as int, end as int)) == v@.subrange(
            start as int,
            r as int,
        ),
{
    let mut cur: usize = end;
    while cur > start && ws(v[cur - 1])
        invariant
            start <= cur <= end <= v.len(),
            trim_end_spec(v@.subrange(start as int, end as int)) == trim_end_spec(
                v@.subrange(start as int, cur as int),
            ),
        decreases cur,
    {
        proof {
            let s = v@.subrange(start as int, cur as int);
            assert(s.last() == v@[cur - 1]);
            assert(s.drop_last() =~= v@.subrange(start as int, cur - 1));
        }
        cur = cur - 1;
    }
    proof {
        let s = v@.subrange(start as int, cur as int);
        if s.len() > 0 {
            assert(s.last() == v@[cur - 1]);
        }
        assert(trim_end_spec(s) == s);
    }
    cur
}

/// The position of the first newline in `v[start..end]`, or `end` if there is
/// none, related to `find_newline` on the suffix `v[start..end]`.
fn scan_newline(v: &Vec<u8>, start: usize, end: usize) -> (r: usize)
    requires
        start <= end <= v.len(),
    ensures
        start <= r <= end,
        r < end ==> find_newline(v@.subrange(start as int, end as int), 0) == r - start,
        r == end ==> find_newline(v@.subrange(start as int, end as int), 0) == -1,
{
    let ghost s = v@.subrange(start as int, end as int);
    let mut i: usize = start;
    while i < end
        invariant
            start <= i <= end <= v.len(),
            s == v@.subrange(start as int, end as int),
            find_newline(s, 0) == find_newline(s, i - start),
            forall|j: int| 0 <= j < i - start ==> s[j] != 10,
        decreases end - i,
    {
        proof {
            assert(s[i - start] == v@[i as int]);
        }
        if v[i] == 10 {
            return i;
        }
        i = i + 1;
    }
    i
}

/// Normalize a byte buffer for a `Standard` comparison.
pub fn normalize_standard(v: &Vec<u8>) -> (r: Vec<u8>)
    ensures
        r@ == spec_normalize_standard(v@),
{
    // First remove the trailing whitespace of the whole buffer.
    let end = trimmed_len(v, 0, v.len());
    let ghost t = trim_end_spec(v@);
    proof {
        assert(v@.subrange(0, v.len() as int) =~= v@);
        assert(t == v@.subrange(0, end as int));
    }
    // Then walk the remaining buffer line by line.
    let mut out: Vec<u8> = Vec::new();
    proof {
        assert(t.skip(0) =~= t);
        assert(out@ + norm_lines(t) =~= norm_lines(t));
    }
    let mut pos: usize = 0;
    while pos < end
        invariant
            pos <= end <= v.len(),
            t == v@.subrange(0, end as int),
            t.len() == end,
            norm_lines(t) == out@ + norm_lines(t.skip(pos as int)),
        decreases end - pos,
    {
        let nl = scan_newline(v, pos, end);
        let tl = trimmed_len(v, pos, nl);
        let ghost rest = t.skip(pos as int);
        proof {
            assert(rest =~= v@.subrange(pos as int, end as int));
            if nl < end {
                assert(find_newline(rest, 0) == nl - pos);
                assert(rest.take(nl - pos) =~= v@.subrange(pos as int, nl as int));
                assert(rest.skip(nl - pos + 1) =~= t.skip(nl + 1));
                assert(norm_lines(rest) == trim_end_spec(v@.subrange(pos as int, nl as int))
                    + norm_lines(t.skip(nl + 1)));
            } else {
                assert(find_newline(rest, 0) == -1);
                assert(norm_lines(rest) == trim_end_spec(v@.subrange(pos as int, end as int)));
            }
        }
        // Copy the trimmed line into the output.
        let ghost out0 = out@;
        proof {
            assert(out0 + v@.subrange(pos as int, pos as int) =~= out0);
        }
        let mut i: usize = pos;
        while i < tl
            invariant
                pos <= i <= tl <= v.len(),
                out@ == out0 + v@.subrange(pos as int, i as int),
            decreases tl - i,
        {
            proof {
                assert(v@.subrange(pos as int, i + 1) =~= v@.subrange(pos as int, i as int).push(
                    v@[i as int],
                ));
            }
            out.push(v[i]);
            i = i + 1;
        }
        proof {
            assert(out0 + v@.subrange(pos as int, pos as int) =~= out0);
            assert(out@ == out0 + trim_end_spec(v@.subrange(pos as int, nl as int)));
            if nl < end {
                assert(out0 + (trim_end_spec(v@.subrange(pos as int, nl as int)) + norm_lines(
                    t.skip(nl + 1),
                )) =~= out@ + norm_lines(t.skip(nl + 1)));
            }
        }
        if nl < end {
            pos = nl + 1;
        } else {
            pos = end;
        }
    }
    proof {
        assert(t.skip(pos as int).len() == 0);
        assert(trim_end_spec(t.skip(pos as int)) == t.skip(pos as int));
        assert(norm_lines(t.skip(pos as int)) =~= Seq::<u8>::empty());
        assert(out@ =~= out@ + norm_lines(t.skip(pos as int)));
    }
    out
}

/// One token of a compile command after substitution: `%INPUT%` becomes the
/// source path, `%OUTPUT%` the executable path, anything else stays.
pub open spec fn subst_token(token: Seq<char>, input: Seq<char>, output: Seq<char>) -> Seq<char> {
    if token == "%INPUT%"@ {
        input
    } else if token == "%OUTPUT%"@ {
        output
    } else {
        token
    }
}

/// Build the compile argv from a language's command template: `%INPUT%` is
/// replaced with the source path and `%OUTPUT%` with the executable path.
pub fn build_args(command: &Vec<String>, input: &String, output: &String) -> (r: Vec<String>)
    ensures
        r@.len() == command@.len(),
        forall|i: int|
            0 <= i < command@.len() ==> (#[trigger] r@[i])@ == subst_token(
                command@[i]@,
                input@,
                output@,
            ),
{
    let input_marker: String = "%INPUT%".to_owned();
    let output_marker: String = "%OUTPUT%".to_owned();
    let mut out: Vec<String> = Vec::new();
    let mut i: usize = 0;
    while i < command.len()
        invariant
            i <= command.len(),
            input_marker@ == "%INPUT%"@,
            output_marker@ == "%OUTPUT%"@,
            out@.len() == i,
            forall|k: int|
                0 <= k < i ==> (#[trigger] out@[k])@ == subst_token(
                    command@[k]@,
                    input@,
                    output@,
                ),
        decreases command.len() - i,
    {
        let token = if command[i] == input_marker {
            input.clone()
        } else if command[i] == output_marker {
            output.clone()
        } else {
            command[i].clone()
        };
        out.push(token);
        i = i + 1;
    }
    out
}

/// What the application observed of the compile step: whether the compiler
/// exited successfully, and the elapsed wall-clock microseconds.
#[derive(Clone, Copy, Debug, PartialEq, Eq, Structural)]
pub struct CompileEvent {
    pub success: bool,
    pub elapsed: u32,
}

/// What the application observed of one test-case run.
#[derive(Clone, Debug)]
pub enum CaseEvent {
    /// An input, output or answer file could not be opened or read, the child
    /// could not be spawned or killed, or waiting for it failed.
    Fault,
    /// The child exited on its own with a non-success status.
    NonZeroExit { elapsed: u32 },
    /// The child outlived its wall-clock allowance and was killed.
    TimedOut { elapsed: u32 },
    /// The child exited successfully; its output and the expected answer were
    /// read back.
    Completed { elapsed: u32, output: Vec<u8>, answer: Vec<u8> },
}

/// The verdict a case event earns, together with the elapsed time to record
/// for it. Faults and unimplemented problem types record no time.
pub open spec fn spec_case_verdict(typ: ProblemType, time_limit: u32, ev: CaseEvent) -> (
    JobResult,
    u32,
) {
    match ev {
        CaseEvent::Fault => (JobResult::SystemError, 0u32),
        CaseEvent::NonZeroExit { elapsed } => (JobResult::RuntimeError, elapsed),
        CaseEvent::TimedOut { elapsed } => (JobResult::TimeLimitExceeded, elapsed),
        CaseEvent::Completed { elapsed, output, answer } => {
            if time_limit != 0 && elapsed > time_limit {
                (JobResult::TimeLimitExceeded, elapsed)
            } else {
                match typ {
                    ProblemType::Standard => if spec_normalize_standard(output@)
                        == spec_normalize_standard(answer@) {
                        (JobResult::Accepted, elapsed)
                    } else {
                        (JobResult::WrongAnswer, elapsed)
                    },
                    ProblemType::Strict => if output@ == answer@ {
                        (JobResult::Accepted, elapsed)
                    } else {
                        (JobResult::WrongAnswer, elapsed)
                    },
                    _ => (JobResult::SystemError, 0u32),
                }
            }
        },
    }
}

/// Decide the verdict of one case from what the application observed.
///
/// A fault anywhere is a `SystemError`; a non-success exit is a
/// `RuntimeError`; being killed at the deadline is `TimeLimitExceeded`, as is
/// a successful exit whose elapsed time still exceeds a nonzero limit; an
/// output matching the answer under the problem type's normalization is
/// `Accepted`, a mismatch `WrongAnswer`; problem types without a comparison
/// rule earn a `SystemError`.
pub fn case_verdict(typ: &ProblemType, time_limit: u32, ev: &CaseEvent) -> (r: (JobResult, u32))
    ensures
        r == spec_case_verdict(*typ, time_limit, *ev),
{
    match ev {
        CaseEvent::Fault => (JobResult::SystemError, 0),
        CaseEvent::NonZeroExit { elapsed } => (JobResult::RuntimeError, *elapsed),
        CaseEvent::TimedOut { elapsed } => (JobResult::TimeLimitExceeded, *elapsed),
        CaseEvent::Completed { elapsed, output, answer } => {
            if time_limit != 0 && *elapsed > time_limit {
                (JobResult::TimeLimitExceeded, *elapsed)
            } else {
                match typ {
                    ProblemType::Standard => {
                        let no = normalize_standard(output);
                        let na = normalize_standard(answer);
                        if bytes_eq(&no, &na) {
                            (JobResult::Accepted, *elapsed)
                        } else {
                            (JobResult::WrongAnswer, *elapsed)
                        }
                    },
                    ProblemType::Strict => {
                        if bytes_eq(output, answer) {
                            (JobResult::Accepted, *elapsed)
                        } else {
                            (JobResult::WrongAnswer, *elapsed)
                        }
                    },
                    ProblemType::Spj => (JobResult::SystemError, 0),
                    ProblemType::DynamicRanking => (JobResult::SystemError, 0),
                }
            }
        },
    }
}

/// The score a job's cases have earned: the sum, over the first `n` problem
/// cases, of the case score where `cases[i + 1]` is `Accepted`.
pub open spec fn accepted_score_prefix(cases: Seq<CaseResult>, pcases: Seq<Case>, n: int) -> int
    decreases n,
{
    if n <= 0 {
        0
    } else {
        accepted_score_prefix(cases, pcases, n - 1) + if cases[n].result == JobResult::Accepted {
            pcases[n - 1].score as int
        } else {
            0
        }
    }
}

/// The score a job's cases have earned over all problem cases.
pub open spec fn accepted_score(cases: Seq<CaseResult>, pcases: Seq<Case>) -> int {
    accepted_score_prefix(cases, pcases, pcases.len() as int)
}

/// The earned score is bounded by the sum of the first `n` case scores.
proof fn lemma_accepted_le_total(cases: Seq<CaseResult>, pcases: Seq<Case>, n: int)
    ensures
        0 <= accepted_score_prefix(cases, pcases, n),
        accepted_score_prefix(cases, pcases, n) <= score_total_prefix(pcases, n),
    decreases n,
{
    if n > 0 {
        lemma_accepted_le_total(cases, pcases, n - 1);
    }
}

/// Replacing the verdict of case `j` shifts the earned score by the
/// difference that case makes.
proof fn lemma_accepted_update(
    cases: Seq<CaseResult>,
    pcases: Seq<Case>,
    n: int,
    j: int,
    c: CaseResult,
)
    requires
        1 <= j < cases.len(),
        j - 1 < pcases.len(),
        n < cases.len(),
    ensures
        accepted_score_prefix(cases.update(j, c), pcases, n) == accepted_score_prefix(
            cases,
            pcases,
            n,
        ) + if n >= j {
            (if c.result == JobResult::Accepted {
                pcases[j - 1].score as int
            } else {
                0
            }) - (if cases[j].result == JobResult::Accepted {
                pcases[j - 1].score as int
            } else {
                0
            })
        } else {
            0
        },
    decreases n,
{
    if n > 0 {
        lemma_accepted_update(cases, pcases, n - 1, j, c);
    }
}

/// Cases none of which are `Accepted` have earned nothing.
proof fn lemma_accepted_none(cases: Seq<CaseResult>, pcases: Seq<Case>, n: int)
    requires
        forall|i: int| 1 <= i <= n ==> (#[trigger] cases[i]).result != JobResult::Accepted,
    ensures
        accepted_score_prefix(cases, pcases, n) == 0,
    decreases n,
{
    if n > 0 {
        lemma_accepted_none(cases, pcases, n - 1);
    }
}

/// Whether a delivered job should be judged: a job canceled while it was
/// still queueing is skipped.
pub fn should_judge(job: &Job) -> (r: bool)
    ensures
        r == (job.state != JobStatus::Canceled),
{
    !(job.state == JobStatus::Canceled)
}

/// Record that a worker has picked the job up.
pub fn start_running(job: &mut Job, now: i64)
    requires
        old(job).created_time <= now,
    ensures
        *final(job) == (Job { state: JobStatus::Running, updated_time: now, ..*old(job) }),
        final(job).created_time <= final(job).updated_time,
{
    job.state = JobStatus::Running;
    job.updated_time = now;
}

/// The compilation pseudo-case a compile event earns.
pub open spec fn compile_case(compile: CompileEvent) -> CaseResult {
    CaseResult {
        id: 0,
        result: if compile.success {
            JobResult::CompilationSuccess
        } else {
            JobResult::CompilationError
        },
        time: compile.elapsed,
        memory: 0,
    }
}

/// Record the outcome of the compile step in `cases[0]`. A failed compile
/// finishes the job with `CompilationError`, leaving the other cases as they
/// were.
pub fn apply_compile(job: &mut Job, compile: &CompileEvent, now: i64)
    requires
        old(job).cases.len() >= 1,
        old(job).created_time <= now,
    ensures
        final(job).cases@ == old(job).cases@.update(0, compile_case(*compile)),
        final(job).updated_time == now,
        final(job).created_time <= final(job).updated_time,
        final(job).id == old(job).id,
        final(job).created_time == old(job).created_time,
        final(job).submission == old(job).submission,
        final(job).score == old(job).score,
        compile.success ==> final(job).state == old(job).state && final(job).result == old(
            job,
        ).result,
        !compile.success ==> final(job).state == JobStatus::Finished && final(job).result
            == JobResult::CompilationError,
{
    let c = CaseResult {
        id: 0,
        result: if compile.success {
            JobResult::CompilationSuccess
        } else {
            JobResult::CompilationError
        },
        time: compile.elapsed,
        memory: 0,
    };
    job.cases.set(0, c);
    if !compile.success {
        job.state = JobStatus::Finished;
        job.result = JobResult::CompilationError;
    }
    job.updated_time = now;
}

/// Record the verdict of problem case `idx` in `cases[idx + 1]`, crediting
/// the case score on `Accepted`, and keeping the job's score equal to the sum
/// of its accepted case scores.
pub fn apply_case(
    job: &mut Job,
    problem: &Problem,
    idx: usize,
    verdict: JobResult,
    time: u32,
    now: i64,
)
    requires
        problem_wf(*problem),
        old(job).cases.len() == problem.cases.len() + 1,
        idx < problem.cases.len(),
        old(job).cases@[idx + 1].result == JobResult::Waiting,
        old(job).score == accepted_score(old(job).cases@, problem.cases@),
        old(job).created_time <= now,
    ensures
        final(job).cases@ == old(job).cases@.update(
            idx + 1,
            (CaseResult { id: (idx + 1) as u32, result: verdict, time: time, memory: 0 }),
        ),
        final(job).score == accepted_score(final(job).cases@, problem.cases@),
        final(job).updated_time == now,
        final(job).created_time <= final(job).updated_time,
        final(job).id == old(job).id,
        final(job).created_time == old(job).created_time,
        final(job).submission == old(job).submission,
        final(job).state == old(job).state,
        final(job).result == old(job).result,
{
    let c = CaseResult { id: (idx + 1) as u32, result: verdict, time: time, memory: 0 };
    proof {
        let pcases = problem.cases@;
        let n = pcases.len() as int;
        lemma_accepted_update(old(job).cases@, pcases, n, idx + 1, c);
        lemma_accepted_le_total(old(job).cases@.update(idx + 1, c), pcases, n);
        lemma_accepted_le_total(old(job).cases@, pcases, n);
    }
    if matches!(verdict, JobResult::Accepted) {
        job.score = job.score + problem.cases[idx].score;
    }
    job.cases.set(idx + 1, c);
    job.updated_time = now;
}

/// Finish a job: the overall verdict is the first non-`Accepted` verdict
/// among `cases[1..]` in index order, or `Accepted` if every case passed.
pub fn finalize_job(job: &mut Job, now: i64)
    requires
        old(job).created_time <= now,
    ensures
        final(job).state == JobStatus::Finished,
        final(job).result == overall_verdict(old(job).cases@),
        final(job).updated_time == now,
        final(job).created_time <= final(job).updated_time,
        final(job).cases == old(job).cases,
        final(job).score == old(job).score,
        final(job).id == old(job).id,
        final(job).created_time == old(job).created_time,
        final(job).submission == old(job).submission,
{
    let ghost cases = job.cases@;
    let mut overall = JobResult::Accepted;
    let mut found = false;
    let mut i: usize = 1;
    while i < job.cases.len()
        invariant
            1 <= i,
            job.cases.len() >= 1 ==> i <= job.cases.len(),
            cases == job.cases@,
            *job == *old(job),
            found ==> first_non_accepted_from(cases, 1) == overall,
            !found ==> overall == JobResult::Accepted && first_non_accepted_from(cases, 1)
                == first_non_accepted_from(cases, i as int),
        decreases job.cases.len() - i,
    {
        if !found {
            let c = job.cases[i].result;
            if !matches!(c, JobResult::Accepted) {
                overall = c;
                found = true;
            }
        }
        i = i + 1;
    }
    job.state = JobStatus::Finished;
    job.result = overall;
    job.updated_time = now;
}

/// The case entry that problem case `i` earns from its event.
pub open spec fn case_result_of(problem: Problem, i: int, ev: CaseEvent) -> CaseResult {
    CaseResult {
        id: (i + 1) as u32,
        result: spec_case_verdict(problem.typ, problem.cases@[i].time_limit, ev).0,
        time: spec_case_verdict(problem.typ, problem.cases@[i].time_limit, ev).1,
        memory: 0,
    }
}

/// Judge a job against its problem, given what the application observed of
/// the compile step and of each test-case run.
///
/// The job moves to `Finished` with one verdict per case, its score the sum
/// of the accepted case scores, and its overall result the first
/// non-`Accepted` case verdict in index order. A failed compile
/// short-circuits: `cases[0]` and the result say `CompilationError` and the
/// test cases stay `Waiting`.
pub fn judge(
    job: &mut Job,
    problem: &Problem,
    compile: &CompileEvent,
    events: &Vec<CaseEvent>,
    now: i64,
)
    requires
        problem_wf(*problem),
        cases_fresh(old(job).cases@, problem.cases.len() as int),
        old(job).score == 0,
        old(job).created_time <= now,
        compile.success ==> events.len() == problem.cases.len(),
    ensures
        final(job).id == old(job).id,
        final(job).created_time == old(job).created_time,
        final(job).created_time <= final(job).updated_time,
        final(job).submission == old(job).submission,
        final(job).updated_time == now,
        final(job).state == JobStatus::Finished,
        final(job).cases.len() == problem.cases.len() + 1,
        final(job).score == accepted_score(final(job).cases@, problem.cases@),
        !compile.success ==> {
            &&& final(job).cases@ == old(job).cases@.update(0, compile_case(*compile))
            &&& final(job).cases@[0] == compile_case(*compile)
            &&& final(job).result == JobResult::CompilationError
            &&& all_waiting_from(final(job).cases@, 1)
            &&& final(job).score == 0
        },
        compile.success ==> {
            &&& final(job).cases@[0] == compile_case(*compile)
            &&& final(job).result == overall_verdict(final(job).cases@)
            &&& forall|i: int|
                0 <= i < events.len() ==> final(job).cases@[i + 1] == case_result_of(
                    *problem,
                    i,
                    events@[i],
                )
        },
{
    start_running(job, now);
    apply_compile(job, compile, now);
    proof {
        lemma_accepted_none(job.cases@, problem.cases@, problem.cases@.len() as int);
    }
    if !compile.success {
        return;
    }
    let mut k: usize = 0;
    while k < events.len()
        invariant
            problem_wf(*problem),
            events.len() == problem.cases.len(),
            job.cases.len() == problem.cases.len() + 1,
            job.id == old(job).id,
            job.created_time == old(job).created_time,
            job.created_time <= now,
            job.submission == old(job).submission,
            job.state == JobStatus::Running,
            job.cases@[0] == compile_case(*compile),
            compile.success,
            k <= events.len(),
            forall|i: int|
                0 <= i < k ==> job.cases@[i + 1] == case_result_of(*problem, i, events@[i]),
            forall|i: int|
                k <= i < events.len() ==> (#[trigger] job.cases@[i + 1]).result
                    == JobResult::Waiting,
            job.score == accepted_score(job.cases@, problem.cases@),
        decreases events.len() - k,
    {
        let (v, t) = case_verdict(&problem.typ, problem.cases[k].time_limit, &events[k]);
        apply_case(job, problem, k, v, t, now);
        k = k + 1;
    }
    finalize_job(job, now);
}

/// Whether two byte buffers hold the same bytes.
pub fn bytes_eq(a: &Vec<u8>, b: &Vec<u8>) -> (r: bool)
    ensures
        r == (a@ == b@),
{
    if a.len() != b.len() {
        return false;
    }
    let mut i: usize = 0;
    while i < a.len()
        invariant
            i <= a.len() == b.len(),
            forall|j: int| 0 <= j < i ==> a@[j] == b@[j],
        decreases a.len() - i,
    {
        if a[i] != b[i] {
            return false;
        }
        i = i + 1;
    }
    proof {
        assert(a@ =~= b@);
    }
    true
}

} // verus!
