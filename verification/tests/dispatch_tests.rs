//! Tests of the dispatcher: submission validation, rejudge and cancel.

use online_judge::config::{Case, Config, Language, Problem, ProblemType, Server};
use online_judge::dispatch::{cancel_job, new_job, rejudge_job, update_contest, ContestForm};
use online_judge::error::Reason;
use online_judge::jobs::{JobResult, JobStatus, Submission};
use online_judge::judge::{judge, CaseEvent, CompileEvent};
use online_judge::store::{Contest, JobStore, UserForm};

fn test_config() -> Config {
    Config {
        server: Server { bind_address: "127.0.0.1".to_string(), bind_port: 12345 },
        problems: vec![Problem {
            id: 1,
            name: "aplusb".to_string(),
            typ: ProblemType::Standard,
            cases: vec![
                Case {
                    score: 50,
                    input_file: "1.in".to_string(),
                    answer_file: "1.ans".to_string(),
                    time_limit: 1000000,
                    memory_limit: 0,
                },
                Case {
                    score: 50,
                    input_file: "2.in".to_string(),
                    answer_file: "2.ans".to_string(),
                    time_limit: 1000000,
                    memory_limit: 0,
                },
            ],
        }],
        languages: vec![Language {
            name: "c".to_string(),
            file_name: "main.c".to_string(),
            command: vec!["gcc".to_string(), "%INPUT%".to_string(), "-o".to_string(),
                "%OUTPUT%".to_string()],
        }],
    }
}

fn submission(uid: u32, pid: u32, cid: u32) -> Submission {
    Submission {
        source_code: "int main() {}".to_string(),
        language: "c".to_string(),
        user_id: uid,
        contest_id: cid,
        problem_id: pid,
    }
}

fn store_with_contest() -> JobStore {
    let mut store = JobStore::new();
    store.update_user(UserForm { id: None, user_name: "root".to_string() }).unwrap();
    store.update_user(UserForm { id: None, user_name: "alice".to_string() }).unwrap();
    store.new_contest(Contest {
        id: 1,
        name: "week one".to_string(),
        from: 1000,
        to: 2000,
        problem_ids: vec![1],
        user_ids: vec![0],
        submission_limit: 2,
    });
    store
}

#[test]
fn new_job_persists_a_queueing_job() {
    let config = test_config();
    let mut store = store_with_contest();
    let job = new_job(&mut store, &config, submission(0, 1, 0), 1234).unwrap();
    assert_eq!(job.id, 0);
    assert_eq!(job.created_time, 1234);
    assert_eq!(job.updated_time, 1234);
    assert_eq!(job.state, JobStatus::Queueing);
    assert_eq!(job.result, JobResult::Waiting);
    assert_eq!(job.score, 0);
    assert_eq!(job.cases.len(), 3);
    for (i, c) in job.cases.iter().enumerate() {
        assert_eq!(c.id, i as u32);
        assert_eq!(c.result, JobResult::Waiting);
        assert_eq!(c.time, 0);
        assert_eq!(c.memory, 0);
    }
    assert_eq!(store.jobs_count(), 1);
    assert_eq!(store.get_job(0).unwrap().state, JobStatus::Queueing);
}

#[test]
fn new_job_rejects_unknown_names() {
    let config = test_config();
    let mut store = store_with_contest();

    let mut s = submission(0, 1, 0);
    s.language = "cobol".to_string();
    let err = new_job(&mut store, &config, s, 1234).unwrap_err();
    assert_eq!(err.reason, Reason::NotFound);
    assert_eq!(err.message, "No such language.");

    let err = new_job(&mut store, &config, submission(0, 9, 0), 1234).unwrap_err();
    assert_eq!(err.reason, Reason::NotFound);
    assert_eq!(err.message, "No such problem.");

    let err = new_job(&mut store, &config, submission(7, 1, 0), 1234).unwrap_err();
    assert_eq!(err.reason, Reason::NotFound);
    assert_eq!(err.message, "No such user.");

    let err = new_job(&mut store, &config, submission(0, 1, 9), 1234).unwrap_err();
    assert_eq!(err.reason, Reason::NotFound);
    assert_eq!(err.message, "No such contest.");

    assert_eq!(store.jobs_count(), 0);
}

#[test]
fn new_job_enforces_contest_membership() {
    let config = test_config();
    let mut store = store_with_contest();

    // User 1 is not in the contest.
    let err = new_job(&mut store, &config, submission(1, 1, 1), 1500).unwrap_err();
    assert_eq!(err.reason, Reason::InvalidArgument);
    assert_eq!(err.message, "User not in contest.");

    // Problem 2 is not posed in the contest.
    store.new_contest(Contest {
        id: 2,
        name: "week two".to_string(),
        from: 1000,
        to: 2000,
        problem_ids: vec![2],
        user_ids: vec![0],
        submission_limit: 2,
    });
    let err = new_job(&mut store, &config, submission(0, 1, 2), 1500).unwrap_err();
    assert_eq!(err.reason, Reason::InvalidArgument);
    assert_eq!(err.message, "Problem not in contest.");
}

#[test]
fn new_job_enforces_contest_window() {
    let config = test_config();
    let mut store = store_with_contest();

    let err = new_job(&mut store, &config, submission(0, 1, 1), 999).unwrap_err();
    assert_eq!(err.reason, Reason::InvalidArgument);
    assert_eq!(err.message, "Contest hasn't yet begun.");

    let err = new_job(&mut store, &config, submission(0, 1, 1), 2001).unwrap_err();
    assert_eq!(err.reason, Reason::InvalidArgument);
    assert_eq!(err.message, "Contest has already ended.");

    // The window is inclusive at both ends.
    assert!(new_job(&mut store, &config, submission(0, 1, 1), 1000).is_ok());
    assert!(new_job(&mut store, &config, submission(0, 1, 1), 2000).is_ok());
}

#[test]
fn new_job_enforces_submission_limit() {
    let config = test_config();
    let mut store = store_with_contest();
    assert!(new_job(&mut store, &config, submission(0, 1, 1), 1500).is_ok());
    assert!(new_job(&mut store, &config, submission(0, 1, 1), 1501).is_ok());
    let err = new_job(&mut store, &config, submission(0, 1, 1), 1502).unwrap_err();
    assert_eq!(err.reason, Reason::RateLimit);
    assert_eq!(err.message, "Submission limit exceeded.");
    assert_eq!(err.code, 4);
    assert_eq!(store.jobs_count(), 2);
}

#[test]
fn rejudge_resets_a_finished_job() {
    let config = test_config();
    let mut store = store_with_contest();
    let mut job = new_job(&mut store, &config, submission(0, 1, 0), 1234).unwrap();

    // Not finished yet: rejudging is an invalid state.
    let err = rejudge_job(&mut store, job.id, 1300).unwrap_err();
    assert_eq!(err.reason, Reason::InvalidState);
    assert_eq!(err.message, "Job not finished.");

    // Judge it to completion, then rejudge.
    let problem = &config.problems[0];
    let events = vec![
        CaseEvent::Completed { elapsed: 5, output: b"1\n".to_vec(), answer: b"1\n".to_vec() },
        CaseEvent::Completed { elapsed: 6, output: b"2\n".to_vec(), answer: b"2\n".to_vec() },
    ];
    judge(&mut job, problem, &CompileEvent { success: true, elapsed: 9 }, &events, 1400);
    store.update_job(job.clone()).unwrap();
    assert_eq!(store.get_job(0).unwrap().state, JobStatus::Finished);

    let reset = rejudge_job(&mut store, 0, 1500).unwrap();
    assert_eq!(reset.state, JobStatus::Queueing);
    assert_eq!(reset.result, JobResult::Waiting);
    assert_eq!(reset.score, 0);
    assert_eq!(reset.created_time, 1234);
    assert_eq!(reset.updated_time, 1500);
    assert_eq!(reset.cases.len(), 3);
    for c in &reset.cases {
        assert_eq!(c.result, JobResult::Waiting);
        assert_eq!(c.time, 0);
    }
    assert_eq!(store.get_job(0).unwrap().state, JobStatus::Queueing);

    let err = rejudge_job(&mut store, 9, 1500).unwrap_err();
    assert_eq!(err.reason, Reason::NotFound);
}

#[test]
fn cancel_only_queueing_jobs() {
    let config = test_config();
    let mut store = store_with_contest();
    let job = new_job(&mut store, &config, submission(0, 1, 0), 1234).unwrap();

    cancel_job(&mut store, job.id).unwrap();
    assert_eq!(store.get_job(0).unwrap().state, JobStatus::Canceled);
    // The timestamp is untouched by a cancel.
    assert_eq!(store.get_job(0).unwrap().updated_time, 1234);

    // A canceled job is no longer queueing.
    let err = cancel_job(&mut store, 0).unwrap_err();
    assert_eq!(err.reason, Reason::InvalidState);
    assert_eq!(err.message, "Job not queueing.");

    let err = cancel_job(&mut store, 9).unwrap_err();
    assert_eq!(err.reason, Reason::NotFound);
}

#[test]
fn update_contest_validates_and_creates() {
    let config = test_config();
    let mut store = store_with_contest();

    // Unknown problem id.
    let err = update_contest(&mut store, &config, ContestForm {
        id: None,
        name: "bad".to_string(),
        from: 0,
        to: 10,
        problem_ids: vec![9],
        user_ids: vec![0],
        submission_limit: 1,
    })
    .unwrap_err();
    assert_eq!(err.reason, Reason::NotFound);
    assert_eq!(err.message, "Unknown problem.");

    // Unknown user id.
    let err = update_contest(&mut store, &config, ContestForm {
        id: None,
        name: "bad".to_string(),
        from: 0,
        to: 10,
        problem_ids: vec![1],
        user_ids: vec![5],
        submission_limit: 1,
    })
    .unwrap_err();
    assert_eq!(err.reason, Reason::NotFound);
    assert_eq!(err.message, "Unknown user.");

    // A new contest takes the next id.
    let c = update_contest(&mut store, &config, ContestForm {
        id: None,
        name: "week two".to_string(),
        from: 0,
        to: 10,
        problem_ids: vec![1],
        user_ids: vec![0, 1],
        submission_limit: 4,
    })
    .unwrap();
    assert_eq!(c.id, 2);
    assert_eq!(store.contests_count(), 2);

    // Updating a missing contest fails.
    let err = update_contest(&mut store, &config, ContestForm {
        id: Some(9),
        name: "nope".to_string(),
        from: 0,
        to: 10,
        problem_ids: vec![1],
        user_ids: vec![0],
        submission_limit: 1,
    })
    .unwrap_err();
    assert_eq!(err.reason, Reason::NotFound);
    assert_eq!(err.message, "Contest not found.");

    // Updating an existing one replaces it.
    let c = update_contest(&mut store, &config, ContestForm {
        id: Some(1),
        name: "week one v2".to_string(),
        from: 5,
        to: 50,
        problem_ids: vec![1],
        user_ids: vec![1],
        submission_limit: 9,
    })
    .unwrap();
    assert_eq!(c.id, 1);
    assert_eq!(store.get_contest(1).unwrap().name, "week one v2");
    assert_eq!(store.get_contest(1).unwrap().submission_limit, 9);
}
