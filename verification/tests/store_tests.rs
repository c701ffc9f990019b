//! Tests of the job store: round trips, filters, selections and counts.

use online_judge::error::Reason;
use online_judge::jobs::{CaseResult, Job, JobResult, JobStatus, Submission};
use online_judge::store::{Contest, JobFilter, JobStore, User, UserForm};

fn submission(uid: u32, pid: u32, cid: u32) -> Submission {
    Submission {
        source_code: "code".to_string(),
        language: "c".to_string(),
        user_id: uid,
        contest_id: cid,
        problem_id: pid,
    }
}

fn job(id: u32, uid: u32, pid: u32, cid: u32, created: i64, score: u64) -> Job {
    Job {
        id,
        created_time: created,
        updated_time: created,
        submission: submission(uid, pid, cid),
        state: JobStatus::Finished,
        result: JobResult::Accepted,
        score,
        cases: vec![CaseResult { id: 0, result: JobResult::CompilationSuccess, time: 0, memory: 0 }],
    }
}

fn add_user(store: &mut JobStore, name: &str) -> u32 {
    let user = store
        .update_user(UserForm { id: None, user_name: name.to_string() })
        .expect("user insert");
    user.id
}

#[test]
fn well_formedness_checker_accepts_and_rejects() {
    let mut store = JobStore::new();
    assert!(store.check_wf());
    add_user(&mut store, "root");
    store.new_job(job(0, 0, 1, 0, 1, 0));
    store.new_contest(Contest {
        id: 1,
        name: "week one".to_string(),
        from: 0,
        to: 10,
        problem_ids: vec![1],
        user_ids: vec![0],
        submission_limit: 1,
    });
    assert!(store.check_wf());
    // A row whose id does not match its position is rejected.
    store.jobs[0].id = 7;
    assert!(!store.check_wf());
    store.jobs[0].id = 0;
    assert!(store.check_wf());
    store.users[0].id = 3;
    assert!(!store.check_wf());
    store.users[0].id = 0;
    store.contests[0].id = 9;
    assert!(!store.check_wf());
}

#[test]
fn job_insert_then_get_round_trip() {
    let mut store = JobStore::new();
    let j = job(0, 0, 1, 0, 1000, 50);
    store.new_job(j.clone());
    let back = store.get_job(0).expect("job exists");
    assert_eq!(back.id, j.id);
    assert_eq!(back.created_time, j.created_time);
    assert_eq!(back.updated_time, j.updated_time);
    assert_eq!(back.submission.source_code, j.submission.source_code);
    assert_eq!(back.submission.language, j.submission.language);
    assert_eq!(back.submission.user_id, j.submission.user_id);
    assert_eq!(back.submission.contest_id, j.submission.contest_id);
    assert_eq!(back.submission.problem_id, j.submission.problem_id);
    assert_eq!(back.state, j.state);
    assert_eq!(back.result, j.result);
    assert_eq!(back.score, j.score);
    assert_eq!(back.cases, j.cases);
}

#[test]
fn job_ids_are_dense() {
    let mut store = JobStore::new();
    assert_eq!(store.jobs_count(), 0);
    store.new_job(job(0, 0, 1, 0, 1, 0));
    assert_eq!(store.jobs_count(), 1);
    store.new_job(job(1, 0, 1, 0, 2, 0));
    assert_eq!(store.jobs_count(), 2);
    assert!(store.does_job_exist(1));
    assert!(!store.does_job_exist(2));
}

#[test]
fn get_missing_job_is_not_found() {
    let store = JobStore::new();
    let err = store.get_job(7).unwrap_err();
    assert_eq!(err.reason, Reason::NotFound);
    assert_eq!(err.code, 3);
}

#[test]
fn update_job_replaces_row() {
    let mut store = JobStore::new();
    store.new_job(job(0, 0, 1, 0, 1, 0));
    let mut j = store.get_job(0).unwrap().clone();
    j.state = JobStatus::Running;
    store.update_job(j).unwrap();
    assert_eq!(store.get_job(0).unwrap().state, JobStatus::Running);

    let orphan = job(9, 0, 1, 0, 1, 0);
    let err = store.update_job(orphan).unwrap_err();
    assert_eq!(err.reason, Reason::NotFound);
}

#[test]
fn filters_are_and_combined() {
    let mut store = JobStore::new();
    add_user(&mut store, "alice");
    add_user(&mut store, "bob");
    store.new_job(job(0, 0, 1, 0, 10, 0));
    store.new_job(job(1, 1, 1, 0, 20, 0));
    store.new_job(job(2, 0, 2, 0, 30, 0));

    let mut f = JobFilter::default();
    f.user_id = Some(0);
    let r = store.get_jobs(&f);
    assert_eq!(r.len(), 2);
    assert_eq!(r[0].id, 0);
    assert_eq!(r[1].id, 2);

    f.problem_id = Some(2);
    let r = store.get_jobs(&f);
    assert_eq!(r.len(), 1);
    assert_eq!(r[0].id, 2);
}

#[test]
fn filter_by_user_name_resolves_to_id() {
    let mut store = JobStore::new();
    add_user(&mut store, "alice");
    add_user(&mut store, "bob");
    store.new_job(job(0, 0, 1, 0, 10, 0));
    store.new_job(job(1, 1, 1, 0, 20, 0));

    let mut f = JobFilter::default();
    f.user_name = Some("bob".to_string());
    let r = store.get_jobs(&f);
    assert_eq!(r.len(), 1);
    assert_eq!(r[0].id, 1);

    f.user_name = Some("carol".to_string());
    assert_eq!(store.get_jobs(&f).len(), 0);
}

#[test]
fn filter_by_time_window_is_inclusive() {
    let mut store = JobStore::new();
    store.new_job(job(0, 0, 1, 0, 10, 0));
    store.new_job(job(1, 0, 1, 0, 20, 0));
    store.new_job(job(2, 0, 1, 0, 30, 0));
    let mut f = JobFilter::default();
    f.from = Some(20);
    f.to = Some(30);
    let r = store.get_jobs(&f);
    assert_eq!(r.len(), 2);
    assert_eq!(r[0].id, 1);
    assert_eq!(r[1].id, 2);
}

#[test]
fn filter_by_state_and_result() {
    let mut store = JobStore::new();
    let mut q = job(0, 0, 1, 0, 10, 0);
    q.state = JobStatus::Queueing;
    q.result = JobResult::Waiting;
    store.new_job(q);
    store.new_job(job(1, 0, 1, 0, 20, 0));
    let mut f = JobFilter::default();
    f.state = Some(JobStatus::Queueing);
    assert_eq!(store.get_jobs(&f).len(), 1);
    let mut f = JobFilter::default();
    f.result = Some(JobResult::Accepted);
    assert_eq!(store.get_jobs(&f)[0].id, 1);
}

#[test]
fn latest_submission_picks_newest() {
    let mut store = JobStore::new();
    store.new_job(job(0, 0, 1, 0, 10, 100));
    store.new_job(job(1, 0, 1, 0, 30, 40));
    store.new_job(job(2, 0, 1, 0, 20, 70));
    let latest = store.get_latest_submission(0, 1, 0).expect("has submissions");
    assert_eq!(latest.id, 1);
    assert_eq!(latest.created_time, 30);
    assert!(store.get_latest_submission(5, 1, 0).is_none());
}

#[test]
fn highest_submission_prefers_score_then_earliest() {
    let mut store = JobStore::new();
    store.new_job(job(0, 0, 1, 0, 10, 70));
    store.new_job(job(1, 0, 1, 0, 30, 100));
    store.new_job(job(2, 0, 1, 0, 20, 100));
    let best = store.get_highest_submission(0, 1, 0).expect("has submissions");
    // Both 100-point runs tie; the earlier one wins.
    assert_eq!(best.id, 2);
    assert_eq!(best.score, 100);
    assert_eq!(best.created_time, 20);
}

#[test]
fn submission_count_counts_the_triple() {
    let mut store = JobStore::new();
    store.new_job(job(0, 0, 1, 0, 10, 0));
    store.new_job(job(1, 0, 1, 0, 20, 0));
    store.new_job(job(2, 0, 2, 0, 30, 0));
    store.new_job(job(3, 1, 1, 0, 40, 0));
    store.new_job(job(4, 0, 1, 5, 50, 0));
    assert_eq!(store.get_submission_count(0, 1, 0), 2);
    assert_eq!(store.get_submission_count(0, 2, 0), 1);
    assert_eq!(store.get_submission_count(1, 1, 0), 1);
    assert_eq!(store.get_submission_count(0, 1, 5), 1);
    assert_eq!(store.get_submission_count(9, 9, 9), 0);
}

#[test]
fn user_insert_rename_and_conflicts() {
    let mut store = JobStore::new();
    let a = store.update_user(UserForm { id: None, user_name: "root".to_string() }).unwrap();
    assert_eq!(a.id, 0);
    assert_eq!(a.user_name, "root");
    let b = store.update_user(UserForm { id: None, user_name: "alice".to_string() }).unwrap();
    assert_eq!(b.id, 1);

    // A taken name is refused for another user.
    let err = store
        .update_user(UserForm { id: Some(1), user_name: "root".to_string() })
        .unwrap_err();
    assert_eq!(err.reason, Reason::InvalidArgument);
    assert_eq!(err.message, "Username already exists.");

    // Renaming a user to their own name is allowed.
    let same = store.update_user(UserForm { id: Some(0), user_name: "root".to_string() }).unwrap();
    assert_eq!(same.id, 0);

    // Renaming a missing user fails.
    let err = store
        .update_user(UserForm { id: Some(9), user_name: "carol".to_string() })
        .unwrap_err();
    assert_eq!(err.reason, Reason::NotFound);

    // A proper rename sticks.
    let renamed = store
        .update_user(UserForm { id: Some(1), user_name: "alicia".to_string() })
        .unwrap();
    assert_eq!(renamed.user_name, "alicia");
    assert_eq!(store.get_user(1).unwrap().user_name, "alicia");
    assert_eq!(store.get_id_by_username(&"alicia".to_string()), Some(1));
    assert_eq!(store.get_id_by_username(&"alice".to_string()), None);
}

#[test]
fn get_some_users_keeps_id_order() {
    let mut store = JobStore::new();
    add_user(&mut store, "a");
    add_user(&mut store, "b");
    add_user(&mut store, "c");
    let picked = store.get_some_users(&vec![2, 0]);
    assert_eq!(picked.len(), 2);
    assert_eq!(picked[0].id, 0);
    assert_eq!(picked[1].id, 2);
    assert_eq!(store.get_users().len(), 3);
    assert_eq!(store.user_count(), 3);
    assert!(store.does_user_exist(2));
    assert!(!store.does_user_exist(3));
}

#[test]
fn contest_rows_are_keyed_from_one() {
    let mut store = JobStore::new();
    assert_eq!(store.contests_count(), 0);
    assert!(!store.does_contest_exist(0));
    store.new_contest(Contest {
        id: 1,
        name: "week one".to_string(),
        from: 0,
        to: 100,
        problem_ids: vec![1],
        user_ids: vec![0],
        submission_limit: 3,
    });
    assert_eq!(store.contests_count(), 1);
    assert!(store.does_contest_exist(1));
    assert_eq!(store.get_contest(1).unwrap().name, "week one");
    let err = store.get_contest(2).unwrap_err();
    assert_eq!(err.reason, Reason::NotFound);

    let mut changed = store.get_contest(1).unwrap().clone();
    changed.submission_limit = 5;
    store.update_contest(changed).unwrap();
    assert_eq!(store.get_contest(1).unwrap().submission_limit, 5);
    assert_eq!(store.get_contests().len(), 1);
}
