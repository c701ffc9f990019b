//! Tests of the ranklist engine: scoring rules, tie-breakers and ranks.

use online_judge::config::{Case, Config, Language, Problem, ProblemType, Server};
use online_judge::error::Reason;
use online_judge::jobs::{CaseResult, Job, JobResult, JobStatus, Submission};
use online_judge::rank::{get_rank_list, RankingRule, ScoringRule, TieBreaker};
use online_judge::store::{Contest, JobStore, UserForm};

fn config_with_problems(ids: Vec<u32>) -> Config {
    let mut problems = Vec::new();
    for id in ids {
        problems.push(Problem {
            id,
            name: format!("p{}", id),
            typ: ProblemType::Standard,
            cases: vec![Case {
                score: 100,
                input_file: "in".to_string(),
                answer_file: "ans".to_string(),
                time_limit: 0,
                memory_limit: 0,
            }],
        });
    }
    Config {
        server: Server { bind_address: "127.0.0.1".to_string(), bind_port: 12345 },
        problems,
        languages: vec![Language {
            name: "c".to_string(),
            file_name: "main.c".to_string(),
            command: vec!["gcc".to_string()],
        }],
    }
}

fn job(id: u32, uid: u32, pid: u32, cid: u32, created: i64, score: u64) -> Job {
    Job {
        id,
        created_time: created,
        updated_time: created,
        submission: Submission {
            source_code: "code".to_string(),
            language: "c".to_string(),
            user_id: uid,
            contest_id: cid,
            problem_id: pid,
        },
        state: JobStatus::Finished,
        result: JobResult::Accepted,
        score,
        cases: vec![CaseResult { id: 0, result: JobResult::CompilationSuccess, time: 0, memory: 0 }],
    }
}

fn store_with_users(names: &[&str]) -> JobStore {
    let mut store = JobStore::new();
    for name in names {
        store.update_user(UserForm { id: None, user_name: name.to_string() }).unwrap();
    }
    store
}

fn rule(s: Option<ScoringRule>, t: Option<TieBreaker>) -> RankingRule {
    RankingRule { scoring_rule: s, tie_breaker: t }
}

#[test]
fn ties_share_ranks_under_default() {
    // Totals 80, 100, 100 for users 0, 1, 2.
    let config = config_with_problems(vec![1]);
    let mut store = store_with_users(&["c", "b", "a"]);
    store.new_job(job(0, 0, 1, 0, 10, 80));
    store.new_job(job(1, 1, 1, 0, 11, 100));
    store.new_job(job(2, 2, 1, 0, 12, 100));

    let items = get_rank_list(&store, &config, 0, &rule(None, None)).unwrap();
    assert_eq!(items.len(), 3);
    // The two 100-point users tie at rank 1 and stand in id order.
    assert_eq!(items[0].user.id, 1);
    assert_eq!(items[0].rank, 1);
    assert_eq!(items[1].user.id, 2);
    assert_eq!(items[1].rank, 1);
    assert_eq!(items[2].user.id, 0);
    assert_eq!(items[2].rank, 3);
    assert_eq!(items[0].scores, vec![100]);
    assert_eq!(items[2].scores, vec![80]);
}

#[test]
fn user_id_breaks_ties() {
    let config = config_with_problems(vec![1]);
    let mut store = store_with_users(&["c", "b", "a"]);
    store.new_job(job(0, 0, 1, 0, 10, 80));
    store.new_job(job(1, 1, 1, 0, 11, 100));
    store.new_job(job(2, 2, 1, 0, 12, 100));

    let items = get_rank_list(&store, &config, 0, &rule(None, Some(TieBreaker::UserId))).unwrap();
    assert_eq!(items[0].user.id, 1);
    assert_eq!(items[0].rank, 1);
    assert_eq!(items[1].user.id, 2);
    assert_eq!(items[1].rank, 2);
    assert_eq!(items[2].user.id, 0);
    assert_eq!(items[2].rank, 3);
}

#[test]
fn submission_time_breaks_ties() {
    // Equal totals; the user whose latest submission came earlier wins.
    let config = config_with_problems(vec![1]);
    let mut store = store_with_users(&["a", "b"]);
    store.new_job(job(0, 0, 1, 0, 50, 100));
    store.new_job(job(1, 1, 1, 0, 20, 100));

    let items = get_rank_list(&store, &config, 0, &rule(None, Some(TieBreaker::SubmissionTime)))
        .unwrap();
    assert_eq!(items[0].user.id, 1);
    assert_eq!(items[0].rank, 1);
    assert_eq!(items[1].user.id, 0);
    assert_eq!(items[1].rank, 2);
}

#[test]
fn submission_count_breaks_ties() {
    // Equal totals; fewer submissions wins.
    let config = config_with_problems(vec![1]);
    let mut store = store_with_users(&["a", "b"]);
    store.new_job(job(0, 0, 1, 0, 10, 0));
    store.new_job(job(1, 0, 1, 0, 20, 100));
    store.new_job(job(2, 1, 1, 0, 30, 100));

    let items = get_rank_list(&store, &config, 0, &rule(None, Some(TieBreaker::SubmissionCount)))
        .unwrap();
    assert_eq!(items[0].user.id, 1);
    assert_eq!(items[0].rank, 1);
    assert_eq!(items[1].user.id, 0);
    assert_eq!(items[1].rank, 2);
}

#[test]
fn users_without_submissions_score_zero() {
    let config = config_with_problems(vec![1, 2]);
    let mut store = store_with_users(&["a", "b"]);
    store.new_job(job(0, 0, 1, 0, 10, 60));

    let items = get_rank_list(&store, &config, 0, &rule(None, None)).unwrap();
    assert_eq!(items.len(), 2);
    assert_eq!(items[0].user.id, 0);
    assert_eq!(items[0].scores, vec![60, 0]);
    assert_eq!(items[1].user.id, 1);
    assert_eq!(items[1].scores, vec![0, 0]);
}

#[test]
fn latest_rule_takes_newest_score() {
    // A better score followed by a worse one: Latest shows the worse.
    let config = config_with_problems(vec![1]);
    let mut store = store_with_users(&["a"]);
    store.new_job(job(0, 0, 1, 0, 10, 100));
    store.new_job(job(1, 0, 1, 0, 20, 40));

    let items = get_rank_list(&store, &config, 0, &rule(Some(ScoringRule::Latest), None)).unwrap();
    assert_eq!(items[0].scores, vec![40]);
    let items = get_rank_list(&store, &config, 0, &rule(Some(ScoringRule::Highest), None)).unwrap();
    assert_eq!(items[0].scores, vec![100]);
}

#[test]
fn contest_ranklist_restricts_users_and_problems() {
    let config = config_with_problems(vec![1, 2]);
    let mut store = store_with_users(&["a", "b", "c"]);
    store.new_contest(Contest {
        id: 1,
        name: "week one".to_string(),
        from: 0,
        to: 1000,
        problem_ids: vec![2, 7],
        user_ids: vec![0, 2],
        submission_limit: 10,
    });
    store.new_job(job(0, 0, 2, 1, 10, 70));
    store.new_job(job(1, 1, 2, 1, 11, 90));
    store.new_job(job(2, 2, 2, 0, 12, 90));

    let items = get_rank_list(&store, &config, 1, &rule(None, None)).unwrap();
    // Only the contest's users appear; the unknown problem id 7 is dropped,
    // and out-of-contest submissions do not count.
    assert_eq!(items.len(), 2);
    assert_eq!(items[0].user.id, 0);
    assert_eq!(items[0].rank, 1);
    assert_eq!(items[0].scores, vec![70]);
    assert_eq!(items[1].user.id, 2);
    assert_eq!(items[1].rank, 2);
    assert_eq!(items[1].scores, vec![0]);
}

#[test]
fn empty_store_gives_empty_ranklist() {
    let config = config_with_problems(vec![1]);
    let store = JobStore::new();
    let items = get_rank_list(&store, &config, 0, &rule(None, None)).unwrap();
    assert_eq!(items.len(), 0);
}

#[test]
fn single_user_gets_rank_one() {
    let config = config_with_problems(vec![1]);
    let store = store_with_users(&["only"]);
    let items = get_rank_list(&store, &config, 0, &rule(None, None)).unwrap();
    assert_eq!(items.len(), 1);
    assert_eq!(items[0].rank, 1);
    assert_eq!(items[0].scores, vec![0]);
}

#[test]
fn missing_contest_is_not_found() {
    let config = config_with_problems(vec![1]);
    let store = JobStore::new();
    let err = get_rank_list(&store, &config, 4, &rule(None, None)).unwrap_err();
    assert_eq!(err.reason, Reason::NotFound);
    assert_eq!(err.message, "Contest not found.");
}
