//! Tests of errors, configuration lookup, enum codes and the queue framing.

use online_judge::config::{get_default_address, get_default_port, Case, Config, Language,
    Problem, ProblemType, Server};
use online_judge::error::{Error, Reason};
use online_judge::jobs::{JobResult, JobStatus};
use online_judge::queue::{decode_job_id, encode_job_id};

fn sample_config() -> Config {
    Config {
        server: Server { bind_address: get_default_address(), bind_port: get_default_port() },
        problems: vec![
            Problem {
                id: 3,
                name: "three".to_string(),
                typ: ProblemType::Strict,
                cases: vec![Case {
                    score: 10,
                    input_file: "in".to_string(),
                    answer_file: "ans".to_string(),
                    time_limit: 0,
                    memory_limit: 0,
                }],
            },
            Problem { id: 5, name: "five".to_string(), typ: ProblemType::Standard, cases: vec![] },
        ],
        languages: vec![
            Language {
                name: "c".to_string(),
                file_name: "main.c".to_string(),
                command: vec!["gcc".to_string()],
            },
            Language {
                name: "sh".to_string(),
                file_name: "main.sh".to_string(),
                command: vec!["cp".to_string()],
            },
        ],
    }
}

#[test]
fn error_codes_are_stable() {
    assert_eq!(Error::new(Reason::InvalidArgument, "m".to_string()).code, 1);
    assert_eq!(Error::new(Reason::InvalidState, "m".to_string()).code, 2);
    assert_eq!(Error::new(Reason::NotFound, "m".to_string()).code, 3);
    assert_eq!(Error::new(Reason::RateLimit, "m".to_string()).code, 4);
    assert_eq!(Error::new(Reason::External, "m".to_string()).code, 5);
    assert_eq!(Error::new(Reason::Internal, "m".to_string()).code, 6);
    assert_eq!(Error::new(Reason::Forbidden, "m".to_string()).code, 7);
}

#[test]
fn error_status_codes_match_reasons() {
    assert_eq!(Error::new(Reason::InvalidArgument, "m".to_string()).status_code(), 400);
    assert_eq!(Error::new(Reason::InvalidState, "m".to_string()).status_code(), 400);
    assert_eq!(Error::new(Reason::NotFound, "m".to_string()).status_code(), 404);
    assert_eq!(Error::new(Reason::RateLimit, "m".to_string()).status_code(), 400);
    assert_eq!(Error::new(Reason::External, "m".to_string()).status_code(), 500);
    assert_eq!(Error::new(Reason::Internal, "m".to_string()).status_code(), 500);
    assert_eq!(Error::new(Reason::Forbidden, "m".to_string()).status_code(), 403);
}

#[test]
fn reason_wire_names() {
    assert_eq!(Reason::InvalidArgument.text(), "ERR_INVALID_ARGUMENT");
    assert_eq!(Reason::InvalidState.text(), "ERR_INVALID_STATE");
    assert_eq!(Reason::NotFound.text(), "ERR_NOT_FOUND");
    assert_eq!(Reason::RateLimit.text(), "ERR_RATE_LIMIT");
    assert_eq!(Reason::External.text(), "ERR_EXTERNAL");
    assert_eq!(Reason::Internal.text(), "ERR_INTERNAL");
    assert_eq!(Reason::Forbidden.text(), "ERR_FORBIDDEN");
}

#[test]
fn config_lookup_by_name_and_id() {
    let config = sample_config();
    assert_eq!(config.get_lang(&"sh".to_string()).unwrap().file_name, "main.sh");
    assert!(config.get_lang(&"cobol".to_string()).is_none());
    assert_eq!(config.get_problem(5).unwrap().name, "five");
    assert!(config.get_problem(4).is_none());
    assert_eq!(get_default_address(), "127.0.0.1");
    assert_eq!(get_default_port(), 12345);
}

#[test]
fn config_checker_accepts_and_rejects() {
    let mut config = sample_config();
    assert!(config.check_wf());
    assert!(config.problems[0].check_wf());
    // A problem whose case scores overflow the score type is rejected.
    let huge = Case {
        score: u64::MAX,
        input_file: "in".to_string(),
        answer_file: "ans".to_string(),
        time_limit: 0,
        memory_limit: 0,
    };
    config.problems[0].cases.push(huge.clone());
    config.problems[0].cases.push(huge);
    assert!(!config.problems[0].check_wf());
    assert!(!config.check_wf());
}

#[test]
fn job_state_indices_are_stable() {
    assert_eq!(JobStatus::Queueing.to_index(), 0);
    assert_eq!(JobStatus::Running.to_index(), 1);
    assert_eq!(JobStatus::Finished.to_index(), 2);
    assert_eq!(JobStatus::Canceled.to_index(), 3);
    for i in 0..4 {
        assert_eq!(JobStatus::from_index(i).unwrap().to_index(), i);
    }
    assert!(JobStatus::from_index(4).is_none());
}

#[test]
fn job_result_indices_are_stable() {
    assert_eq!(JobResult::Waiting.to_index(), 0);
    assert_eq!(JobResult::Running.to_index(), 1);
    assert_eq!(JobResult::Accepted.to_index(), 2);
    assert_eq!(JobResult::CompilationError.to_index(), 3);
    assert_eq!(JobResult::CompilationSuccess.to_index(), 4);
    assert_eq!(JobResult::WrongAnswer.to_index(), 5);
    assert_eq!(JobResult::RuntimeError.to_index(), 6);
    assert_eq!(JobResult::TimeLimitExceeded.to_index(), 7);
    assert_eq!(JobResult::MemoryLimitExceeded.to_index(), 8);
    assert_eq!(JobResult::SystemError.to_index(), 9);
    assert_eq!(JobResult::SpjError.to_index(), 10);
    assert_eq!(JobResult::Skipped.to_index(), 11);
    for i in 0..12 {
        assert_eq!(JobResult::from_index(i).unwrap().to_index(), i);
    }
    assert!(JobResult::from_index(12).is_none());
}

#[test]
fn job_id_frames_round_trip() {
    for id in [0u32, 1, 255, 256, 65535, 1 << 24, u32::MAX] {
        let frame = encode_job_id(id);
        assert_eq!(frame.len(), 4);
        assert_eq!(decode_job_id(&frame), Some(id));
    }
    assert_eq!(encode_job_id(0x01020304), vec![4, 3, 2, 1]);
    assert_eq!(decode_job_id(&vec![1, 2, 3]), None);
    assert_eq!(decode_job_id(&vec![1, 2, 3, 4, 5]), None);
}
