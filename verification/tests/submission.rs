use agent_verification::ban::{BanAffects, BanRule};
use agent_verification::error::ForumError;
use agent_verification::challenge::generate_challenge_text;
use agent_verification::handler::verification_prompt;
use agent_verification::operator::MathOperator;
use agent_verification::records::{
    Timestamp, VerificationActionKind, VerificationChallengeRecord, VerificationChallengeStatus,
    VerificationFailureStreak,
};
use agent_verification::handler::{check_reply_target, ActionRefusal, ErrorCode};
use agent_verification::submission::{
    issue_challenge, submit_by_code, submit_verification, SubmissionFailure, SubmissionRefusal,
    AUTO_BAN_THRESHOLD,
    CHALLENGE_LIFETIME_SECS, MAX_ATTEMPTS,
};
use serde_json::Value;

const NOW: Timestamp = Timestamp {
    secs: 1_776_688_496,
    nanos: 250,
};

fn at(secs: i64) -> Timestamp {
    Timestamp {
        secs: NOW.secs + secs,
        nanos: NOW.nanos,
    }
}

fn pending_challenge(subject: &str) -> VerificationChallengeRecord {
    let generated = generate_challenge_text(12, 3, MathOperator::Divide, 7).unwrap();
    issue_challenge(
        5,
        "avc_test".to_string(),
        subject.to_string(),
        VerificationActionKind::ReplyCreate,
        Value::Null,
        generated,
        NOW,
    )
}

struct Refusal {
    refusal: SubmissionRefusal,
    ban: Option<Result<BanRule, ForumError>>,
}

fn refused(failure: SubmissionFailure) -> Refusal {
    match failure {
        SubmissionFailure::Refused { refusal, ban } => Refusal { refusal, ban },
        SubmissionFailure::ActionRefused { refusal } => {
            panic!("unexpected refusal of the action: {refusal:?}")
        }
    }
}

fn streak(subject: &str, failures: i64) -> VerificationFailureStreak {
    VerificationFailureStreak {
        agent_subject: subject.to_string(),
        consecutive_failures: failures,
        last_failure_at: None,
        last_success_at: None,
    }
}

#[test]
fn issued_challenge_is_pending_for_five_minutes() {
    let challenge = pending_challenge("robot@example.com");
    assert_eq!(challenge.id, 5);
    assert_eq!(challenge.verification_code, "avc_test");
    assert_eq!(challenge.agent_subject, "robot@example.com");
    assert_eq!(challenge.action_kind, VerificationActionKind::ReplyCreate);
    assert_eq!(challenge.payload_json, Value::Null);
    assert_eq!(challenge.expected_answer, "4.00");
    assert_eq!(challenge.generator_version, "v1");
    assert_eq!(challenge.generator_seed, 7);
    assert_eq!(challenge.status, VerificationChallengeStatus::Pending);
    assert_eq!(challenge.attempt_count, 0);
    assert_eq!(challenge.max_attempts, 3);
    assert_eq!(MAX_ATTEMPTS, 3);
    assert_eq!(CHALLENGE_LIFETIME_SECS, 300);
    assert_eq!(challenge.expires_at, at(300));
    assert_eq!(challenge.verified_at, None);
    assert_eq!(challenge.created_at, NOW);
}

#[test]
fn verification_prompt_reports_attempts_remaining() {
    let prompt = verification_prompt("avc_test", "LoBStEr", "2026-04-20T12:34:56Z", 3, 1);
    assert_eq!(prompt.attempts_remaining, 2);
    assert_eq!(prompt.verification_code, "avc_test");
    assert_eq!(prompt.challenge_text, "LoBStEr");
    assert_eq!(prompt.expires_at, "2026-04-20T12:34:56Z");
    assert_eq!(prompt.instructions, "answer with exactly two decimal places");
}

#[test]
fn refusals_carry_their_http_status() {
    assert_eq!(SubmissionRefusal::NotFound.status_code(), 404);
    assert_eq!(SubmissionRefusal::Forbidden.status_code(), 403);
    assert_eq!(SubmissionRefusal::Gone.status_code(), 410);
    assert_eq!(SubmissionRefusal::Conflict.status_code(), 409);
    assert_eq!(SubmissionRefusal::WrongAnswer.status_code(), 400);
}

#[test]
fn right_answer_consumes_the_challenge() {
    let mut challenge = pending_challenge("robot@example.com");
    let mut run = streak("robot@example.com", 4);
    let outcome = submit_verification(
        &mut challenge,
        &mut run,
        "robot@example.com",
        " 4.00\n",
        at(299),
        false,
        Ok(()),
    );
    assert_eq!(outcome.unwrap(), VerificationActionKind::ReplyCreate);
    assert_eq!(challenge.status, VerificationChallengeStatus::Verified);
    assert_eq!(challenge.verified_at, Some(at(299)));
    assert_eq!(challenge.attempt_count, 0);
    assert_eq!(run.agent_subject, "robot@example.com");
    assert_eq!(run.consecutive_failures, 0);
    assert_eq!(run.last_failure_at, None);
    assert_eq!(run.last_success_at, Some(at(299)));
}

#[test]
fn a_challenge_is_accepted_at_most_once() {
    let mut challenge = pending_challenge("robot@example.com");
    let mut run = streak("robot@example.com", 0);
    assert!(submit_verification(&mut challenge, &mut run, "robot@example.com", "4.00", at(1), false, Ok(())).is_ok());
    let failure = refused(submit_verification(&mut challenge, &mut run, "robot@example.com", "4.00", at(1), false, Ok(())).unwrap_err());
    assert_eq!(failure.refusal, SubmissionRefusal::Conflict);
    assert_eq!(challenge.verified_at, Some(at(1)));
}

#[test]
fn unknown_code_is_not_found_and_counts_nothing() {
    let mut run = streak("robot@example.com", 9);
    let (stored, outcome) = submit_by_code(None, &mut run, "robot@example.com", "4.00", at(1), false, Ok(()));
    assert!(stored.is_none());
    let failure = refused(outcome.unwrap_err());
    assert_eq!(failure.refusal, SubmissionRefusal::NotFound);
    assert_eq!(failure.refusal.status_code(), 404);
    assert!(failure.ban.is_none());
    assert_eq!(run.consecutive_failures, 9);
    assert_eq!(run.last_failure_at, None);
}

#[test]
fn found_code_is_judged_and_handed_back() {
    let mut run = streak("robot@example.com", 0);
    let found = Some(pending_challenge("robot@example.com"));
    let (stored, outcome) = submit_by_code(found, &mut run, "robot@example.com", "3.00", at(1), false, Ok(()));
    assert_eq!(refused(outcome.unwrap_err()).refusal, SubmissionRefusal::WrongAnswer);
    let stored = stored.unwrap();
    assert_eq!(stored.attempt_count, 1);
    assert_eq!(run.consecutive_failures, 1);
    let (stored, outcome) = submit_by_code(Some(stored), &mut run, "robot@example.com", "4.00", at(2), false, Ok(()));
    assert_eq!(outcome.unwrap(), VerificationActionKind::ReplyCreate);
    assert_eq!(stored.unwrap().status, VerificationChallengeStatus::Verified);
    assert_eq!(run.consecutive_failures, 0);
}

#[test]
fn reply_target_must_exist_on_the_named_board() {
    assert!(check_reply_target("topics:abc", "boards:general", Some("boards:general".to_string())).is_ok());
    let refusal =
        check_reply_target("topics:abc", "boards:general", Some("boards:other".to_string())).unwrap_err();
    assert_eq!(refusal.status, 400);
    assert_eq!(refusal.code, ErrorCode::Validation);
    assert_eq!(refusal.message, "board_id does not match topic");
    assert_eq!(refusal.topic_id, "topics:abc");
    assert_eq!(refusal.board_id.as_deref(), Some("boards:general"));
    assert_eq!(refusal.expected_board_id.as_deref(), Some("boards:other"));
    let refusal = check_reply_target("topics:abc", "boards:general", None).unwrap_err();
    assert_eq!(refusal.status, 404);
    assert_eq!(refusal.code, ErrorCode::NotFound);
    assert_eq!(refusal.message, "topic not found");
    assert_eq!(refusal.topic_id, "topics:abc");
    assert_eq!(refusal.board_id, None);
    assert_eq!(refusal.expected_board_id, None);
}

#[test]
fn refused_action_consumes_nothing() {
    let mut challenge = pending_challenge("robot@example.com");
    let mut run = streak("robot@example.com", 3);
    let denied: Result<(), ActionRefusal> =
        check_reply_target("topics:abc", "boards:general", Some("boards:other".to_string()));
    let failure = submit_verification(&mut challenge, &mut run, "robot@example.com", "4.00", at(1), false, denied)
        .unwrap_err();
    assert_eq!(failure.status_code(), 400);
    match failure {
        SubmissionFailure::ActionRefused { refusal } => assert_eq!(refusal.code, ErrorCode::Validation),
        other => panic!("unexpected failure {other:?}"),
    }
    assert_eq!(challenge.status, VerificationChallengeStatus::Pending);
    assert_eq!(challenge.attempt_count, 0);
    assert_eq!(run.consecutive_failures, 3);
    assert!(submit_verification(&mut challenge, &mut run, "robot@example.com", "4.00", at(2), false, Ok(()))
        .is_ok());
    assert_eq!(challenge.status, VerificationChallengeStatus::Verified);
    let wrong = submit_verification(&mut challenge, &mut run, "robot@example.com", "4.00", at(3), false, Ok(()))
        .unwrap_err();
    assert_eq!(wrong.status_code(), 409);
}

#[test]
fn answer_at_the_expiry_instant_is_still_accepted() {
    let mut challenge = pending_challenge("robot@example.com");
    let mut run = streak("robot@example.com", 0);
    let outcome = submit_verification(&mut challenge, &mut run, "robot@example.com", "4.00", at(300), false, Ok(()));
    assert!(outcome.is_ok());
}

#[test]
fn wrong_answer_counts_an_attempt_and_a_failure() {
    let mut challenge = pending_challenge("robot@example.com");
    let mut run = streak("robot@example.com", 0);
    let failure = refused(submit_verification(&mut challenge, &mut run, "robot@example.com", "4", at(10), false, Ok(())).unwrap_err());
    assert_eq!(failure.refusal, SubmissionRefusal::WrongAnswer);
    assert!(failure.ban.is_none());
    assert_eq!(challenge.attempt_count, 1);
    assert_eq!(challenge.status, VerificationChallengeStatus::Pending);
    assert_eq!(run.consecutive_failures, 1);
    assert_eq!(run.last_failure_at, Some(at(10)));
}

#[test]
fn third_wrong_answer_fails_the_challenge_for_good() {
    let mut challenge = pending_challenge("robot@example.com");
    let mut run = streak("robot@example.com", 0);
    for attempt in 1..=3 {
        let failure = refused(submit_verification(&mut challenge, &mut run, "robot@example.com", "5.00", at(20), false, Ok(())).unwrap_err());
        assert_eq!(failure.refusal, SubmissionRefusal::WrongAnswer);
        assert_eq!(challenge.attempt_count, attempt);
    }
    assert_eq!(challenge.status, VerificationChallengeStatus::Failed);
    let failure = refused(submit_verification(&mut challenge, &mut run, "robot@example.com", "4.00", at(30), false, Ok(())).unwrap_err());
    assert_eq!(failure.refusal, SubmissionRefusal::Conflict);
    assert_eq!(challenge.attempt_count, 3);
    assert_eq!(run.consecutive_failures, 4);
}

#[test]
fn wrong_subject_is_forbidden() {
    let mut challenge = pending_challenge("robot@example.com");
    let mut run = streak("other@example.com", 2);
    let failure = refused(submit_verification(&mut challenge, &mut run, "other@example.com", "4.00", at(10), false, Ok(())).unwrap_err());
    assert_eq!(failure.refusal, SubmissionRefusal::Forbidden);
    assert_eq!(failure.refusal.status_code(), 403);
    assert!(failure.ban.is_none());
    assert_eq!(challenge.status, VerificationChallengeStatus::Pending);
    assert_eq!(challenge.attempt_count, 0);
    assert_eq!(run.consecutive_failures, 2);
}

#[test]
fn expired_challenge_maps_to_gone() {
    let mut challenge = pending_challenge("robot@example.com");
    let mut run = streak("robot@example.com", 0);
    let late = Timestamp {
        secs: NOW.secs + 300,
        nanos: NOW.nanos + 1,
    };
    let failure = refused(submit_verification(&mut challenge, &mut run, "robot@example.com", "4.00", late, false, Ok(())).unwrap_err());
    assert_eq!(failure.refusal.status_code(), 410);
    assert_eq!(challenge.status, VerificationChallengeStatus::Expired);
    assert_eq!(run.consecutive_failures, 1);
    let failure = refused(submit_verification(&mut challenge, &mut run, "robot@example.com", "4.00", at(10), false, Ok(())).unwrap_err());
    assert_eq!(failure.refusal, SubmissionRefusal::Gone);
    assert!(failure.ban.is_none());
    assert_eq!(challenge.status, VerificationChallengeStatus::Expired);
    assert_eq!(run.consecutive_failures, 1);
}

#[test]
fn verified_challenge_cannot_be_replayed() {
    let mut challenge = pending_challenge("robot@example.com");
    let mut run = streak("robot@example.com", 0);
    assert!(submit_verification(&mut challenge, &mut run, "robot@example.com", "4.00", at(1), false, Ok(())).is_ok());
    let failure = refused(submit_verification(&mut challenge, &mut run, "robot@example.com", "4.00", at(2), false, Ok(())).unwrap_err());
    assert_eq!(failure.refusal.status_code(), 409);
    assert_eq!(challenge.status, VerificationChallengeStatus::Verified);
    assert_eq!(challenge.verified_at, Some(at(1)));
    assert_eq!(run.consecutive_failures, 1);
}

#[test]
fn tenth_consecutive_failure_bans_posting_for_a_day() {
    assert_eq!(AUTO_BAN_THRESHOLD, 10);
    let mut run = streak("agent:robot@example.com", 0);
    for failures in 1..=11 {
        let mut challenge = pending_challenge("agent:robot@example.com");
        let failure = refused(submit_verification(
            &mut challenge,
            &mut run,
            "agent:robot@example.com",
            "wrong",
            at(5),
            false,
            Ok(()),
        ).unwrap_err());
        assert_eq!(run.consecutive_failures, failures);
        if failures < 10 {
            assert!(failure.ban.is_none());
        } else {
            let rule = failure.ban.unwrap().unwrap();
            assert!(rule.cannot_post);
            assert!(!rule.cannot_access);
            assert_eq!(rule.expires_at, Some(at(5 + 24 * 3600)));
            assert!(matches!(
                &rule.conditions[0].affects,
                BanAffects::Email { value } if value == "robot@example.com"
            ));
        }
    }
}

#[test]
fn ban_for_an_untargetable_subject_reports_the_error() {
    let mut run = streak("agent:demo", 9);
    let mut challenge = pending_challenge("agent:demo");
    let failure = refused(submit_verification(&mut challenge, &mut run, "agent:demo", "0.00", at(5), false, Ok(())).unwrap_err());
    assert!(failure.ban.unwrap().is_err());
}
