use agent_verification::ban::{auto_ban_rule, BanAffects};
use agent_verification::challenge::generate_challenge_text;
use agent_verification::error::ForumError;
use agent_verification::obfuscate::apply_repetition;
use agent_verification::operator::MathOperator;
use agent_verification::records::{
    record_failed_attempt, reset_failure_streak, Timestamp, VerificationActionKind,
    VerificationChallengeRecord, VerificationChallengeStatus, VerificationFailureStreak,
};
use agent_verification::rng::DeterministicRng;
use chrono::{DateTime, Duration, Utc};
use serde_json::Value;

// Whether a subject, trimmed, parses as an IP address is decided by the
// caller (`std::net::IpAddr`); each test states it for its subject.

fn timestamp(at: DateTime<Utc>) -> Timestamp {
    Timestamp {
        secs: at.timestamp(),
        nanos: at.timestamp_subsec_nanos(),
    }
}

#[test]
fn verification_action_kind_as_str_is_stable() {
    assert_eq!(VerificationActionKind::TopicCreate.as_str(), "topic_create");
    assert_eq!(VerificationActionKind::ReplyCreate.as_str(), "reply_create");
}

#[test]
fn verification_challenge_status_is_terminal() {
    assert!(!VerificationChallengeStatus::Pending.is_terminal());
    assert!(VerificationChallengeStatus::Verified.is_terminal());
    assert!(VerificationChallengeStatus::Expired.is_terminal());
    assert!(VerificationChallengeStatus::Failed.is_terminal());
}

#[test]
fn generator_uses_word_numbers_not_digits() {
    let generated = generate_challenge_text(12, 3, MathOperator::Divide, 7).unwrap();

    assert_eq!(generated.expected_answer, "4.00");
    let normalized = generated
        .challenge_text
        .to_ascii_lowercase()
        .replace('-', " ");
    assert!(normalized.contains("split"));
    assert!(!generated
        .challenge_text
        .chars()
        .any(|ch| ch.is_ascii_digit()));
}

#[test]
fn verify_success_resets_failure_streak() {
    let now = Utc::now();
    let mut streak = VerificationFailureStreak {
        agent_subject: "agent:test@example.com".into(),
        consecutive_failures: 2,
        last_failure_at: Some(timestamp(now - Duration::minutes(5))),
        last_success_at: None,
    };

    reset_failure_streak(&mut streak, timestamp(now));

    assert_eq!(streak.agent_subject, "agent:test@example.com");
    assert_eq!(streak.consecutive_failures, 0);
    assert_eq!(streak.last_failure_at, None);
    assert_eq!(streak.last_success_at, Some(timestamp(now)));
}

#[test]
fn record_failure_marks_terminal_after_max_attempts() {
    let now = Utc::now();
    let mut challenge = VerificationChallengeRecord {
        id: 9,
        verification_code: "verify-123".into(),
        agent_subject: "robot@example.com".into(),
        action_kind: VerificationActionKind::ReplyCreate,
        payload_json: Value::Null,
        challenge_text: "two plus two".into(),
        expected_answer: "4.00".into(),
        generator_version: "v1".into(),
        generator_seed: 11,
        status: VerificationChallengeStatus::Pending,
        attempt_count: 2,
        max_attempts: 3,
        expires_at: timestamp(now + Duration::minutes(10)),
        verified_at: None,
        created_at: timestamp(now - Duration::minutes(1)),
    };

    record_failed_attempt(&mut challenge);

    assert_eq!(challenge.attempt_count, 3);
    assert_eq!(challenge.status, VerificationChallengeStatus::Failed);

    let ban = auto_ban_rule(
        "robot@example.com",
        timestamp(now),
        false,
    )
    .unwrap();
    assert!(ban.cannot_post);
    assert!(!ban.cannot_access);
    assert_eq!(ban.expires_at, Some(timestamp(now + Duration::hours(24))));
    assert_eq!(ban.conditions.len(), 1);
    assert_eq!(
        ban.conditions[0].expires_at,
        Some(timestamp(now + Duration::hours(24)))
    );
    assert!(matches!(
        &ban.conditions[0].affects,
        BanAffects::Email { value } if value == "robot@example.com"
    ));
}

#[test]
fn generator_uses_combined_keyword_flavor() {
    let generated = generate_challenge_text(7, 5, MathOperator::Add, 1).unwrap();

    let normalized = generated
        .challenge_text
        .to_ascii_lowercase()
        .replace('-', " ");
    assert!(normalized.contains("combined"));
}

#[test]
fn auto_ban_rule_extracts_email_suffix_from_agent_subject() {
    let now = timestamp(Utc::now());
    let subject = "agent:test@example.com";
    const IP_SUBJECT: bool = false;
    let ban = auto_ban_rule(subject, now, IP_SUBJECT).unwrap();

    assert!(matches!(
        &ban.conditions[0].affects,
        BanAffects::Email { value } if value == "test@example.com"
    ));
}

#[test]
fn auto_ban_rule_maps_numeric_suffix_to_account_target() {
    let now = timestamp(Utc::now());
    let subject = "user:42";
    const IP_SUBJECT: bool = false;
    let ban = auto_ban_rule(subject, now, IP_SUBJECT).unwrap();

    assert!(matches!(
        &ban.conditions[0].affects,
        BanAffects::Account { member_id } if member_id == &42
    ));
}

#[test]
fn auto_ban_rule_maps_ip_subject_to_ip_target() {
    let now = timestamp(Utc::now());
    let subject = "192.168.1.24";
    const IP_SUBJECT: bool = true;
    let ban = auto_ban_rule(subject, now, IP_SUBJECT).unwrap();

    assert!(matches!(
        &ban.conditions[0].affects,
        BanAffects::Ip { value } if value == "192.168.1.24"
    ));
}

#[test]
fn auto_ban_rule_maps_ipv6_subject_to_ip_target() {
    let now = timestamp(Utc::now());
    let subject = "2001:db8::1";
    const IP_SUBJECT: bool = true;
    let ban = auto_ban_rule(subject, now, IP_SUBJECT).unwrap();

    assert!(matches!(
        &ban.conditions[0].affects,
        BanAffects::Ip { value } if value == "2001:db8::1"
    ));
}

#[test]
fn auto_ban_rule_rejects_generic_subject() {
    let now = timestamp(Utc::now());
    let subject = "agent:demo";
    const IP_SUBJECT: bool = false;
    let error = auto_ban_rule(subject, now, IP_SUBJECT).unwrap_err();

    assert!(matches!(
        error,
        ForumError::Validation(message)
            if message == "verification_ban_subject_not_targetable"
    ));
}

#[test]
fn repetition_stays_within_single_token() {
    let mut rng = DeterministicRng::new(9);
    let repeated = apply_repetition("shells", &mut rng);

    assert!(!repeated.contains(' '));
    assert!(!repeated.contains('-'));
    assert!(repeated.len() > "shells".len());
}

#[test]
fn division_rejects_non_terminating_two_decimal_answers() {
    let error = generate_challenge_text(1, 3, MathOperator::Divide, 4).unwrap_err();

    assert!(matches!(
        error,
        ForumError::Validation(message)
            if message == "verification_division_not_exact_two_decimals"
    ));
}
