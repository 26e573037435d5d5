//! The stored state of the verification flow: what an issued challenge
//! guards, its status and attempts, and an agent's run of failures.
use vstd::prelude::*;

verus! {

/// Earliest second representable by `chrono::DateTime<Utc>` (-262143-01-01T00:00:00Z).
pub const MIN_TIMESTAMP_SECS: i64 = -8_334_601_315_200i64;

/// Latest second representable by `chrono::DateTime<Utc>` (+262142-12-31T23:59:59Z).
pub const MAX_TIMESTAMP_SECS: i64 = 8_210_266_876_799i64;

/// A UTC instant: seconds since the Unix epoch and the nanoseconds within
/// that second.
#[derive(Clone, Copy, Debug, PartialEq, Eq, Structural)]
pub struct Timestamp {
    pub secs: i64,
    pub nanos: u32,
}

impl Timestamp {
    /// Inside the range of `chrono::DateTime<Utc>`, and not a leap second.
    pub open spec fn is_valid(self) -> bool {
        &&& MIN_TIMESTAMP_SECS <= self.secs <= MAX_TIMESTAMP_SECS
        &&& self.nanos < 1_000_000_000
    }
}

#[derive(Clone, Copy, Debug, PartialEq, Eq, Structural)]
pub enum VerificationActionKind {
    TopicCreate,
    ReplyCreate,
}

pub open spec fn action_kind_text(kind: VerificationActionKind) -> Seq<char> {
    match kind {
        VerificationActionKind::TopicCreate => "topic_create"@,
        VerificationActionKind::ReplyCreate => "reply_create"@,
    }
}

impl VerificationActionKind {
    /// The stable storage name of the action.
    pub fn as_str(self) -> (name: &'static str)
        ensures
            name@ == action_kind_text(self),
    {
        match self {
            VerificationActionKind::TopicCreate => "topic_create",
            VerificationActionKind::ReplyCreate => "reply_create",
        }
    }
}

impl Default for VerificationActionKind {
    fn default() -> (kind: Self)
        ensures
            kind == VerificationActionKind::TopicCreate,
    {
        VerificationActionKind::TopicCreate
    }
}

#[derive(Clone, Copy, Debug, PartialEq, Eq, Structural)]
pub enum VerificationChallengeStatus {
    Pending,
    Verified,
    Expired,
    Failed,
}

impl VerificationChallengeStatus {
    /// Every status but `Pending` is final.
    pub fn is_terminal(self) -> (terminal: bool)
        ensures
            terminal == (self != VerificationChallengeStatus::Pending),
    {
        match self {
            VerificationChallengeStatus::Pending => false,
            _ => true,
        }
    }
}

impl Default for VerificationChallengeStatus {
    fn default() -> (status: Self)
        ensures
            status == VerificationChallengeStatus::Pending,
    {
        VerificationChallengeStatus::Pending
    }
}

#[verifier::external_type_specification]
#[verifier::external_body]
pub struct ExJsonValue(serde_json::Value);

/// An issued challenge and the action it guards.
///
/// The stored payload is a `serde_json::Value`, a type Verus only knows by
/// name: it has no specified `clone` and no specified `default`, so the
/// record derives neither `Clone` nor `Default` (the stored record is
/// updated in place through `&mut`, and a new one is made by
/// `issue_challenge`).
#[derive(Debug)]
pub struct VerificationChallengeRecord {
    pub id: i64,
    pub verification_code: String,
    pub agent_subject: String,
    pub action_kind: VerificationActionKind,
    pub payload_json: serde_json::Value,
    pub challenge_text: String,
    pub expected_answer: String,
    pub generator_version: String,
    pub generator_seed: i64,
    pub status: VerificationChallengeStatus,
    pub attempt_count: i64,
    pub max_attempts: i64,
    pub expires_at: Timestamp,
    pub verified_at: Option<Timestamp>,
    pub created_at: Timestamp,
}

/// An agent's current run of consecutive failed verifications.
#[derive(Clone, Debug)]
pub struct VerificationFailureStreak {
    pub agent_subject: String,
    pub consecutive_failures: i64,
    pub last_failure_at: Option<Timestamp>,
    pub last_success_at: Option<Timestamp>,
}

impl Default for VerificationFailureStreak {
    fn default() -> (streak: Self)
        ensures
            streak.agent_subject@ == Seq::<char>::empty(),
            streak.consecutive_failures == 0,
            streak.last_failure_at == None::<Timestamp>,
            streak.last_success_at == None::<Timestamp>,
    {
        VerificationFailureStreak {
            agent_subject: String::new(),
            consecutive_failures: 0,
            last_failure_at: None,
            last_success_at: None,
        }
    }
}

/// The record after one failed attempt: a final challenge is left as it
/// was; a pending one counts the attempt and fails once the count reaches
/// the maximum.
pub open spec fn after_failed_attempt(c: VerificationChallengeRecord) -> VerificationChallengeRecord {
    if c.status != VerificationChallengeStatus::Pending {
        c
    } else {
        VerificationChallengeRecord {
            attempt_count: (c.attempt_count + 1) as i64,
            status: if c.attempt_count + 1 >= c.max_attempts {
                VerificationChallengeStatus::Failed
            } else {
                VerificationChallengeStatus::Pending
            },
            ..c
        }
    }
}

pub fn record_failed_attempt(challenge: &mut VerificationChallengeRecord)
    requires
        old(challenge).status == VerificationChallengeStatus::Pending ==> old(
            challenge,
        ).attempt_count < i64::MAX,
    ensures
        *final(challenge) == after_failed_attempt(*old(challenge)),
{
    if challenge.status.is_terminal() {
        return;
    }
    challenge.attempt_count = challenge.attempt_count + 1;
    if challenge.attempt_count >= challenge.max_attempts {
        challenge.status = VerificationChallengeStatus::Failed;
    }
}

pub fn reset_failure_streak(streak: &mut VerificationFailureStreak, now: Timestamp)
    ensures
        final(streak).agent_subject == old(streak).agent_subject,
        final(streak).consecutive_failures == 0,
        final(streak).last_failure_at == None::<Timestamp>,
        final(streak).last_success_at == Some(now),
{
    streak.consecutive_failures = 0;
    streak.last_failure_at = None;
    streak.last_success_at = Some(now);
}

/// A final challenge never changes on a failed attempt, and a failed attempt
/// never turns a challenge `Verified` or `Expired`, nor lowers its count.
pub proof fn lemma_failed_attempt_keeps_final(c: VerificationChallengeRecord)
    ensures
        c.status != VerificationChallengeStatus::Pending ==> after_failed_attempt(c) == c,
        after_failed_attempt(c).status == VerificationChallengeStatus::Pending
            || after_failed_attempt(c).status == VerificationChallengeStatus::Failed
            || after_failed_attempt(c).status == c.status,
        c.status == VerificationChallengeStatus::Pending && c.attempt_count < i64::MAX
            ==> after_failed_attempt(c).attempt_count == c.attempt_count + 1,
{
}

/// The record after `n` failed attempts in a row.
pub open spec fn after_failed_attempts(c: VerificationChallengeRecord, n: nat) -> VerificationChallengeRecord
    decreases n,
{
    if n == 0 {
        c
    } else {
        after_failed_attempt(after_failed_attempts(c, (n - 1) as nat))
    }
}

/// Starting from no attempts, a pending challenge with `max_attempts >= 1`
/// stays pending and counts each failed attempt until the `max_attempts`-th,
/// which makes it `Failed`; it then stays `Failed` with that count.
pub proof fn lemma_fails_at_max_attempts(c: VerificationChallengeRecord, n: nat)
    requires
        c.status == VerificationChallengeStatus::Pending,
        c.attempt_count == 0,
        1 <= c.max_attempts,
    ensures
        after_failed_attempts(c, n).max_attempts == c.max_attempts,
        n < c.max_attempts ==> after_failed_attempts(c, n).status
            == VerificationChallengeStatus::Pending && after_failed_attempts(c, n).attempt_count
            == n,
        n >= c.max_attempts ==> after_failed_attempts(c, n).status
            == VerificationChallengeStatus::Failed && after_failed_attempts(c, n).attempt_count
            == c.max_attempts,
    decreases n,
{
    if n > 0 {
        lemma_fails_at_max_attempts(c, (n - 1) as nat);
        let prev = after_failed_attempts(c, (n - 1) as nat);
        assert(after_failed_attempts(c, n) == after_failed_attempt(prev));
        if n - 1 < c.max_attempts {
            assert(prev.attempt_count == n - 1);
            assert(prev.attempt_count + 1 <= i64::MAX);
            assert(after_failed_attempt(prev).attempt_count == n);
        }
    }
}

} // verus!
