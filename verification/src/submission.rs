//! The life of a challenge after it is issued: opening it for an agent,
//! judging a submitted answer, and what every refusal and every success does
//! to the challenge and to the agent's run of failures.
//!
//! A submission is answered by its HTTP status: `404` when no challenge has
//! the code, `403` when it belongs to another agent, `410` when it has
//! expired, `409` when it is already verified or failed, `400` for a wrong
//! answer. A wrong answer, a submission to a verified or failed challenge,
//! and the submission that first finds a challenge expired are failed
//! verifications: each lengthens the agent's run of failures, and the tenth
//! failure in a row, and each one after it, brings the automatic 24-hour
//! posting ban. A right answer is judged together with the outcome of
//! re-checking the guarded action (the caller re-checks scope, board access
//! and, for a reply, the topic's board): when the action may still be
//! carried out, the pending challenge is consumed at once (so it is accepted
//! at most once), the run of failures is cleared and the caller is told
//! which action to carry out; when it may not, the action's refusal is
//! returned and nothing is consumed or counted.
use vstd::prelude::*;
use crate::ban::{auto_ban_rule, auto_ban_seconds, is_auto_ban_for, seconds_after, BanRule};
use crate::challenge::GeneratedChallenge;
use crate::error::ForumError;
use crate::handler::ActionRefusal;
use crate::records::{
    after_failed_attempt, record_failed_attempt, reset_failure_streak, Timestamp,
    VerificationActionKind, VerificationChallengeRecord, VerificationChallengeStatus,
    VerificationFailureStreak, MAX_TIMESTAMP_SECS,
};
use crate::text::{chars_equal, chars_of};
use crate::tokens::{trim_chars, trim_ws};

verus! {

/// Attempts a challenge allows.
pub const MAX_ATTEMPTS: i64 = 3;

/// Seconds a topic or reply challenge stays open.
pub const CHALLENGE_LIFETIME_SECS: i64 = 300;

/// Consecutive failures at which the automatic ban is issued.
pub const AUTO_BAN_THRESHOLD: i64 = 10;

/// `a` is strictly earlier than `b`.
pub open spec fn earlier(a: Timestamp, b: Timestamp) -> bool {
    a.secs < b.secs || (a.secs == b.secs && a.nanos < b.nanos)
}

fn is_earlier(a: Timestamp, b: Timestamp) -> (r: bool)
    ensures
        r == earlier(a, b),
{
    a.secs < b.secs || (a.secs == b.secs && a.nanos < b.nanos)
}

/// A new challenge for `agent_subject`, guarding `action_kind` with its
/// payload: pending, with no attempt made out of three, open for five
/// minutes from `now`.
pub fn issue_challenge(
    id: i64,
    verification_code: String,
    agent_subject: String,
    action_kind: VerificationActionKind,
    payload_json: serde_json::Value,
    generated: GeneratedChallenge,
    now: Timestamp,
) -> (c: VerificationChallengeRecord)
    requires
        now.is_valid(),
        now.secs + CHALLENGE_LIFETIME_SECS <= MAX_TIMESTAMP_SECS,
    ensures
        c.id == id,
        c.verification_code == verification_code,
        c.agent_subject == agent_subject,
        c.action_kind == action_kind,
        c.payload_json == payload_json,
        c.challenge_text == generated.challenge_text,
        c.expected_answer == generated.expected_answer,
        c.generator_version == generated.generator_version,
        c.generator_seed == generated.generator_seed,
        c.status == VerificationChallengeStatus::Pending,
        c.attempt_count == 0,
        c.max_attempts == MAX_ATTEMPTS,
        c.expires_at == (Timestamp {
            secs: (now.secs + CHALLENGE_LIFETIME_SECS) as i64,
            nanos: now.nanos,
        }),
        c.verified_at == None::<Timestamp>,
        c.created_at == now,
{
    let expires_at = seconds_after(now, CHALLENGE_LIFETIME_SECS);
    VerificationChallengeRecord {
        id,
        verification_code,
        agent_subject,
        action_kind,
        payload_json,
        challenge_text: generated.challenge_text,
        expected_answer: generated.expected_answer,
        generator_version: generated.generator_version,
        generator_seed: generated.generator_seed,
        status: VerificationChallengeStatus::Pending,
        attempt_count: 0,
        max_attempts: MAX_ATTEMPTS,
        expires_at,
        verified_at: None,
        created_at: now,
    }
}

/// Why a submission is refused.
#[derive(Clone, Copy, Debug, PartialEq, Eq, Structural)]
pub enum SubmissionRefusal {
    /// No challenge has the submitted code.
    NotFound,
    /// The challenge belongs to another agent.
    Forbidden,
    /// The challenge has expired.
    Gone,
    /// The challenge is already verified or failed.
    Conflict,
    /// The answer is not the expected one.
    WrongAnswer,
}

pub open spec fn refusal_status(r: SubmissionRefusal) -> u16 {
    match r {
        SubmissionRefusal::NotFound => 404,
        SubmissionRefusal::Forbidden => 403,
        SubmissionRefusal::Gone => 410,
        SubmissionRefusal::Conflict => 409,
        SubmissionRefusal::WrongAnswer => 400,
    }
}

impl SubmissionRefusal {
    /// The HTTP status the refusal is answered with.
    pub fn status_code(self) -> (code: u16)
        ensures
            code == refusal_status(self),
    {
        match self {
            SubmissionRefusal::NotFound => 404,
            SubmissionRefusal::Forbidden => 403,
            SubmissionRefusal::Gone => 410,
            SubmissionRefusal::Conflict => 409,
            SubmissionRefusal::WrongAnswer => 400,
        }
    }
}

/// How a submission of `answer` by `subject` at `now` to challenge `c` is
/// refused, if it is: ownership first, then expiry, then state, then the
/// answer, which is compared without surrounding white space.
pub open spec fn refusal_of(
    c: VerificationChallengeRecord,
    subject: Seq<char>,
    answer: Seq<char>,
    now: Timestamp,
) -> Option<SubmissionRefusal> {
    if c.agent_subject@ != subject {
        Some(SubmissionRefusal::Forbidden)
    } else if c.status == VerificationChallengeStatus::Expired || (c.status
        == VerificationChallengeStatus::Pending && earlier(c.expires_at, now)) {
        Some(SubmissionRefusal::Gone)
    } else if c.status != VerificationChallengeStatus::Pending {
        Some(SubmissionRefusal::Conflict)
    } else if trim_ws(answer) != c.expected_answer@ {
        Some(SubmissionRefusal::WrongAnswer)
    } else {
        None
    }
}

/// The challenge after such a submission, where `authorized` says whether
/// the guarded action may still be carried out: an accepted answer to an
/// authorized action consumes it (verified at `now`), a pending one found
/// expired is marked expired, a wrong answer counts as an attempt, anything
/// else (a refused action among it) leaves it as it was.
pub open spec fn record_after_submission(
    c: VerificationChallengeRecord,
    subject: Seq<char>,
    answer: Seq<char>,
    now: Timestamp,
    authorized: bool,
) -> VerificationChallengeRecord {
    match refusal_of(c, subject, answer, now) {
        None => if authorized {
            VerificationChallengeRecord {
                status: VerificationChallengeStatus::Verified,
                verified_at: Some(now),
                ..c
            }
        } else {
            c
        },
        Some(SubmissionRefusal::Gone) => VerificationChallengeRecord {
            status: VerificationChallengeStatus::Expired,
            ..c
        },
        Some(SubmissionRefusal::WrongAnswer) => after_failed_attempt(c),
        _ => c,
    }
}

/// Whether the submission is a failed verification: a wrong answer, a
/// submission to a verified or failed challenge, or the submission that
/// first finds a pending challenge expired. A challenge already marked
/// expired, another agent's challenge and a missing one count nothing.
pub open spec fn counts_as_failure(
    c: VerificationChallengeRecord,
    subject: Seq<char>,
    answer: Seq<char>,
    now: Timestamp,
) -> bool {
    match refusal_of(c, subject, answer, now) {
        Some(SubmissionRefusal::WrongAnswer) => true,
        Some(SubmissionRefusal::Conflict) => true,
        Some(SubmissionRefusal::Gone) => c.status == VerificationChallengeStatus::Pending,
        _ => false,
    }
}

/// The run of failures after one more failure at `now`.
pub open spec fn streak_after_failure(s: VerificationFailureStreak, now: Timestamp) -> VerificationFailureStreak {
    VerificationFailureStreak {
        consecutive_failures: (s.consecutive_failures + 1) as i64,
        last_failure_at: Some(now),
        ..s
    }
}

/// The run of failures after a success at `now`: cleared.
pub open spec fn streak_after_success(s: VerificationFailureStreak, now: Timestamp) -> VerificationFailureStreak {
    VerificationFailureStreak {
        consecutive_failures: 0,
        last_failure_at: None,
        last_success_at: Some(now),
        ..s
    }
}

/// A refused submission: refused by the challenge flow, with the automatic
/// ban to store when this failure reached the threshold; or, after a right
/// answer, refused because the guarded action may no longer be carried out.
#[derive(Clone, Debug)]
pub enum SubmissionFailure {
    Refused { refusal: SubmissionRefusal, ban: Option<Result<BanRule, ForumError>> },
    ActionRefused { refusal: ActionRefusal },
}

impl SubmissionFailure {
    /// The HTTP status the failure is answered with.
    pub fn status_code(&self) -> (code: u16)
        ensures
            match self {
                SubmissionFailure::Refused { refusal, .. } => code == refusal_status(*refusal),
                SubmissionFailure::ActionRefused { refusal } => code == refusal.status,
            },
    {
        match self {
            SubmissionFailure::Refused { refusal, .. } => refusal.status_code(),
            SubmissionFailure::ActionRefused { refusal } => refusal.status,
        }
    }
}

/// The failure is the flow's refusal `x`.
pub open spec fn refused_as(res: Result<VerificationActionKind, SubmissionFailure>, x: SubmissionRefusal) -> bool {
    res matches Err(SubmissionFailure::Refused { refusal, .. }) && refusal == x
}

/// The failure is a refusal of the flow that carries no ban.
pub open spec fn refused_without_ban(res: Result<VerificationActionKind, SubmissionFailure>) -> bool {
    res matches Err(SubmissionFailure::Refused { ban, .. }) && ban is None
}

/// The failure is a refusal of the flow carrying the automatic ban for
/// `subject` at `now`.
pub open spec fn refused_with_ban(
    res: Result<VerificationActionKind, SubmissionFailure>,
    subject: Seq<char>,
    now: Timestamp,
    subject_is_ip: bool,
) -> bool {
    res matches Err(SubmissionFailure::Refused { ban, .. }) && ban matches Some(b)
        && is_auto_ban_for(b, subject, now, subject_is_ip)
}

/// What a submission to the loaded challenge `c` may assume: room for one
/// more attempt and one more failure, and, when the failure brings the
/// ban, an instant 24 hours before the end of chrono's range.
pub open spec fn submission_allowed(
    c: VerificationChallengeRecord,
    s: VerificationFailureStreak,
    subject: Seq<char>,
    answer: Seq<char>,
    now: Timestamp,
) -> bool {
    &&& refusal_of(c, subject, answer, now) == Some(SubmissionRefusal::WrongAnswer)
        ==> c.attempt_count < i64::MAX
    &&& counts_as_failure(c, subject, answer, now) ==> {
        &&& s.consecutive_failures < i64::MAX
        &&& s.consecutive_failures + 1 >= AUTO_BAN_THRESHOLD ==> now.is_valid() && now.secs
            + auto_ban_seconds() <= MAX_TIMESTAMP_SECS
    }
}

/// The answer to a submission to the loaded challenge `c`, given the
/// outcome `authorization` of re-checking its guarded action, and the run
/// of failures after it: on an accepted answer, the action (and the run
/// cleared) when it is authorized, else the action's refusal (and the run
/// unchanged); otherwise the flow's refusal: a failed verification
/// lengthens the run and, from the threshold on, carries the automatic ban;
/// any other refusal leaves the run alone and carries no ban.
pub open spec fn submission_answered(
    c: VerificationChallengeRecord,
    before: VerificationFailureStreak,
    after: VerificationFailureStreak,
    subject: Seq<char>,
    answer: Seq<char>,
    now: Timestamp,
    subject_is_ip: bool,
    authorization: Result<(), ActionRefusal>,
    res: Result<VerificationActionKind, SubmissionFailure>,
) -> bool {
    let r = refusal_of(c, subject, answer, now);
    let counted = counts_as_failure(c, subject, answer, now);
    &&& r is None && authorization is Ok ==> (res matches Ok(kind) && kind == c.action_kind
        && after == streak_after_success(before, now))
    &&& r is None ==> (authorization matches Err(e) ==> (res matches Err(
        SubmissionFailure::ActionRefused { refusal },
    ) && refusal == e && after == before))
    &&& r matches Some(x) ==> refused_as(res, x)
    &&& r is Some && !counted ==> (after == before && refused_without_ban(res))
    &&& counted ==> after == streak_after_failure(before, now)
    &&& counted && after.consecutive_failures >= AUTO_BAN_THRESHOLD ==> refused_with_ban(
        res,
        subject,
        now,
        subject_is_ip,
    )
    &&& counted && after.consecutive_failures < AUTO_BAN_THRESHOLD ==> refused_without_ban(res)
}

/// How a submission to `challenge` is refused, if it is (`refusal_of`).
pub fn refusal_for(
    challenge: &VerificationChallengeRecord,
    subject: &str,
    answer: &str,
    now: Timestamp,
) -> (r: Option<SubmissionRefusal>)
    ensures
        r == refusal_of(*challenge, subject@, answer@, now),
{
    let owner = chars_of(challenge.agent_subject.as_str());
    let who = chars_of(subject);
    if !chars_equal(&owner, &who) {
        return Some(SubmissionRefusal::Forbidden);
    }
    if challenge.status == VerificationChallengeStatus::Expired || (challenge.status
        == VerificationChallengeStatus::Pending && is_earlier(challenge.expires_at, now)) {
        return Some(SubmissionRefusal::Gone);
    }
    if challenge.status != VerificationChallengeStatus::Pending {
        return Some(SubmissionRefusal::Conflict);
    }
    let given = trim_chars(&chars_of(answer));
    let expected = chars_of(challenge.expected_answer.as_str());
    if !chars_equal(&given, &expected) {
        return Some(SubmissionRefusal::WrongAnswer);
    }
    None
}

/// Whether a submission to `challenge` is a failed verification
/// (`counts_as_failure`).
pub fn counts_failure(
    challenge: &VerificationChallengeRecord,
    subject: &str,
    answer: &str,
    now: Timestamp,
) -> (counted: bool)
    ensures
        counted == counts_as_failure(*challenge, subject@, answer@, now),
{
    match refusal_for(challenge, subject, answer, now) {
        Some(SubmissionRefusal::WrongAnswer) => true,
        Some(SubmissionRefusal::Conflict) => true,
        Some(SubmissionRefusal::Gone) => challenge.status == VerificationChallengeStatus::Pending,
        _ => false,
    }
}

/// Counts one failed verification for `subject` at `now`.
fn record_failure(
    streak: &mut VerificationFailureStreak,
    refusal: SubmissionRefusal,
    subject: &str,
    now: Timestamp,
    subject_is_ip: bool,
) -> (f: SubmissionFailure)
    requires
        old(streak).consecutive_failures < i64::MAX,
        old(streak).consecutive_failures + 1 >= AUTO_BAN_THRESHOLD ==> now.is_valid() && now.secs
            + auto_ban_seconds() <= MAX_TIMESTAMP_SECS,
    ensures
        *final(streak) == streak_after_failure(*old(streak), now),
        f matches SubmissionFailure::Refused { refusal: x, ban } && x == refusal && {
            &&& final(streak).consecutive_failures >= AUTO_BAN_THRESHOLD ==> (ban matches Some(b)
                && is_auto_ban_for(b, subject@, now, subject_is_ip))
            &&& final(streak).consecutive_failures < AUTO_BAN_THRESHOLD ==> ban is None
        },
{
    streak.consecutive_failures = streak.consecutive_failures + 1;
    streak.last_failure_at = Some(now);
    let ban = if streak.consecutive_failures >= AUTO_BAN_THRESHOLD {
        Some(auto_ban_rule(subject, now, subject_is_ip))
    } else {
        None
    };
    SubmissionFailure::Refused { refusal, ban }
}

/// Judges the answer `answer` that `subject` submits at `now` to the loaded
/// `challenge`, given the agent's run of failures and the outcome
/// `authorization` of re-checking the guarded action; `subject_is_ip` says
/// whether the subject without surrounding white space parses as an IP
/// address (for the target of a ban). The challenge is live up to and
/// including the instant `expires_at`, and expired strictly after it. A
/// right answer to an action that may still be carried out consumes the
/// pending challenge at once, so it is accepted at most once, clears the
/// run of failures, and returns the action to carry out; a right answer to
/// an action that may not returns the action's refusal and changes nothing.
pub fn submit_verification(
    challenge: &mut VerificationChallengeRecord,
    streak: &mut VerificationFailureStreak,
    subject: &str,
    answer: &str,
    now: Timestamp,
    subject_is_ip: bool,
    authorization: Result<(), ActionRefusal>,
) -> (res: Result<VerificationActionKind, SubmissionFailure>)
    requires
        submission_allowed(*old(challenge), *old(streak), subject@, answer@, now),
    ensures
        *final(challenge) == record_after_submission(
            *old(challenge),
            subject@,
            answer@,
            now,
            authorization is Ok,
        ),
        submission_answered(
            *old(challenge),
            *old(streak),
            *final(streak),
            subject@,
            answer@,
            now,
            subject_is_ip,
            authorization,
            res,
        ),
{
    match refusal_for(challenge, subject, answer, now) {
        None => match authorization {
            Ok(()) => {
                challenge.status = VerificationChallengeStatus::Verified;
                challenge.verified_at = Some(now);
                reset_failure_streak(streak, now);
                Ok(challenge.action_kind)
            },
            Err(e) => Err(SubmissionFailure::ActionRefused { refusal: e }),
        },
        Some(SubmissionRefusal::Gone) => {
            if challenge.status == VerificationChallengeStatus::Pending {
                challenge.status = VerificationChallengeStatus::Expired;
                Err(record_failure(streak, SubmissionRefusal::Gone, subject, now, subject_is_ip))
            } else {
                Err(SubmissionFailure::Refused { refusal: SubmissionRefusal::Gone, ban: None })
            }
        },
        Some(SubmissionRefusal::WrongAnswer) => {
            record_failed_attempt(challenge);
            Err(record_failure(streak, SubmissionRefusal::WrongAnswer, subject, now, subject_is_ip))
        },
        Some(SubmissionRefusal::Conflict) => {
            Err(record_failure(streak, SubmissionRefusal::Conflict, subject, now, subject_is_ip))
        },
        Some(refusal) => Err(SubmissionFailure::Refused { refusal, ban: None }),
    }
}

/// Judges a submission given what looking up its code found: when no
/// challenge has the code, the answer is `404` and nothing is counted or
/// created; otherwise the found challenge is judged as by
/// `submit_verification` and handed back as it is afterwards, to be stored.
pub fn submit_by_code(
    found: Option<VerificationChallengeRecord>,
    streak: &mut VerificationFailureStreak,
    subject: &str,
    answer: &str,
    now: Timestamp,
    subject_is_ip: bool,
    authorization: Result<(), ActionRefusal>,
) -> (res: (Option<VerificationChallengeRecord>, Result<VerificationActionKind, SubmissionFailure>))
    requires
        found matches Some(c) ==> submission_allowed(c, *old(streak), subject@, answer@, now),
    ensures
        found is None ==> {
            &&& res.0 is None
            &&& refused_as(res.1, SubmissionRefusal::NotFound)
            &&& refused_without_ban(res.1)
            &&& *final(streak) == *old(streak)
        },
        found matches Some(c) ==> {
            &&& res.0 == Some(
                record_after_submission(c, subject@, answer@, now, authorization is Ok),
            )
            &&& submission_answered(
                c,
                *old(streak),
                *final(streak),
                subject@,
                answer@,
                now,
                subject_is_ip,
                authorization,
                res.1,
            )
        },
{
    match found {
        None => (
            None,
            Err(SubmissionFailure::Refused { refusal: SubmissionRefusal::NotFound, ban: None }),
        ),
        Some(c) => {
            let mut challenge = c;
            let outcome = submit_verification(
                &mut challenge,
                streak,
                subject,
                answer,
                now,
                subject_is_ip,
                authorization,
            );
            (Some(challenge), outcome)
        },
    }
}

// ---------------------------------------------------------------------------
// Laws of the flow
// ---------------------------------------------------------------------------

/// A challenge is accepted only when the submitting agent owns it, it is
/// pending, it has not expired, and the trimmed answer is the expected one.
pub proof fn lemma_accepted_only_when_open(
    c: VerificationChallengeRecord,
    subject: Seq<char>,
    answer: Seq<char>,
    now: Timestamp,
)
    ensures
        refusal_of(c, subject, answer, now) is None <==> {
            &&& c.agent_subject@ == subject
            &&& c.status == VerificationChallengeStatus::Pending
            &&& !earlier(c.expires_at, now)
            &&& trim_ws(answer) == c.expected_answer@
        },
{
}

/// A challenge that is verified, expired or failed never accepts an answer
/// and never changes on a submission; a verified one answered again by its
/// owner is a conflict.
pub proof fn lemma_settled_challenge_stays_settled(
    c: VerificationChallengeRecord,
    subject: Seq<char>,
    answer: Seq<char>,
    now: Timestamp,
    authorized: bool,
)
    requires
        c.status != VerificationChallengeStatus::Pending,
    ensures
        refusal_of(c, subject, answer, now) is Some,
        record_after_submission(c, subject, answer, now, authorized) == c,
        c.status == VerificationChallengeStatus::Verified && c.agent_subject@ == subject
            ==> refusal_of(c, subject, answer, now) == Some(SubmissionRefusal::Conflict),
{
    if c.status == VerificationChallengeStatus::Expired && c.agent_subject@ == subject {
        assert((VerificationChallengeRecord { status: VerificationChallengeStatus::Expired, ..c })
            == c);
    }
}

/// A challenge is accepted at most once: an accepted submission of an
/// authorized action leaves it verified, and every later submission to it,
/// by anyone, with any answer, at any time and whatever the action's
/// re-check, is refused (with `409` for its owner) and changes nothing.
pub proof fn lemma_at_most_one_success(
    c: VerificationChallengeRecord,
    subject: Seq<char>,
    answer: Seq<char>,
    now: Timestamp,
    later_subject: Seq<char>,
    later_answer: Seq<char>,
    later: Timestamp,
    later_authorized: bool,
)
    requires
        refusal_of(c, subject, answer, now) is None,
    ensures
        ({
            let used = record_after_submission(c, subject, answer, now, true);
            &&& used.status == VerificationChallengeStatus::Verified
            &&& used.verified_at == Some(now)
            &&& refusal_of(used, later_subject, later_answer, later) is Some
            &&& record_after_submission(used, later_subject, later_answer, later, later_authorized)
                == used
            &&& later_subject == subject ==> refusal_of(used, later_subject, later_answer, later)
                == Some(SubmissionRefusal::Conflict)
        }),
{
    let used = record_after_submission(c, subject, answer, now, true);
    lemma_settled_challenge_stays_settled(used, later_subject, later_answer, later, later_authorized);
}

/// A right answer whose action may no longer be carried out consumes and
/// counts nothing: the challenge stays pending, so it can still be answered
/// once the action is allowed again.
pub proof fn lemma_refused_action_consumes_nothing(
    c: VerificationChallengeRecord,
    subject: Seq<char>,
    answer: Seq<char>,
    now: Timestamp,
)
    requires
        refusal_of(c, subject, answer, now) is None,
    ensures
        record_after_submission(c, subject, answer, now, false) == c,
        c.status == VerificationChallengeStatus::Pending,
        !counts_as_failure(c, subject, answer, now),
{
}

/// Another agent's submission is refused with `403`, changes nothing and is
/// not counted against anyone.
pub proof fn lemma_stranger_changes_nothing(
    c: VerificationChallengeRecord,
    subject: Seq<char>,
    answer: Seq<char>,
    now: Timestamp,
    authorized: bool,
)
    requires
        c.agent_subject@ != subject,
    ensures
        refusal_of(c, subject, answer, now) == Some(SubmissionRefusal::Forbidden),
        record_after_submission(c, subject, answer, now, authorized) == c,
        !counts_as_failure(c, subject, answer, now),
{
}

/// A pending challenge submitted to after its expiry is answered `410`,
/// counted as a failure and expired from then on; a later submission to it
/// is answered `410` again but counts nothing.
pub proof fn lemma_expiry_counted_once(
    c: VerificationChallengeRecord,
    subject: Seq<char>,
    answer: Seq<char>,
    now: Timestamp,
    later_answer: Seq<char>,
    later: Timestamp,
    authorized: bool,
)
    requires
        c.agent_subject@ == subject,
        c.status == VerificationChallengeStatus::Pending,
        earlier(c.expires_at, now),
    ensures
        refusal_of(c, subject, answer, now) == Some(SubmissionRefusal::Gone),
        counts_as_failure(c, subject, answer, now),
        ({
            let expired = record_after_submission(c, subject, answer, now, authorized);
            &&& expired.status == VerificationChallengeStatus::Expired
            &&& refusal_of(expired, subject, later_answer, later) == Some(SubmissionRefusal::Gone)
            &&& !counts_as_failure(expired, subject, later_answer, later)
            &&& record_after_submission(expired, subject, later_answer, later, authorized) == expired
        }),
{
    let expired = record_after_submission(c, subject, answer, now, authorized);
    assert((VerificationChallengeRecord { status: VerificationChallengeStatus::Expired, ..expired })
        == expired);
}

/// The run of failures after `n` more failures at `now`.
pub open spec fn streak_after_failures(
    s: VerificationFailureStreak,
    n: nat,
    now: Timestamp,
) -> VerificationFailureStreak
    decreases n,
{
    if n == 0 {
        s
    } else {
        streak_after_failure(streak_after_failures(s, (n - 1) as nat, now), now)
    }
}

/// One failure brings the automatic ban exactly when the run already held
/// nine or more failures: the tenth failure in a row is the first to ban.
pub proof fn lemma_failure_bans_from_tenth(s: VerificationFailureStreak, now: Timestamp)
    requires
        s.consecutive_failures < i64::MAX,
    ensures
        streak_after_failure(s, now).consecutive_failures == s.consecutive_failures + 1,
        (streak_after_failure(s, now).consecutive_failures >= AUTO_BAN_THRESHOLD) == (
        s.consecutive_failures >= 9),
        s.consecutive_failures == 9 ==> streak_after_failure(s, now).consecutive_failures == 10,
{
}

/// From a cleared run, `n` failures in a row count `n` (as long as the
/// count fits in an `i64`), and the failure that brings the count to `n`
/// brings the automatic ban exactly when `n` is at least ten.
pub proof fn lemma_tenth_failure_bans(s: VerificationFailureStreak, n: nat, now: Timestamp)
    requires
        s.consecutive_failures == 0,
        n <= i64::MAX,
    ensures
        streak_after_failures(s, n, now).consecutive_failures == n,
        (streak_after_failures(s, n, now).consecutive_failures >= AUTO_BAN_THRESHOLD) == (n
            >= 10),
        streak_after_failures(s, n, now).agent_subject == s.agent_subject,
    decreases n,
{
    if n > 0 {
        lemma_tenth_failure_bans(s, (n - 1) as nat, now);
    }
}

} // verus!
