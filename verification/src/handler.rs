//! The verify endpoint's payloads, the scopes under which an agent may
//! submit an answer and have the guarded action carried out, and the check
//! that a verified reply's topic exists on the board it names.
use vstd::prelude::*;
use crate::records::VerificationActionKind;
use crate::text::{chars_equal, chars_of};

verus! {

/// The body of `POST /agent/v1/verify`.
#[derive(Clone, Debug)]
pub struct VerifyRequest {
    pub verification_code: String,
    pub answer: String,
}

/// The challenge as shown to the agent.
#[derive(Clone, Debug)]
pub struct VerificationPrompt {
    pub verification_code: String,
    pub challenge_text: String,
    pub expires_at: String,
    pub attempts_remaining: i64,
    pub instructions: String,
}

/// What the agent is told about answering.
pub open spec fn answer_instructions() -> Seq<char> {
    "answer with exactly two decimal places"@
}

/// The prompt for a challenge that has had `attempt_count` of its
/// `max_attempts` attempts.
pub fn verification_prompt(
    verification_code: &str,
    challenge_text: &str,
    expires_at: &str,
    max_attempts: i64,
    attempt_count: i64,
) -> (prompt: VerificationPrompt)
    requires
        i64::MIN <= max_attempts - attempt_count <= i64::MAX,
    ensures
        prompt.verification_code@ == verification_code@,
        prompt.challenge_text@ == challenge_text@,
        prompt.expires_at@ == expires_at@,
        prompt.attempts_remaining == max_attempts - attempt_count,
        prompt.instructions@ == answer_instructions(),
{
    VerificationPrompt {
        verification_code: String::from_str(verification_code),
        challenge_text: String::from_str(challenge_text),
        expires_at: String::from_str(expires_at),
        attempts_remaining: max_attempts - attempt_count,
        instructions: String::from_str("answer with exactly two decimal places"),
    }
}

/// The `202 Accepted` body of a write that must first be verified.
#[derive(Clone, Debug)]
pub struct VerificationRequiredData {
    pub verification_required: bool,
    pub verification: VerificationPrompt,
}

/// A scope, and the legacy permissions that stand in for it.
#[derive(Clone, Debug)]
pub struct ScopeRequirement {
    pub scope: &'static str,
    pub legacy_permissions: Vec<&'static str>,
}

impl ScopeRequirement {
    pub open spec fn texts(self) -> (Seq<char>, Seq<Seq<char>>) {
        (self.scope@, self.legacy_permissions@.map_values(|p: &'static str| p@))
    }
}

pub open spec fn topic_write_requirement() -> (Seq<char>, Seq<Seq<char>>) {
    ("forum:topic:write"@, seq!["manage_boards"@, "post_new"@])
}

pub open spec fn reply_write_requirement() -> (Seq<char>, Seq<Seq<char>>) {
    ("forum:reply:write"@, seq!["manage_boards"@, "post_reply_any"@])
}

/// Submitting an answer needs either write scope; either of the write
/// permissions stands in for both.
pub open spec fn verify_requirements() -> Seq<(Seq<char>, Seq<Seq<char>>)> {
    let legacy = seq!["manage_boards"@, "post_new"@, "post_reply_any"@];
    seq![("forum:topic:write"@, legacy), ("forum:reply:write"@, legacy)]
}

/// What the verified action needs: topic creation the topic write scope,
/// reply creation the reply write scope.
pub fn action_scope_requirement(kind: VerificationActionKind) -> (req: ScopeRequirement)
    ensures
        req.texts() == match kind {
            VerificationActionKind::TopicCreate => topic_write_requirement(),
            VerificationActionKind::ReplyCreate => reply_write_requirement(),
        },
{
    let mut legacy: Vec<&'static str> = Vec::new();
    legacy.push("manage_boards");
    match kind {
        VerificationActionKind::TopicCreate => {
            legacy.push("post_new");
            let req = ScopeRequirement { scope: "forum:topic:write", legacy_permissions: legacy };
            assert(req.texts().1 =~= topic_write_requirement().1);
            req
        },
        VerificationActionKind::ReplyCreate => {
            legacy.push("post_reply_any");
            let req = ScopeRequirement { scope: "forum:reply:write", legacy_permissions: legacy };
            assert(req.texts().1 =~= reply_write_requirement().1);
            req
        },
    }
}

/// The alternatives, tried in order, under which an answer may be submitted.
pub fn verify_scope_requirements() -> (reqs: Vec<ScopeRequirement>)
    ensures
        reqs@.map_values(|r: ScopeRequirement| r.texts()) == verify_requirements(),
{
    let mut legacy: Vec<&'static str> = Vec::new();
    legacy.push("manage_boards");
    legacy.push("post_new");
    legacy.push("post_reply_any");
    let ghost legacy_texts = legacy@.map_values(|p: &'static str| p@);
    assert(legacy_texts =~= seq!["manage_boards"@, "post_new"@, "post_reply_any"@]);
    let mut reqs: Vec<ScopeRequirement> = Vec::new();
    reqs.push(ScopeRequirement { scope: "forum:topic:write", legacy_permissions: legacy.clone() });
    reqs.push(ScopeRequirement { scope: "forum:reply:write", legacy_permissions: legacy });
    assert(reqs@.map_values(|r: ScopeRequirement| r.texts()) =~= verify_requirements());
    reqs
}

/// The error code that a refusal of a verified action carries.
#[derive(Clone, Copy, Debug, PartialEq, Eq, Structural)]
pub enum ErrorCode {
    NotFound,
    Validation,
}

/// Why a verified action is refused before it is carried out: its HTTP
/// status, error code and message, and the details an agent needs to
/// recover: the topic asked for, and on a board mismatch the board named and
/// the board the topic is on.
#[derive(Clone, Debug)]
pub struct ActionRefusal {
    pub status: u16,
    pub code: ErrorCode,
    pub message: String,
    pub topic_id: String,
    pub board_id: Option<String>,
    pub expected_board_id: Option<String>,
}

/// Before a verified reply to topic `topic_id` is written: the topic must
/// exist (`404`, `NotFound`, "topic not found", with the topic id) and lie
/// on the board the reply names (`400`, `Validation`, "board_id does not
/// match topic", with the topic id, the board named and the topic's
/// board). `topic_board_id` is the board of the topic as loaded, or `None`
/// when no topic has that id.
pub fn check_reply_target(
    topic_id: &str,
    payload_board_id: &str,
    topic_board_id: Option<String>,
) -> (r: Result<(), ActionRefusal>)
    ensures
        topic_board_id is None ==> (r matches Err(e) && {
            &&& e.status == 404
            &&& e.code == ErrorCode::NotFound
            &&& e.message@ == "topic not found"@
            &&& e.topic_id@ == topic_id@
            &&& e.board_id is None
            &&& e.expected_board_id is None
        }),
        topic_board_id matches Some(t) ==> (r is Ok <==> payload_board_id@ == t@),
        topic_board_id matches Some(t) ==> (payload_board_id@ != t@ ==> (r matches Err(e) && {
            &&& e.status == 400
            &&& e.code == ErrorCode::Validation
            &&& e.message@ == "board_id does not match topic"@
            &&& e.topic_id@ == topic_id@
            &&& e.board_id matches Some(b) && b@ == payload_board_id@
            &&& e.expected_board_id matches Some(x) && x@ == t@
        })),
{
    match topic_board_id {
        None => Err(
            ActionRefusal {
                status: 404,
                code: ErrorCode::NotFound,
                message: String::from_str("topic not found"),
                topic_id: String::from_str(topic_id),
                board_id: None,
                expected_board_id: None,
            },
        ),
        Some(topic_board) => {
            let named = chars_of(payload_board_id);
            let actual = chars_of(topic_board.as_str());
            if chars_equal(&named, &actual) {
                Ok(())
            } else {
                Err(
                    ActionRefusal {
                        status: 400,
                        code: ErrorCode::Validation,
                        message: String::from_str("board_id does not match topic"),
                        topic_id: String::from_str(topic_id),
                        board_id: Some(String::from_str(payload_board_id)),
                        expected_board_id: Some(topic_board),
                    },
                )
            }
        },
    }
}

} // verus!
