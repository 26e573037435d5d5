//! The automatic ban issued after repeated verification failures, and the
//! choice of what it targets: an IP address, an e-mail address or an account.
use vstd::prelude::*;
use crate::error::ForumError;
use crate::numbers::{parse_i64, parse_i64_spec};
use crate::records::{Timestamp, MAX_TIMESTAMP_SECS, MIN_TIMESTAMP_SECS};
use crate::text::{chars_of, string_of};
use crate::tokens::{split_on, split_on_chars, trim_chars, trim_ws, lemma_split_on_nonempty};

verus! {

/// What a ban condition applies to.
#[derive(Clone, Debug)]
pub enum BanAffects {
    Account { member_id: i64 },
    Email { value: String },
    Ip { value: String },
}

/// A ban target as plain values.
pub enum BanTarget {
    Account { member_id: i64 },
    Email { value: Seq<char> },
    Ip { value: Seq<char> },
}

impl View for BanAffects {
    type V = BanTarget;

    open spec fn view(&self) -> BanTarget {
        match self {
            BanAffects::Account { member_id } => BanTarget::Account { member_id: *member_id },
            BanAffects::Email { value } => BanTarget::Email { value: value@ },
            BanAffects::Ip { value } => BanTarget::Ip { value: value@ },
        }
    }
}

#[derive(Clone, Debug)]
pub struct BanCondition {
    pub id: i64,
    pub reason: Option<String>,
    pub expires_at: Option<Timestamp>,
    pub affects: BanAffects,
}

#[derive(Clone, Debug)]
pub struct BanRule {
    pub id: i64,
    pub reason: Option<String>,
    pub expires_at: Option<Timestamp>,
    pub cannot_post: bool,
    pub cannot_access: bool,
    pub conditions: Vec<BanCondition>,
}

/// `str::contains(c)`.
pub open spec fn has_char(s: Seq<char>, c: char) -> bool {
    exists|i: int| 0 <= i < s.len() && s[i] == c
}

/// An address of the form `local@domain`: exactly one `@`, a non-empty
/// local part, and a domain that contains a dot but neither starts nor ends
/// with one.
pub open spec fn looks_like_email_spec(value: Seq<char>) -> bool {
    let parts = split_on(value, '@');
    let local = parts[0];
    let domain = if parts.len() > 1 {
        parts[1]
    } else {
        Seq::<char>::empty()
    };
    &&& parts.len() <= 2
    &&& local.len() > 0
    &&& has_char(domain, '.')
    &&& domain[0] != '.'
    &&& domain.last() != '.'
}

/// The target of a ban on `subject`, where `trimmed_is_ip` says whether the
/// subject without surrounding white space parses as an IP address: that
/// address; otherwise the last `:`-separated piece, trimmed, as an e-mail
/// address or else as an account number; otherwise nothing.
pub open spec fn ban_target_spec(subject: Seq<char>, trimmed_is_ip: bool) -> Option<BanTarget> {
    let trimmed = trim_ws(subject);
    if trimmed_is_ip {
        Some(BanTarget::Ip { value: trimmed })
    } else {
        let suffix = trim_ws(split_on(trimmed, ':').last());
        if looks_like_email_spec(suffix) {
            Some(BanTarget::Email { value: suffix })
        } else {
            match parse_i64_spec(suffix) {
                Some(member_id) => Some(BanTarget::Account { member_id }),
                None => None,
            }
        }
    }
}

fn has_char_exec(s: &Vec<char>, c: char) -> (r: bool)
    ensures
        r == has_char(s@, c),
{
    let mut i: usize = 0;
    while i < s.len()
        invariant
            i <= s.len(),
            forall|j: int| 0 <= j < i ==> s@[j] != c,
        decreases s.len() - i,
    {
        if s[i] == c {
            return true;
        }
        i = i + 1;
    }
    false
}

fn email_shaped(value: &Vec<char>) -> (r: bool)
    ensures
        r == looks_like_email_spec(value@),
{
    let parts = split_on_chars(value, '@');
    let ghost views = parts@.map_values(|t: Vec<char>| t@);
    proof {
        lemma_split_on_nonempty(value@, '@');
    }
    assert(parts@[0]@ == views[0]);
    if parts.len() > 2 {
        return false;
    }
    if parts[0].len() == 0 {
        return false;
    }
    if parts.len() < 2 {
        return false;
    }
    assert(parts@[1]@ == views[1]);
    let domain = &parts[1];
    has_char_exec(domain, '.') && domain[0] != '.' && domain[domain.len() - 1] != '.'
}

pub fn looks_like_email(value: &str) -> (r: bool)
    ensures
        r == looks_like_email_spec(value@),
{
    email_shaped(&chars_of(value))
}

/// Chooses the ban target for `agent_subject`, given whether the subject
/// without surrounding white space parses as an IP address.
pub fn derive_ban_affects(agent_subject: &str, trimmed_is_ip: bool) -> (res: Result<BanAffects, ForumError>)
    ensures
        match ban_target_spec(agent_subject@, trimmed_is_ip) {
            Some(t) => res matches Ok(a) && a@ == t,
            None => res matches Err(ForumError::Validation(m))
                && m@ == "verification_ban_subject_not_targetable"@,
        },
{
    let subject = chars_of(agent_subject);
    let trimmed = trim_chars(&subject);
    if trimmed_is_ip {
        return Ok(BanAffects::Ip { value: string_of(&trimmed) });
    }
    let parts = split_on_chars(&trimmed, ':');
    proof {
        lemma_split_on_nonempty(trimmed@, ':');
    }
    let last = &parts[parts.len() - 1];
    assert(last@ == split_on(trimmed@, ':').last());
    let suffix = trim_chars(last);
    if email_shaped(&suffix) {
        return Ok(BanAffects::Email { value: string_of(&suffix) });
    }
    match parse_i64(&suffix) {
        Some(member_id) => Ok(BanAffects::Account { member_id }),
        None => Err(ForumError::Validation(String::from_str("verification_ban_subject_not_targetable"))),
    }
}

/// `DateTime<Utc> + chrono::Duration::seconds(seconds)`, with the instant
/// taken from and given back as seconds and nanoseconds. For an instant and a
/// result inside chrono's range chrono adds exactly `seconds` seconds and
/// keeps the sub-second part; the contract states that.
#[verifier::external_body]
pub(crate) fn seconds_after(at: Timestamp, seconds: i64) -> (later: Timestamp)
    requires
        at.is_valid(),
        -(i64::MAX / 1000) <= seconds <= i64::MAX / 1000,
        MIN_TIMESTAMP_SECS <= at.secs + seconds <= MAX_TIMESTAMP_SECS,
    ensures
        later == (Timestamp { secs: (at.secs + seconds) as i64, nanos: at.nanos }),
{
    let start = chrono::DateTime::from_timestamp(at.secs, at.nanos).unwrap();
    let end = start + chrono::Duration::seconds(seconds);
    Timestamp { secs: end.timestamp(), nanos: end.timestamp_subsec_nanos() }
}

/// Seconds in the 24 hours an automatic ban lasts.
pub open spec fn auto_ban_seconds() -> int {
    24int * 3600int
}

/// What `auto_ban_rule` gives for `subject` at `now`: a rule with id 0 that
/// forbids posting but not access for 24 hours, with one condition that
/// targets what `ban_target_spec` picks; or the validation error when
/// nothing can be targeted.
pub open spec fn is_auto_ban_for(
    res: Result<BanRule, ForumError>,
    subject: Seq<char>,
    now: Timestamp,
    trimmed_is_ip: bool,
) -> bool {
    match ban_target_spec(subject, trimmed_is_ip) {
        None => res matches Err(ForumError::Validation(m))
            && m@ == "verification_ban_subject_not_targetable"@,
        Some(t) => res matches Ok(rule) && {
            let expires = Timestamp { secs: (now.secs + auto_ban_seconds()) as i64, nanos: now.nanos };
            &&& rule.id == 0
            &&& rule.reason matches Some(r) && r@ == "agent verification failures for "@ + subject
            &&& rule.expires_at == Some(expires)
            &&& rule.cannot_post
            &&& !rule.cannot_access
            &&& rule.conditions.len() == 1
            &&& rule.conditions[0].id == 0
            &&& rule.conditions[0].reason matches Some(r) && r@ == "verification failure threshold"@
            &&& rule.conditions[0].expires_at == Some(expires)
            &&& rule.conditions[0].affects@ == t
        },
    }
}

/// The automatic posting ban for `agent_subject`, lasting 24 hours from
/// `now`; `trimmed_is_ip` says whether the subject without surrounding white
/// space parses as an IP address.
pub fn auto_ban_rule(agent_subject: &str, now: Timestamp, trimmed_is_ip: bool) -> (res: Result<BanRule, ForumError>)
    requires
        now.is_valid(),
        now.secs + auto_ban_seconds() <= MAX_TIMESTAMP_SECS,
    ensures
        is_auto_ban_for(res, agent_subject@, now, trimmed_is_ip),
{
    let expires_at = seconds_after(now, 24 * 3600);
    let affects = match derive_ban_affects(agent_subject, trimmed_is_ip) {
        Ok(a) => a,
        Err(e) => {
            return Err(e);
        },
    };
    let mut reason = String::from_str("agent verification failures for ");
    reason.append(agent_subject);
    let mut conditions: Vec<BanCondition> = Vec::new();
    conditions.push(
        BanCondition {
            id: 0,
            reason: Some(String::from_str("verification failure threshold")),
            expires_at: Some(expires_at),
            affects,
        },
    );
    Ok(
        BanRule {
            id: 0,
            reason: Some(reason),
            expires_at: Some(expires_at),
            cannot_post: true,
            cannot_access: false,
            conditions,
        },
    )
}

} // verus!
