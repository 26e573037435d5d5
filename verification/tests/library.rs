use agent_verification::ban::{auto_ban_rule, derive_ban_affects, looks_like_email, BanAffects};
use agent_verification::challenge::{challenge_template, generate_challenge_text, has_exact_two_decimal_result};
use agent_verification::client::{
    admin_users_path, api_url, auth_headers, comma_list, csrf_from_cookie, id_list,
    login_after_check, needs_login_check, number_or_zero, sso_link,
};
use agent_verification::error::ForumError;
use agent_verification::handler::{action_scope_requirement, verify_scope_requirements};
use agent_verification::numbers::{format_hundredths, number_to_words, number_to_words_inner, parse_i64};
use agent_verification::obfuscate::{
    apply_case_variation, apply_fragmentation, apply_misspelling, apply_noise, obfuscate_text,
    obfuscate_word,
};
use agent_verification::operator::MathOperator;
use agent_verification::records::{
    record_failed_attempt, Timestamp, VerificationActionKind, VerificationChallengeRecord,
    VerificationChallengeStatus,
};
use agent_verification::rng::DeterministicRng;
use agent_verification::tokens::{join_space, split_on_chars, split_whitespace_chars, trim_chars};
use serde_json::Value;

fn chars(s: &str) -> Vec<char> {
    s.chars().collect()
}

fn text(v: &[char]) -> String {
    v.iter().collect()
}

fn answer(left: i64, right: i64, op: MathOperator) -> String {
    generate_challenge_text(left, right, op, 3).unwrap().expected_answer
}

fn validation_message(err: ForumError) -> String {
    match err {
        ForumError::Validation(message) => message,
    }
}

fn sample_record(status: VerificationChallengeStatus, attempts: i64, max: i64) -> VerificationChallengeRecord {
    VerificationChallengeRecord {
        id: 1,
        verification_code: "avc_sample".into(),
        agent_subject: "agent:sample@example.com".into(),
        action_kind: VerificationActionKind::TopicCreate,
        payload_json: Value::Null,
        challenge_text: "text".into(),
        expected_answer: "1.00".into(),
        generator_version: "v1".into(),
        generator_seed: 5,
        status,
        attempt_count: attempts,
        max_attempts: max,
        expires_at: Timestamp { secs: 1_000, nanos: 0 },
        verified_at: None,
        created_at: Timestamp { secs: 700, nanos: 0 },
    }
}

#[test]
fn answers_are_exact_with_two_decimals() {
    assert_eq!(answer(7, 5, MathOperator::Add), "12.00");
    assert_eq!(answer(3, 5, MathOperator::Subtract), "-2.00");
    assert_eq!(answer(12, 3, MathOperator::Multiply), "36.00");
    assert_eq!(answer(999, 999, MathOperator::Multiply), "998001.00");
    assert_eq!(answer(1, 4, MathOperator::Divide), "0.25");
    assert_eq!(answer(7, 2, MathOperator::Divide), "3.50");
    assert_eq!(answer(0, 7, MathOperator::Divide), "0.00");
}

#[test]
fn generation_errors_name_their_reason() {
    let err = generate_challenge_text(5, 0, MathOperator::Divide, 1).unwrap_err();
    assert_eq!(validation_message(err), "verification_divide_by_zero");
    let err = generate_challenge_text(1000, 1, MathOperator::Add, 1).unwrap_err();
    assert_eq!(validation_message(err), "verification_number_out_of_range");
    let err = generate_challenge_text(4, -1, MathOperator::Subtract, 1).unwrap_err();
    assert_eq!(validation_message(err), "verification_number_out_of_range");
    let err = generate_challenge_text(-3, 3, MathOperator::Divide, 1).unwrap_err();
    assert_eq!(validation_message(err), "verification_number_out_of_range");
    assert!(has_exact_two_decimal_result(-1, 4));
    assert!(!has_exact_two_decimal_result(1, -3));
    assert!(!has_exact_two_decimal_result(5, 0));
}

#[test]
fn generation_is_replayable_from_its_seed() {
    let first = generate_challenge_text(42, 17, MathOperator::Subtract, 123).unwrap();
    let second = generate_challenge_text(42, 17, MathOperator::Subtract, 123).unwrap();
    assert_eq!(first, second);
    assert_eq!(first.expected_answer, "25.00");
    assert_eq!(first.generator_version, "v1");
    assert_eq!(first.generator_seed, 123);
}

#[test]
fn every_template_keeps_its_keyword_and_has_no_digits() {
    let ops = [
        MathOperator::Add,
        MathOperator::Subtract,
        MathOperator::Multiply,
        MathOperator::Divide,
    ];
    for op in ops {
        for seed in [-7i64, 0, 1, 99, i64::MAX] {
            let generated = generate_challenge_text(60, 20, op, seed).unwrap();
            assert!(generated.challenge_text.contains(op.keyword()));
            assert!(!generated.challenge_text.chars().any(|c| c.is_ascii_digit()));
        }
    }
}

#[test]
fn template_reads_as_a_sentence() {
    let plain = challenge_template("seven".to_string(), "five".to_string(), MathOperator::Add);
    assert_eq!(
        plain,
        "A lobster drifts with seven shells combined with five more. What is the result?"
    );
    let plain = challenge_template("two".to_string(), "six".to_string(), MathOperator::Multiply);
    assert_eq!(plain, "A lobster taps two fins six times. What is the result?");
    let plain = challenge_template("nine".to_string(), "four".to_string(), MathOperator::Subtract);
    assert_eq!(
        plain,
        "A lobster carries nine pebbles and the current slows by four. What is the result?"
    );
    let plain = challenge_template("ten".to_string(), "two".to_string(), MathOperator::Divide);
    assert_eq!(
        plain,
        "A lobster keeps ten pearls split among two tide pools. What is the result?"
    );
}

#[test]
fn number_words_cover_zero_to_nine_hundred_ninety_nine() {
    assert_eq!(number_to_words_inner(0), "zero");
    assert_eq!(number_to_words_inner(15), "fifteen");
    assert_eq!(number_to_words_inner(20), "twenty");
    assert_eq!(number_to_words_inner(42), "forty two");
    assert_eq!(number_to_words_inner(100), "one hundred");
    assert_eq!(number_to_words_inner(310), "three hundred ten");
    assert_eq!(number_to_words_inner(999), "nine hundred ninety nine");
    assert_eq!(number_to_words_inner(1000), "ten hundred");
    assert_eq!(number_to_words_inner(1999), "nineteen hundred ninety nine");
    assert_eq!(number_to_words(999).unwrap(), "nine hundred ninety nine");
    assert!(number_to_words(1000).is_err());
    assert!(number_to_words(-1).is_err());
}

#[test]
fn hundredths_are_written_with_two_decimals() {
    assert_eq!(text(&format_hundredths(700)), "7.00");
    assert_eq!(text(&format_hundredths(725)), "7.25");
    assert_eq!(text(&format_hundredths(-50)), "-0.50");
    assert_eq!(text(&format_hundredths(0)), "0.00");
    assert_eq!(text(&format_hundredths(i64::MIN)), "-92233720368547758.08");
}

#[test]
fn integers_parse_like_i64_from_str() {
    assert_eq!(parse_i64(&chars("42")), Some(42));
    assert_eq!(parse_i64(&chars("+7")), Some(7));
    assert_eq!(parse_i64(&chars("-0")), Some(0));
    assert_eq!(parse_i64(&chars("-9223372036854775808")), Some(i64::MIN));
    assert_eq!(parse_i64(&chars("9223372036854775807")), Some(i64::MAX));
    assert_eq!(parse_i64(&chars("9223372036854775808")), None);
    assert_eq!(parse_i64(&chars("")), None);
    assert_eq!(parse_i64(&chars("-")), None);
    assert_eq!(parse_i64(&chars("4a")), None);
    assert_eq!(parse_i64(&chars(" 4")), None);
    for s in ["12", "-3", "+0", "x", "", "99999999999999999999"] {
        assert_eq!(parse_i64(&chars(s)), s.parse::<i64>().ok());
    }
}

#[test]
fn email_shape_is_checked() {
    assert!(looks_like_email("a@b.c"));
    assert!(!looks_like_email("@b.c"));
    assert!(!looks_like_email("a@b"));
    assert!(!looks_like_email("a@.b"));
    assert!(!looks_like_email("a@b."));
    assert!(!looks_like_email("a@b@c.d"));
    assert!(!looks_like_email("plain"));
}

#[test]
fn ban_targets_follow_the_subject() {
    match derive_ban_affects("  agent: 7  ", false).unwrap() {
        BanAffects::Account { member_id } => assert_eq!(member_id, 7),
        other => panic!("unexpected target {other:?}"),
    }
    match derive_ban_affects(" 10.0.0.1 ", true).unwrap() {
        BanAffects::Ip { value } => assert_eq!(value, "10.0.0.1"),
        other => panic!("unexpected target {other:?}"),
    }
    match derive_ban_affects("a:b:c@d.org", false).unwrap() {
        BanAffects::Email { value } => assert_eq!(value, "c@d.org"),
        other => panic!("unexpected target {other:?}"),
    }
    let err = derive_ban_affects("", false).unwrap_err();
    assert_eq!(validation_message(err), "verification_ban_subject_not_targetable");
}

#[test]
fn auto_ban_lasts_a_day_and_explains_itself() {
    let now = Timestamp { secs: 1_700_000_000, nanos: 123 };
    let ban = auto_ban_rule("robot@example.com", now, false).unwrap();
    let later = Timestamp { secs: 1_700_086_400, nanos: 123 };
    assert_eq!(ban.id, 0);
    assert_eq!(ban.reason.as_deref(), Some("agent verification failures for robot@example.com"));
    assert_eq!(ban.expires_at, Some(later));
    assert_eq!(ban.conditions[0].id, 0);
    assert_eq!(ban.conditions[0].reason.as_deref(), Some("verification failure threshold"));
    assert_eq!(ban.conditions[0].expires_at, Some(later));
}

#[test]
fn failed_attempts_stop_at_final_states() {
    let mut pending = sample_record(VerificationChallengeStatus::Pending, 0, 3);
    record_failed_attempt(&mut pending);
    assert_eq!(pending.attempt_count, 1);
    assert_eq!(pending.status, VerificationChallengeStatus::Pending);
    record_failed_attempt(&mut pending);
    record_failed_attempt(&mut pending);
    assert_eq!(pending.attempt_count, 3);
    assert_eq!(pending.status, VerificationChallengeStatus::Failed);
    record_failed_attempt(&mut pending);
    assert_eq!(pending.attempt_count, 3);
    for status in [
        VerificationChallengeStatus::Verified,
        VerificationChallengeStatus::Expired,
        VerificationChallengeStatus::Failed,
    ] {
        let mut record = sample_record(status, 1, 3);
        record_failed_attempt(&mut record);
        assert_eq!(record.status, status);
        assert_eq!(record.attempt_count, 1);
    }
}

#[test]
fn defaults_match_the_storage_defaults() {
    assert_eq!(VerificationActionKind::default(), VerificationActionKind::TopicCreate);
    assert_eq!(VerificationChallengeStatus::default(), VerificationChallengeStatus::Pending);
    assert_eq!(MathOperator::Add.keyword(), "combined");
    assert_eq!(MathOperator::Subtract.keyword(), "slows");
    assert_eq!(MathOperator::Multiply.keyword(), "times");
    assert_eq!(MathOperator::Divide.keyword(), "split");
}

#[test]
fn rng_is_a_linear_congruential_generator() {
    let mut rng = DeterministicRng::new(9);
    let start = 9u64 ^ 0x9E37_79B9_7F4A_7C15;
    assert_eq!(rng.state, start);
    let next = start.wrapping_mul(6364136223846793005).wrapping_add(1);
    assert_eq!(rng.next_u32(), (next >> 32) as u32);
    let before = rng.state;
    assert!(rng.next_bool(1));
    assert_eq!(rng.state, before);
}

#[test]
fn anchors_survive_obfuscation() {
    for seed in [0i64, 3, 77] {
        let mut rng = DeterministicRng::new(seed);
        assert_eq!(obfuscate_word("combined", &mut rng), "combined");
        assert_eq!(obfuscate_word("Times.", &mut rng), "Times.");
        assert_eq!(obfuscate_word("(split)", &mut rng), "(split)");
    }
    let rendered = obfuscate_text("shells  slows\tpebbles", 11);
    assert!(rendered.contains(" slows "));
}

#[test]
fn transformations_change_words_as_described() {
    let mut rng = DeterministicRng::new(1);
    let fragmented = apply_fragmentation("lobster", &mut rng);
    assert!(fragmented == "lobster" || fragmented == "lob-ster");
    let mut rng = DeterministicRng::new(2);
    let cased = apply_case_variation("lobSter", &mut rng);
    assert!(cased == "lobster" || cased == "LOBSTER" || cased == "Lobster");
    let mut rng = DeterministicRng::new(3);
    let noisy = apply_noise("shells", &mut rng);
    assert!(["shells...", "shells!!", "shells??", "shells~"].contains(&noisy.as_str()));
    let mut rng = DeterministicRng::new(4);
    let swapped = apply_misspelling("abcd", &mut rng);
    assert!(["bacd", "acbd", "abdc"].contains(&swapped.as_str()));
    let mut rng = DeterministicRng::new(4);
    assert_eq!(apply_misspelling("ab", &mut rng), "ab");
}

#[test]
fn text_helpers_behave_like_std() {
    let s = "  a b\tc \u{3000}";
    let split: Vec<String> = split_whitespace_chars(&chars(s)).iter().map(|t| text(t)).collect();
    assert_eq!(split, s.split_whitespace().collect::<Vec<_>>());
    assert_eq!(text(&trim_chars(&chars(s))), s.trim());
    let pieces: Vec<String> = split_on_chars(&chars("a::b:"), ':').iter().map(|t| text(t)).collect();
    assert_eq!(pieces, "a::b:".split(':').collect::<Vec<_>>());
    assert_eq!(text(&join_space(&vec![chars("x"), chars("y"), chars("z")])), "x y z");
}

#[test]
fn client_requests_are_addressed_and_authenticated() {
    assert_eq!(api_url("/api/", "/surreal/topics"), "/api/surreal/topics");
    assert_eq!(api_url("http://h//", "x"), "http://h/x");
    assert_eq!(
        csrf_from_cookie("theme=dark; XSRF-TOKEN=abc123; other=1"),
        Some("abc123".to_string())
    );
    assert_eq!(csrf_from_cookie("theme=dark"), None);
    let headers = auth_headers("jwt", " ", Some("cookie-token".into()));
    assert_eq!(headers.authorization.as_deref(), Some("Bearer jwt"));
    assert_eq!(headers.csrf.as_deref(), Some("cookie-token"));
    let headers = auth_headers("  ", "", None);
    assert_eq!(headers.authorization, None);
    assert_eq!(headers.csrf, None);
}

#[test]
fn scopes_follow_the_action() {
    let topic = action_scope_requirement(VerificationActionKind::TopicCreate);
    assert_eq!(topic.scope, "forum:topic:write");
    assert_eq!(topic.legacy_permissions, vec!["manage_boards", "post_new"]);
    let reply = action_scope_requirement(VerificationActionKind::ReplyCreate);
    assert_eq!(reply.scope, "forum:reply:write");
    assert_eq!(reply.legacy_permissions, vec!["manage_boards", "post_reply_any"]);
    let verify = verify_scope_requirements();
    assert_eq!(verify.len(), 2);
    assert_eq!(verify[0].scope, "forum:topic:write");
    assert_eq!(verify[1].scope, "forum:reply:write");
    assert_eq!(
        verify[1].legacy_permissions,
        vec!["manage_boards", "post_new", "post_reply_any"]
    );
}

#[test]
fn sso_links_carry_an_encoded_token() {
    assert_eq!(sso_link("http://forum.local/blog/", "  "), "http://forum.local/blog/");
    assert_eq!(
        sso_link("http://forum.local/blog/", " a.b+c "),
        "http://forum.local/blog/sso?token=a.b%2Bc&next=http%3A%2F%2Fforum.local%2Fblog%2F"
    );
    assert_eq!(admin_users_path(" "), "/admin/users?limit=200");
    assert_eq!(admin_users_path(" bob smith "), "/admin/users?limit=200&q=bob%20smith");
    assert_eq!(admin_users_path("é"), "/admin/users?limit=200&q=%C3%A9");
}

#[test]
fn form_lists_are_split_trimmed_and_filtered() {
    assert_eq!(comma_list(" alice, ,bob ,"), vec!["alice".to_string(), "bob".to_string()]);
    assert!(comma_list("   ").is_empty());
    assert_eq!(id_list("1, x, 3 ,-4"), vec![1, 3, -4]);
    assert!(id_list("  ").is_empty());
    assert_eq!(number_or_zero(" 24 "), 24);
    assert_eq!(number_or_zero("abc"), 0);
}

#[test]
fn rendering_is_fixed_by_the_seed() {
    let cases: [(i64, i64, MathOperator, i64, &str); 5] = [
        (
            12,
            3,
            MathOperator::Divide,
            7,
            "A lobster kepes twel-ve Paerls split MAONG three iTde opo-ls. What Is~ hte res-utl?",
        ),
        (
            7,
            5,
            MathOperator::Add,
            1,
            "a~ oLb-ster DRIFFTS!! WTIH SEVEN shhhells combined With~ Fvie More.!! what IS THE!! result?",
        ),
        (
            42,
            17,
            MathOperator::Subtract,
            123,
            "A lllob-ster CARRIES?? FORTTTY TWO peb-bles nad The CURRENT slows Byyy!! Seventeen. hhhWat is the Res-ult?~",
        ),
        (
            6,
            9,
            MathOperator::Multiply,
            -5,
            "A lobster Taps sssix ifns Nine times. What Is the Res-ult?",
        ),
        (
            999,
            0,
            MathOperator::Add,
            i64::MAX,
            "a!! Lobsetr rdi-fffts with IIINNE hunn-dred ninety... iNne sh-ells combined WTIH zero... MORE. hwat IS~ HHTE Res-ult???",
        ),
    ];
    for (left, right, op, seed, expected) in cases {
        let generated = generate_challenge_text(left, right, op, seed).unwrap();
        assert_eq!(generated.challenge_text, expected);
    }
    let mut rng = DeterministicRng::new(9);
    assert_eq!(obfuscate_word("lobster", &mut rng), "olbster");
    assert_eq!(
        obfuscate_text("Ünïcödé wörds ŝtay whole", 3),
        "Ünï-cödé wö-rds?? TŝAY whole"
    );
}

#[test]
fn answers_match_two_decimal_float_formatting() {
    let ops = [
        MathOperator::Add,
        MathOperator::Subtract,
        MathOperator::Multiply,
        MathOperator::Divide,
    ];
    for left in (0i64..=999).step_by(13) {
        for right in (0i64..=999).step_by(17) {
            for op in ops {
                let value = match op {
                    MathOperator::Add => left as f64 + right as f64,
                    MathOperator::Subtract => left as f64 - right as f64,
                    MathOperator::Multiply => (left * right) as f64,
                    MathOperator::Divide => left as f64 / right as f64,
                };
                match generate_challenge_text(left, right, op, left ^ right) {
                    Ok(generated) => assert_eq!(generated.expected_answer, format!("{value:.2}")),
                    Err(_) => {
                        assert!(op == MathOperator::Divide);
                        assert!(right == 0 || (left * 100) % right != 0);
                    }
                }
            }
        }
    }
    for left in 0i64..=999 {
        for right in [4i64, 8, 20, 25, 40, 50, 125, 200, 400, 500, 625] {
            if let Ok(generated) = generate_challenge_text(left, right, MathOperator::Divide, 0) {
                assert_eq!(
                    generated.expected_answer,
                    format!("{:.2}", left as f64 / right as f64)
                );
            }
        }
    }
}

#[test]
fn number_words_are_distinct_below_two_thousand() {
    let mut seen = std::collections::HashSet::new();
    for n in 0i64..2000 {
        assert!(seen.insert(number_to_words_inner(n)));
    }
}

#[test]
fn stored_login_is_checked_and_kept_or_cleared() {
    assert!(!needs_login_check("  "));
    assert!(needs_login_check(" jwt "));
    let kept = login_after_check("jwt", Ok("alice".to_string()), Some("tok".to_string()));
    assert_eq!(kept.token, "jwt");
    assert_eq!(kept.user_name, "alice");
    assert_eq!(kept.csrf.as_deref(), Some("tok"));
    assert_eq!(kept.status, "登录已验证");
    assert!(kept.keep_stored);
    let no_cookie = login_after_check("jwt", Ok("alice".to_string()), None);
    assert_eq!(no_cookie.csrf.as_deref(), Some(""));
    let expired = login_after_check("jwt", Err("HTTP 401: expired".to_string()), Some("tok".to_string()));
    assert_eq!(expired.token, "");
    assert_eq!(expired.user_name, "");
    assert_eq!(expired.csrf, None);
    assert_eq!(expired.status, "登录已失效：HTTP 401: expired");
    assert!(!expired.keep_stored);
}
