//! Challenge generation: a word problem about a lobster, with both operands
//! written as English words and one keyword naming the operation, rendered
//! noisy by a seed, together with its canonical two-decimal answer.
use vstd::prelude::*;
use crate::error::ForumError;
use crate::numbers::{
    format_hundredths, lemma_number_words_no_digit, number_to_words, number_words,
    two_decimal_text,
};
use crate::obfuscate::{
    semantic_anchor, lemma_obfuscate_text_keeps_anchor, lemma_obfuscate_text_no_digit,
    obfuscate_text, obfuscate_text_spec,
};
use crate::operator::{keyword_chars, lemma_keyword_letters, MathOperator};
use crate::text::{
    contains_run, is_ascii_alpha, is_ascii_digit, is_whitespace,
    lower_all, no_ascii_digit, no_whitespace, string_of,
};
use crate::tokens::{
    lemma_contains_prefix, lemma_split_ws_isolated_token, split_ws, trim_end_nonalpha,
    trim_nonalpha, trim_start_nonalpha,
};

verus! {

#[derive(Clone, Debug, PartialEq, Eq)]
pub struct GeneratedChallenge {
    pub challenge_text: String,
    pub expected_answer: String,
    pub generator_version: String,
    pub generator_seed: i64,
}

// ---------------------------------------------------------------------------
// Templates
// ---------------------------------------------------------------------------
//
// The four sentences, with L and R the operand words:
//   Add:      "A lobster drifts with L shells combined with R more. What is the result?"
//   Subtract: "A lobster carries L pebbles and the current slows by R. What is the result?"
//   Multiply: "A lobster taps L fins R times. What is the result?"
//   Divide:   "A lobster keeps L pearls split among R tide pools. What is the result?"
// Each is stated below as `prefix + " " + token + " " + suffix`, where the
// token is the keyword (followed by "." for Multiply).

pub open spec fn template_prefix(lw: Seq<char>, rw: Seq<char>, op: MathOperator) -> Seq<char> {
    match op {
        MathOperator::Add => "A lobster drifts with "@ + lw + " shells"@,
        MathOperator::Subtract => "A lobster carries "@ + lw + " pebbles and the current"@,
        MathOperator::Multiply => "A lobster taps "@ + lw + " fins "@ + rw,
        MathOperator::Divide => "A lobster keeps "@ + lw + " pearls"@,
    }
}

pub open spec fn template_token(op: MathOperator) -> Seq<char> {
    match op {
        MathOperator::Multiply => keyword_chars(op) + "."@,
        _ => keyword_chars(op),
    }
}

pub open spec fn template_suffix(rw: Seq<char>, op: MathOperator) -> Seq<char> {
    match op {
        MathOperator::Add => "with "@ + rw + " more. What is the result?"@,
        MathOperator::Subtract => "by "@ + rw + ". What is the result?"@,
        MathOperator::Multiply => "What is the result?"@,
        MathOperator::Divide => "among "@ + rw + " tide pools. What is the result?"@,
    }
}

/// The plain (not yet obfuscated) challenge sentence.
pub open spec fn challenge_template_spec(lw: Seq<char>, rw: Seq<char>, op: MathOperator) -> Seq<
    char,
> {
    template_prefix(lw, rw, op) + seq![' '] + template_token(op) + seq![' '] + template_suffix(
        rw,
        op,
    )
}

pub fn challenge_template(left_words: String, right_words: String, op: MathOperator) -> (plain: String)
    ensures
        plain@ == challenge_template_spec(left_words@, right_words@, op),
{
    let left = left_words.as_str();
    let right = right_words.as_str();
    let mut out = match op {
        MathOperator::Add => {
            let mut out = String::from_str("A lobster drifts with ");
            out.append(left);
            out.append(" shells");
            out
        },
        MathOperator::Subtract => {
            let mut out = String::from_str("A lobster carries ");
            out.append(left);
            out.append(" pebbles and the current");
            out
        },
        MathOperator::Multiply => {
            let mut out = String::from_str("A lobster taps ");
            out.append(left);
            out.append(" fins ");
            out.append(right);
            out
        },
        MathOperator::Divide => {
            let mut out = String::from_str("A lobster keeps ");
            out.append(left);
            out.append(" pearls");
            out
        },
    };
    out.append(" ");
    out.append(op.keyword());
    if op == MathOperator::Multiply {
        out.append(".");
    }
    out.append(" ");
    match op {
        MathOperator::Add => {
            out.append("with ");
            out.append(right);
            out.append(" more. What is the result?");
        },
        MathOperator::Subtract => {
            out.append("by ");
            out.append(right);
            out.append(". What is the result?");
        },
        MathOperator::Multiply => {
            out.append("What is the result?");
        },
        MathOperator::Divide => {
            out.append("among ");
            out.append(right);
            out.append(" tide pools. What is the result?");
        },
    }
    proof {
        reveal_strlit(" ");
    }
    assert(out@ =~= challenge_template_spec(left_words@, right_words@, op));
    out
}

// ---------------------------------------------------------------------------
// Answers
// ---------------------------------------------------------------------------

/// A quotient is accepted only when it has at most two decimals.
pub open spec fn exact_two_decimal(left: int, right: int) -> bool {
    right != 0 && (left * 100) % right == 0
}

pub fn has_exact_two_decimal_result(left: i64, right: i64) -> (exact: bool)
    ensures
        exact == exact_two_decimal(left as int, right as int),
{
    if right == 0 {
        return false;
    }
    let scaled = (left as i128) * 100;
    let divisor = right as i128;
    let magnitude: i128 = if scaled < 0 {
        0 - scaled
    } else {
        scaled
    };
    let positive_divisor: i128 = if divisor < 0 {
        0 - divisor
    } else {
        divisor
    };
    let r = magnitude % positive_divisor;
    proof {
        lemma_divisible_abs(left as int * 100, right as int);
    }
    r == 0
}

proof fn lemma_mod_negated_divisor(a: int, b: int)
    requires
        b < 0,
    ensures
        a % b == a % (-b),
{
    vstd::arithmetic::div_mod::lemma_fundamental_div_mod(a, b);
    let q = a / b;
    let r = a % b;
    assert(a == (-q) * (-b) + r) by (nonlinear_arith)
        requires
            a == b * q + r,
    ;
    vstd::arithmetic::div_mod::lemma_fundamental_div_mod_converse(a, -b, -q, r);
}

proof fn lemma_mod_negated_dividend(a: int, m: int)
    requires
        m > 0,
    ensures
        (a % m == 0) == ((-a) % m == 0),
{
    vstd::arithmetic::div_mod::lemma_fundamental_div_mod(a, m);
    vstd::arithmetic::div_mod::lemma_fundamental_div_mod(-a, m);
    if a % m == 0 {
        let q = a / m;
        assert(-a == (-q) * m + 0) by (nonlinear_arith)
            requires
                a == m * q + 0,
        ;
        vstd::arithmetic::div_mod::lemma_fundamental_div_mod_converse(-a, m, -q, 0);
    }
    if (-a) % m == 0 {
        let q = (-a) / m;
        assert(a == (-q) * m + 0) by (nonlinear_arith)
            requires
                -a == m * q + 0,
        ;
        vstd::arithmetic::div_mod::lemma_fundamental_div_mod_converse(a, m, -q, 0);
    }
}

proof fn lemma_divisible_abs(a: int, b: int)
    requires
        b != 0,
    ensures
        (a % b == 0) == ((if a < 0 {
            -a
        } else {
            a
        }) % (if b < 0 {
            -b
        } else {
            b
        }) == 0),
{
    let pb = if b < 0 {
        -b
    } else {
        b
    };
    if b < 0 {
        lemma_mod_negated_divisor(a, b);
    }
    assert(a % b == a % pb);
    lemma_mod_negated_dividend(a, pb);
}

/// The exact result of the operation, in hundredths.
pub open spec fn exact_hundredths(left: int, right: int, op: MathOperator) -> int {
    match op {
        MathOperator::Add => (left + right) * 100,
        MathOperator::Subtract => (left - right) * 100,
        MathOperator::Multiply => left * right * 100,
        MathOperator::Divide => (left * 100) / right,
    }
}

fn answer_hundredths(left: i64, right: i64, op: MathOperator) -> (h: i64)
    requires
        0 <= left <= 999,
        0 <= right <= 999,
        op == MathOperator::Divide ==> right != 0,
    ensures
        h == exact_hundredths(left as int, right as int, op),
{
    match op {
        MathOperator::Add => (left + right) * 100,
        MathOperator::Subtract => (left - right) * 100,
        MathOperator::Multiply => {
            assert(0 <= left * right <= 999 * 999) by (nonlinear_arith)
                requires
                    0 <= left <= 999,
                    0 <= right <= 999,
            ;
            left * right * 100
        },
        MathOperator::Divide => (left * 100) / right,
    }
}

/// The message with which a challenge is refused, if it is.
pub open spec fn challenge_error(left: i64, right: i64, op: MathOperator) -> Option<Seq<char>> {
    if op == MathOperator::Divide && right == 0 {
        Some("verification_divide_by_zero"@)
    } else if op == MathOperator::Divide && !exact_two_decimal(left as int, right as int) {
        Some("verification_division_not_exact_two_decimals"@)
    } else if !(0 <= left <= 999) || !(0 <= right <= 999) {
        Some("verification_number_out_of_range"@)
    } else {
        None
    }
}

/// The challenge sentence for the operands and operation, before rendering.
pub open spec fn plain_challenge(left: i64, right: i64, op: MathOperator) -> Seq<char> {
    challenge_template_spec(number_words(left as int), number_words(right as int), op)
}

/// The challenge for operands and an operation that are accepted.
fn build_challenge(
    left: i64,
    right: i64,
    left_words: String,
    right_words: String,
    op: MathOperator,
    seed: i64,
) -> (g: GeneratedChallenge)
    requires
        challenge_error(left, right, op) is None,
        left_words@ == number_words(left as int),
        right_words@ == number_words(right as int),
    ensures
        g.challenge_text@ == obfuscate_text_spec(plain_challenge(left, right, op), seed),
        g.expected_answer@ == two_decimal_text(exact_hundredths(left as int, right as int, op)),
        g.generator_version@ == "v1"@,
        g.generator_seed == seed,
        no_ascii_digit(g.challenge_text@),
        contains_run(g.challenge_text@, keyword_chars(op)),
{
    let plain = challenge_template(left_words, right_words, op);
    let rendered = obfuscate_text(plain.as_str(), seed);
    let hundredths = answer_hundredths(left, right, op);
    proof {
        lemma_number_words_no_digit(left as int);
        lemma_number_words_no_digit(right as int);
        lemma_challenge_text_laws(number_words(left as int), number_words(right as int), op, seed);
    }
    let answer = format_hundredths(hundredths);
    GeneratedChallenge {
        challenge_text: rendered,
        expected_answer: string_of(&answer),
        generator_version: String::from_str("v1"),
        generator_seed: seed,
    }
}

pub fn generate_challenge_text(left: i64, right: i64, op: MathOperator, seed: i64) -> (res: Result<
    GeneratedChallenge,
    ForumError,
>)
    ensures
        res is Err <==> challenge_error(left, right, op) is Some,
        res matches Err(ForumError::Validation(m)) ==> Some(m@) == challenge_error(left, right, op),
        res matches Ok(g) ==> {
            &&& g.challenge_text@ == obfuscate_text_spec(plain_challenge(left, right, op), seed)
            &&& g.expected_answer@ == two_decimal_text(
                exact_hundredths(left as int, right as int, op),
            )
            &&& g.generator_version@ == "v1"@
            &&& g.generator_seed == seed
            &&& no_ascii_digit(g.challenge_text@)
            &&& contains_run(g.challenge_text@, keyword_chars(op))
        },
{
    if op == MathOperator::Divide && right == 0 {
        return Err(ForumError::Validation(String::from_str("verification_divide_by_zero")));
    }
    if op == MathOperator::Divide && !has_exact_two_decimal_result(left, right) {
        return Err(
            ForumError::Validation(String::from_str("verification_division_not_exact_two_decimals")),
        );
    }
    let left_words = match number_to_words(left) {
        Ok(words) => words,
        Err(e) => {
            return Err(e);
        },
    };
    let right_words = match number_to_words(right) {
        Ok(words) => words,
        Err(e) => {
            return Err(e);
        },
    };
    Ok(build_challenge(left, right, left_words, right_words, op, seed))
}

// ---------------------------------------------------------------------------
// Laws of the rendered challenge
// ---------------------------------------------------------------------------

proof fn lemma_no_digit_concat(a: Seq<char>, b: Seq<char>)
    requires
        no_ascii_digit(a),
        no_ascii_digit(b),
    ensures
        no_ascii_digit(a + b),
{
    let s = a + b;
    assert forall|i: int| 0 <= i < s.len() implies !is_ascii_digit(#[trigger] s[i]) by {
        if i < a.len() {
            assert(s[i] == a[i]);
        } else {
            assert(s[i] == b[i - a.len()]);
        }
    }
}

proof fn lemma_template_parts_no_digit(lw: Seq<char>, rw: Seq<char>, op: MathOperator)
    requires
        no_ascii_digit(lw),
        no_ascii_digit(rw),
    ensures
        no_ascii_digit(template_prefix(lw, rw, op)),
        no_ascii_digit(template_token(op)),
        no_ascii_digit(template_suffix(rw, op)),
{
    reveal_strlit("A lobster drifts with ");
    reveal_strlit(" shells");
    reveal_strlit("A lobster carries ");
    reveal_strlit(" pebbles and the current");
    reveal_strlit("A lobster taps ");
    reveal_strlit(" fins ");
    reveal_strlit("A lobster keeps ");
    reveal_strlit(" pearls");
    reveal_strlit(".");
    reveal_strlit("with ");
    reveal_strlit(" more. What is the result?");
    reveal_strlit("by ");
    reveal_strlit(". What is the result?");
    reveal_strlit("What is the result?");
    reveal_strlit("among ");
    reveal_strlit(" tide pools. What is the result?");
    lemma_keyword_letters(op);
    match op {
        MathOperator::Add => {
            lemma_no_digit_concat("A lobster drifts with "@, lw);
            lemma_no_digit_concat("A lobster drifts with "@ + lw, " shells"@);
            lemma_no_digit_concat("with "@, rw);
            lemma_no_digit_concat("with "@ + rw, " more. What is the result?"@);
        },
        MathOperator::Subtract => {
            lemma_no_digit_concat("A lobster carries "@, lw);
            lemma_no_digit_concat("A lobster carries "@ + lw, " pebbles and the current"@);
            lemma_no_digit_concat("by "@, rw);
            lemma_no_digit_concat("by "@ + rw, ". What is the result?"@);
        },
        MathOperator::Multiply => {
            lemma_no_digit_concat("A lobster taps "@, lw);
            lemma_no_digit_concat("A lobster taps "@ + lw, " fins "@);
            lemma_no_digit_concat("A lobster taps "@ + lw + " fins "@, rw);
            lemma_no_digit_concat(keyword_chars(op), "."@);
        },
        MathOperator::Divide => {
            lemma_no_digit_concat("A lobster keeps "@, lw);
            lemma_no_digit_concat("A lobster keeps "@ + lw, " pearls"@);
            lemma_no_digit_concat("among "@, rw);
            lemma_no_digit_concat("among "@ + rw, " tide pools. What is the result?"@);
        },
    }
}

/// The token that carries the keyword is a semantic anchor.
proof fn lemma_token_is_anchor(op: MathOperator)
    ensures
        template_token(op).len() > 0,
        no_whitespace(template_token(op)),
        semantic_anchor(template_token(op)),
        template_token(op) == keyword_chars(op) + (if op == MathOperator::Multiply {
            "."@
        } else {
            Seq::<char>::empty()
        }),
{
    reveal_strlit(".");
    lemma_keyword_letters(op);
    let k = keyword_chars(op);
    let t = template_token(op);
    assert(t =~= k + (if op == MathOperator::Multiply {
        "."@
    } else {
        Seq::<char>::empty()
    }));
    assert forall|i: int| 0 <= i < t.len() implies !is_whitespace(#[trigger] t[i]) by {
        if i < k.len() {
            assert(t[i] == k[i]);
        }
    }
    assert(is_ascii_alpha(k[0]));
    assert(t[0] == k[0]);
    assert(trim_start_nonalpha(t) == t);
    if op == MathOperator::Multiply {
        assert(!is_ascii_alpha(t.last()));
        assert(t.drop_last() =~= k);
        assert(is_ascii_alpha(k.last()));
        assert(trim_end_nonalpha(t) == trim_end_nonalpha(k));
    }
    assert(is_ascii_alpha(k.last()));
    assert(trim_end_nonalpha(k) == k);
    assert(trim_nonalpha(t) == k);
    assert(lower_all(k) =~= k);
}

/// For operand words without digits, the rendered challenge contains no
/// ASCII digit and contains the operation keyword, whatever the seed.
pub proof fn lemma_challenge_text_laws(lw: Seq<char>, rw: Seq<char>, op: MathOperator, seed: i64)
    requires
        no_ascii_digit(lw),
        no_ascii_digit(rw),
    ensures
        no_ascii_digit(obfuscate_text_spec(challenge_template_spec(lw, rw, op), seed)),
        contains_run(
            obfuscate_text_spec(challenge_template_spec(lw, rw, op), seed),
            keyword_chars(op),
        ),
{
    let p = template_prefix(lw, rw, op);
    let t = template_token(op);
    let q = template_suffix(rw, op);
    let plain = challenge_template_spec(lw, rw, op);
    lemma_template_parts_no_digit(lw, rw, op);
    lemma_token_is_anchor(op);
    lemma_no_digit_concat(p, seq![' ']);
    lemma_no_digit_concat(p + seq![' '], t);
    lemma_no_digit_concat(p + seq![' '] + t, seq![' ']);
    lemma_no_digit_concat(p + seq![' '] + t + seq![' '], q);
    lemma_obfuscate_text_no_digit(plain, seed);
    lemma_split_ws_isolated_token(p, t, q);
    let i = split_ws(p).len() as int;
    assert(split_ws(plain)[i] == t);
    lemma_obfuscate_text_keeps_anchor(plain, seed, i);
    let rest = if op == MathOperator::Multiply {
        "."@
    } else {
        Seq::<char>::empty()
    };
    lemma_contains_prefix(obfuscate_text_spec(plain, seed), keyword_chars(op), rest);
}

/// An accepted division has an answer that, times the divisor, gives back
/// the dividend exactly.
pub proof fn lemma_division_answer_exact(left: int, right: int)
    requires
        right != 0,
        (left * 100) % right == 0,
    ensures
        exact_hundredths(left, right, MathOperator::Divide) * right == left * 100,
{
    vstd::arithmetic::div_mod::lemma_fundamental_div_mod(left * 100, right);
    assert(right * ((left * 100) / right) == ((left * 100) / right) * right) by (nonlinear_arith);
}

/// A challenge is refused exactly when an operand lies outside `0..=999`,
/// or the operation is a division by zero or one whose quotient is not a
/// whole number of hundredths; every other request is accepted, whatever
/// the size of its result.
pub proof fn lemma_accepted_challenges(left: i64, right: i64, op: MathOperator)
    ensures
        challenge_error(left, right, op) is None <==> {
            &&& 0 <= left <= 999
            &&& 0 <= right <= 999
            &&& op == MathOperator::Divide ==> right != 0 && (left * 100) % (right as int) == 0
        },
{
}

/// The answer of an accepted challenge, in hundredths, is exactly the
/// result of the operation: the sum, the difference, the product, or the
/// quotient (which times the divisor gives back the dividend).
pub proof fn lemma_answer_is_the_result(left: i64, right: i64, op: MathOperator)
    requires
        challenge_error(left, right, op) is None,
    ensures
        op == MathOperator::Add ==> exact_hundredths(left as int, right as int, op) == (left + right)
            * 100,
        op == MathOperator::Subtract ==> exact_hundredths(left as int, right as int, op) == (left
            - right) * 100,
        op == MathOperator::Multiply ==> exact_hundredths(left as int, right as int, op) == left
            * right * 100,
        op == MathOperator::Divide ==> exact_hundredths(left as int, right as int, op) * right
            == left * 100,
{
    lemma_accepted_challenges(left, right, op);
    if op == MathOperator::Divide {
        lemma_division_answer_exact(left as int, right as int);
    }
}

/// The plain sentence names both operands in words, the left one before the
/// right one, so the question can be read off the challenge.
pub proof fn lemma_plain_challenge_names_operands(lw: Seq<char>, rw: Seq<char>, op: MathOperator)
    ensures
        ({
            let plain = challenge_template_spec(lw, rw, op);
            exists|p: int, q: int|
                #![trigger plain.subrange(p, p + lw.len()), plain.subrange(q, q + rw.len())]
                0 <= p && p + lw.len() <= q && q + rw.len() <= plain.len()
                    && plain.subrange(p, p + lw.len()) == lw && plain.subrange(q, q + rw.len()) == rw
        }),
{
    let plain = challenge_template_spec(lw, rw, op);
    let head: Seq<char> = match op {
        MathOperator::Add => "A lobster drifts with "@,
        MathOperator::Subtract => "A lobster carries "@,
        MathOperator::Multiply => "A lobster taps "@,
        MathOperator::Divide => "A lobster keeps "@,
    };
    let middle: Seq<char> = match op {
        MathOperator::Add => " shells"@ + seq![' '] + template_token(op) + seq![' '] + "with "@,
        MathOperator::Subtract => " pebbles and the current"@ + seq![' '] + template_token(op)
            + seq![' '] + "by "@,
        MathOperator::Multiply => " fins "@,
        MathOperator::Divide => " pearls"@ + seq![' '] + template_token(op) + seq![' ']
            + "among "@,
    };
    let tail: Seq<char> = match op {
        MathOperator::Add => " more. What is the result?"@,
        MathOperator::Subtract => ". What is the result?"@,
        MathOperator::Multiply => seq![' '] + template_token(op) + seq![' ']
            + "What is the result?"@,
        MathOperator::Divide => " tide pools. What is the result?"@,
    };
    assert(plain =~= head + lw + middle + rw + tail);
    let p = head.len() as int;
    let q = p + lw.len() + middle.len();
    assert(plain.subrange(p, p + lw.len()) =~= lw);
    assert(plain.subrange(q, q + rw.len()) =~= rw);
}

/// Every accepted challenge names both of its operands in English words,
/// the left one first.
pub proof fn lemma_challenge_names_its_operands(left: i64, right: i64, op: MathOperator)
    requires
        challenge_error(left, right, op) is None,
    ensures
        contains_run(plain_challenge(left, right, op), number_words(left as int)),
        contains_run(plain_challenge(left, right, op), number_words(right as int)),
{
    let lw = number_words(left as int);
    let rw = number_words(right as int);
    let plain = plain_challenge(left, right, op);
    lemma_plain_challenge_names_operands(lw, rw, op);
    let (p, q) = choose|p: int, q: int|
        #![trigger plain.subrange(p, p + lw.len()), plain.subrange(q, q + rw.len())]
        0 <= p && p + lw.len() <= q && q + rw.len() <= plain.len()
            && plain.subrange(p, p + lw.len()) == lw && plain.subrange(q, q + rw.len()) == rw;
    assert(plain.subrange(p, p + lw.len()) == lw);
    assert(plain.subrange(q, q + rw.len()) == rw);
}

} // verus!
