//! Rendering a plain challenge sentence into noisy text: each word that is
//! not an operation keyword is fragmented, re-cased, and sometimes
//! misspelled, decorated with noise or given a repeated letter, all driven
//! by the seeded generator so that a seed always gives the same text.
use vstd::prelude::*;
use vstd::utf8::{decode_utf8, encode_utf8, is_char_boundary};
use crate::operator::{keyword_chars, MathOperator};
use crate::rng::{rng_advance, rng_flip, rng_output, rng_seed_state, DeterministicRng};
use crate::text::{
    contains_run, is_ascii_digit, lemma_case_maps_keep_non_digits, lemma_lower_all_no_digit, no_ascii_digit,
    ascii_lower, ascii_upper, chars_equal, chars_of, extend_chars, is_ascii_lower,
    is_ascii_upper, lower_all, lower_chars,
    string_of, to_upper_char, upper_all, upper_chars,
};
use crate::tokens::{
    join_space, join_ws, lemma_join_contains, lemma_join_no_digit, lemma_split_ws_no_digit,
    split_whitespace_chars, split_ws, trim_nonalpha, trim_nonalpha_chars,
};

verus! {

// ---------------------------------------------------------------------------
// The transformations
// ---------------------------------------------------------------------------

/// A word of at least six bytes is, on an even draw, cut in half (by its
/// UTF-8 length) with a hyphen, provided the half falls on a character
/// boundary.
pub open spec fn fragmentation(w: Seq<char>, st: u64) -> (Seq<char>, u64) {
    let bytes = encode_utf8(w);
    let mid = bytes.len() / 2;
    if bytes.len() < 6 {
        (w, st)
    } else {
        let (go, st2) = rng_flip(st, 2);
        if !go || !is_char_boundary(bytes, mid as int) {
            (w, st2)
        } else {
            (decode_utf8(bytes.subrange(0, mid as int)) + seq!['-'] + decode_utf8(
                bytes.subrange(mid as int, bytes.len() as int),
            ), st2)
        }
    }
}

/// Upper-case first letter, the rest lower case (ASCII letters only).
pub open spec fn capitalized(w: Seq<char>) -> Seq<char> {
    if w.len() == 0 {
        seq![]
    } else {
        seq![ascii_upper(w[0])] + lower_all(w.drop_first())
    }
}

/// All lower case, all upper case or capitalized, by the next draw modulo 3.
pub open spec fn case_variation(w: Seq<char>, st: u64) -> (Seq<char>, u64) {
    let r = rng_output(st) % 3;
    (
        if r == 0 {
            lower_all(w)
        } else if r == 1 {
            upper_all(w)
        } else {
            capitalized(w)
        },
        rng_advance(st),
    )
}

/// The noise suffixes, chosen by the next draw modulo 4.
pub open spec fn noise_suffix(i: int) -> Seq<char> {
    if i == 0 {
        seq!['.', '.', '.']
    } else if i == 1 {
        seq!['!', '!']
    } else if i == 2 {
        seq!['?', '?']
    } else {
        seq!['~']
    }
}

pub open spec fn noise(w: Seq<char>, st: u64) -> (Seq<char>, u64) {
    (w + noise_suffix((rng_output(st) % 4) as int), rng_advance(st))
}

/// The character at a drawn position is written two or three times.
pub open spec fn repetition(w: Seq<char>, st: u64) -> (Seq<char>, u64) {
    if w.len() < 2 {
        (w, st)
    } else {
        let idx = (rng_output(st) as int) % (w.len() as int);
        let (two, st2) = rng_flip(rng_advance(st), 2);
        let count: nat = if two {
            2
        } else {
            3
        };
        (w.take(idx) + Seq::new(count, |k: int| w[idx]) + w.skip(idx + 1), st2)
    }
}

/// Two neighbouring characters are swapped, at a drawn position of at least one.
pub open spec fn misspelling(w: Seq<char>, st: u64) -> (Seq<char>, u64) {
    if w.len() < 3 {
        (w, st)
    } else {
        let raw = (rng_output(st) as int) % (w.len() - 1);
        let idx = if raw < 1 {
            1
        } else {
            raw
        };
        (w.update(idx - 1, w[idx]).update(idx, w[idx - 1]), rng_advance(st))
    }
}

/// A word is a semantic anchor when, stripped of non-letters at both ends
/// and lower-cased, it is one of the operation keywords.
pub open spec fn semantic_anchor(w: Seq<char>) -> bool {
    let n = lower_all(trim_nonalpha(w));
    ||| n == keyword_chars(MathOperator::Add)
    ||| n == keyword_chars(MathOperator::Subtract)
    ||| n == keyword_chars(MathOperator::Multiply)
    ||| n == keyword_chars(MathOperator::Divide)
}

/// One word, and the generator state after it.
pub open spec fn obfuscate_word_spec(w: Seq<char>, st: u64) -> (Seq<char>, u64) {
    if semantic_anchor(w) {
        (w, st)
    } else {
        let (v1, s1) = fragmentation(w, st);
        let (v2, s2) = case_variation(v1, s1);
        let (m, s3) = rng_flip(s2, 3);
        let (v3, s4) = if m {
            misspelling(v2, s3)
        } else {
            (v2, s3)
        };
        let (n, s5) = rng_flip(s4, 4);
        let (v4, s6) = if n {
            noise(v3, s5)
        } else {
            (v3, s5)
        };
        let (r, s7) = rng_flip(s6, 5);
        if r {
            repetition(v4, s7)
        } else {
            (v4, s7)
        }
    }
}

/// The first `n` words rendered in order with one generator threaded through.
pub open spec fn obfuscate_prefix(words: Seq<Seq<char>>, n: nat, st: u64) -> (
    Seq<Seq<char>>,
    u64,
)
    decreases n,
{
    if n == 0 {
        (seq![], st)
    } else {
        let (p, s) = obfuscate_prefix(words, (n - 1) as nat, st);
        let (w, s2) = obfuscate_word_spec(words[n - 1], s);
        (p.push(w), s2)
    }
}

/// The whole text: split on white space, render each word, join with spaces.
pub open spec fn obfuscate_text_spec(s: Seq<char>, seed: i64) -> Seq<char> {
    let words = split_ws(s);
    join_ws(obfuscate_prefix(words, words.len(), rng_seed_state(seed)).0)
}

// ---------------------------------------------------------------------------
// Implementations
// ---------------------------------------------------------------------------

pub fn apply_fragmentation(word: &str, rng: &mut DeterministicRng) -> (out: String)
    ensures
        (out@, final(rng).state) == fragmentation(word@, old(rng).state),
{
    let bytes = word.as_bytes();
    let n = bytes.len();
    if n < 6 || !rng.next_bool(2) {
        return String::from_str(word);
    }
    let split_at = n / 2;
    if !word.is_char_boundary(split_at) {
        return String::from_str(word);
    }
    let (a, b) = word.split_at(split_at);
    let mut out = String::from_str(a);
    out.append("-");
    out.append(b);
    proof {
        reveal_strlit("-");
        vstd::utf8::encode_utf8_decode_utf8(a@);
        vstd::utf8::encode_utf8_decode_utf8(b@);
    }
    out
}

/// Upper-cases the first character and lower-cases the rest.
fn capitalize_chars(word: &Vec<char>) -> (out: Vec<char>)
    ensures
        out@ == capitalized(word@),
{
    if word.len() == 0 {
        return Vec::new();
    }
    let mut rest: Vec<char> = Vec::new();
    let mut i: usize = 1;
    while i < word.len()
        invariant
            1 <= i <= word.len(),
            rest@ == word@.subrange(1, i as int),
        decreases word.len() - i,
    {
        rest.push(word[i]);
        i = i + 1;
        assert(rest@ =~= word@.subrange(1, i as int));
    }
    assert(rest@ =~= word@.drop_first());
    let mut out: Vec<char> = Vec::new();
    out.push(to_upper_char(word[0]));
    let lowered = lower_chars(&rest);
    extend_chars(&mut out, &lowered);
    out
}

pub fn apply_case_variation(word: &str, rng: &mut DeterministicRng) -> (out: String)
    ensures
        (out@, final(rng).state) == case_variation(word@, old(rng).state),
{
    let chars = chars_of(word);
    let r = rng.next_u32() % 3;
    let varied = if r == 0 {
        lower_chars(&chars)
    } else if r == 1 {
        upper_chars(&chars)
    } else {
        capitalize_chars(&chars)
    };
    string_of(&varied)
}

pub fn apply_noise(word: &str, rng: &mut DeterministicRng) -> (out: String)
    ensures
        (out@, final(rng).state) == noise(word@, old(rng).state),
{
    let i = (rng.next_u32() as usize) % 4;
    proof {
        reveal_strlit("...");
        reveal_strlit("!!");
        reveal_strlit("??");
        reveal_strlit("~");
    }
    let suffix: &str = if i == 0 {
        "..."
    } else if i == 1 {
        "!!"
    } else if i == 2 {
        "??"
    } else {
        "~"
    };
    assert(suffix@ =~= noise_suffix(i as int));
    let mut out = String::from_str(word);
    out.append(suffix);
    out
}

pub fn apply_repetition(word: &str, rng: &mut DeterministicRng) -> (out: String)
    ensures
        (out@, final(rng).state) == repetition(word@, old(rng).state),
{
    let chars = chars_of(word);
    if chars.len() < 2 {
        return String::from_str(word);
    }
    let index = (rng.next_u32() as usize) % chars.len();
    let repeat_count: usize = if rng.next_bool(2) {
        2
    } else {
        3
    };
    let ghost count: nat = repeat_count as nat;
    let c = chars[index];
    let mut out: Vec<char> = Vec::new();
    let mut i: usize = 0;
    while i < index
        invariant
            i <= index < chars.len(),
            out@ == chars@.take(i as int),
        decreases index - i,
    {
        out.push(chars[i]);
        i = i + 1;
        assert(out@ =~= chars@.take(i as int));
    }
    let mut k: usize = 0;
    while k < repeat_count
        invariant
            k <= repeat_count <= 3,
            index < chars.len(),
            c == chars@[index as int],
            out@ == chars@.take(index as int) + Seq::new(k as nat, |j: int| chars@[index as int]),
        decreases repeat_count - k,
    {
        out.push(c);
        k = k + 1;
        assert(out@ =~= chars@.take(index as int) + Seq::new(
            k as nat,
            |j: int| chars@[index as int],
        ));
    }
    let mut j: usize = index + 1;
    while j < chars.len()
        invariant
            index < j <= chars.len(),
            out@ == chars@.take(index as int) + Seq::new(
                repeat_count as nat,
                |q: int| chars@[index as int],
            ) + chars@.subrange(index + 1, j as int),
        decreases chars.len() - j,
    {
        out.push(chars[j]);
        j = j + 1;
        assert(out@ =~= chars@.take(index as int) + Seq::new(
            repeat_count as nat,
            |q: int| chars@[index as int],
        ) + chars@.subrange(index + 1, j as int));
    }
    assert(chars@.subrange(index + 1, chars.len() as int) =~= chars@.skip(index + 1));
    string_of(&out)
}

pub fn apply_misspelling(word: &str, rng: &mut DeterministicRng) -> (out: String)
    ensures
        (out@, final(rng).state) == misspelling(word@, old(rng).state),
{
    let mut chars = chars_of(word);
    if chars.len() < 3 {
        return String::from_str(word);
    }
    let raw = (rng.next_u32() as usize) % (chars.len() - 1);
    let index = if raw < 1 {
        1
    } else {
        raw
    };
    let first = chars[index - 1];
    let second = chars[index];
    chars.set(index - 1, second);
    chars.set(index, first);
    string_of(&chars)
}

pub fn is_semantic_anchor(word: &str) -> (r: bool)
    ensures
        r == semantic_anchor(word@),
{
    let chars = chars_of(word);
    let trimmed = trim_nonalpha_chars(&chars);
    let normalized = lower_chars(&trimmed);
    let add = chars_of(MathOperator::Add.keyword());
    let sub = chars_of(MathOperator::Subtract.keyword());
    let mul = chars_of(MathOperator::Multiply.keyword());
    let div = chars_of(MathOperator::Divide.keyword());
    chars_equal(&normalized, &add) || chars_equal(&normalized, &sub) || chars_equal(
        &normalized,
        &mul,
    ) || chars_equal(&normalized, &div)
}

pub fn obfuscate_word(word: &str, rng: &mut DeterministicRng) -> (out: String)
    ensures
        (out@, final(rng).state) == obfuscate_word_spec(word@, old(rng).state),
{
    if is_semantic_anchor(word) {
        return String::from_str(word);
    }
    let mut value = apply_fragmentation(word, rng);
    value = apply_case_variation(value.as_str(), rng);
    if rng.next_bool(3) {
        value = apply_misspelling(value.as_str(), rng);
    }
    if rng.next_bool(4) {
        value = apply_noise(value.as_str(), rng);
    }
    if rng.next_bool(5) {
        value = apply_repetition(value.as_str(), rng);
    }
    value
}

pub fn obfuscate_text(input: &str, seed: i64) -> (out: String)
    ensures
        out@ == obfuscate_text_spec(input@, seed),
{
    let mut rng = DeterministicRng::new(seed);
    let chars = chars_of(input);
    let words = split_whitespace_chars(&chars);
    let ghost all = words@.map_values(|t: Vec<char>| t@);
    let mut rendered: Vec<Vec<char>> = Vec::new();
    let mut i: usize = 0;
    let ghost st0 = rng_seed_state(seed);
    assert(rendered@.map_values(|t: Vec<char>| t@) =~= Seq::<Seq<char>>::empty());
    while i < words.len()
        invariant
            i <= words.len(),
            all == words@.map_values(|t: Vec<char>| t@),
            all == split_ws(input@),
            rendered@.map_values(|t: Vec<char>| t@) == obfuscate_prefix(all, i as nat, st0).0,
            rng.state == obfuscate_prefix(all, i as nat, st0).1,
        decreases words.len() - i,
    {
        let ghost before = rendered@.map_values(|t: Vec<char>| t@);
        let ghost st_before = rng.state;
        assert(words@[i as int]@ == all[i as int]);
        let word = string_of(&words[i]);
        let w = obfuscate_word(word.as_str(), &mut rng);
        let w_chars = chars_of(w.as_str());
        let ghost wv = w_chars@;
        rendered.push(w_chars);
        assert(rendered@.map_values(|t: Vec<char>| t@) =~= before.push(wv));
        assert(obfuscate_prefix(all, (i + 1) as nat, st0) == (before.push(wv), rng.state)) by {
            assert(obfuscate_prefix(all, (i + 1) as nat, st0).0 == obfuscate_prefix(
                all,
                i as nat,
                st0,
            ).0.push(obfuscate_word_spec(all[i as int], st_before).0));
        }
        i = i + 1;
    }
    let joined = join_space(&rendered);
    string_of(&joined)
}

// ---------------------------------------------------------------------------
// What the transformations keep
// ---------------------------------------------------------------------------

/// When a word is cut, the two halves are exactly the word.
pub proof fn lemma_fragmentation_halves(w: Seq<char>)
    requires
        is_char_boundary(encode_utf8(w), (encode_utf8(w).len() / 2) as int),
    ensures
        ({
            let bytes = encode_utf8(w);
            let mid = (bytes.len() / 2) as int;
            decode_utf8(bytes.subrange(0, mid)) + decode_utf8(bytes.subrange(mid, bytes.len() as int))
                == w
        }),
{
    let bytes = encode_utf8(w);
    let mid = (bytes.len() / 2) as int;
    vstd::utf8::encode_utf8_valid_utf8(w);
    vstd::utf8::decode_utf8_split(bytes, mid);
    vstd::utf8::encode_utf8_decode_utf8(w);
}

pub proof fn lemma_fragmentation_no_digit(w: Seq<char>, st: u64)
    requires
        no_ascii_digit(w),
    ensures
        no_ascii_digit(fragmentation(w, st).0),
{
    let bytes = encode_utf8(w);
    let mid = (bytes.len() / 2) as int;
    let (go, st2) = rng_flip(st, 2);
    if bytes.len() >= 6 && go && is_char_boundary(bytes, mid) {
        lemma_fragmentation_halves(w);
        let a = decode_utf8(bytes.subrange(0, mid));
        let b = decode_utf8(bytes.subrange(mid, bytes.len() as int));
        let r = a + seq!['-'] + b;
        assert forall|i: int| 0 <= i < r.len() implies !is_ascii_digit(#[trigger] r[i]) by {
            if i < a.len() {
                assert(r[i] == w[i]);
            } else if i > a.len() {
                assert(r[i] == w[i - 1]);
            }
        }
    }
}

pub proof fn lemma_case_variation_no_digit(w: Seq<char>, st: u64)
    requires
        no_ascii_digit(w),
    ensures
        no_ascii_digit(case_variation(w, st).0),
{
    lemma_lower_all_no_digit(w);
    if w.len() > 0 {
        let rest = w.drop_first();
        assert(no_ascii_digit(rest)) by {
            assert forall|i: int| 0 <= i < rest.len() implies !is_ascii_digit(#[trigger] rest[i]) by {
                assert(rest[i] == w[i + 1]);
            }
        }
        lemma_lower_all_no_digit(rest);
        lemma_case_maps_keep_non_digits(w[0]);
        let c = capitalized(w);
        assert forall|i: int| 0 <= i < c.len() implies !is_ascii_digit(#[trigger] c[i]) by {
            if i > 0 {
                assert(c[i] == lower_all(rest)[i - 1]);
            }
        }
    }
}

pub proof fn lemma_noise_no_digit(w: Seq<char>, st: u64)
    requires
        no_ascii_digit(w),
    ensures
        no_ascii_digit(noise(w, st).0),
{
    let suffix = noise_suffix((rng_output(st) % 4) as int);
    let r = w + suffix;
    assert forall|i: int| 0 <= i < r.len() implies !is_ascii_digit(#[trigger] r[i]) by {
        if i >= w.len() {
            assert(r[i] == suffix[i - w.len()]);
        }
    }
}

pub proof fn lemma_misspelling_no_digit(w: Seq<char>, st: u64)
    requires
        no_ascii_digit(w),
    ensures
        no_ascii_digit(misspelling(w, st).0),
{
}

/// Repetition only re-uses characters of the word, and lengthens any word
/// of two or more characters.
pub proof fn lemma_repetition_stays_in_word(w: Seq<char>, st: u64)
    ensures
        forall|i: int|
            0 <= i < repetition(w, st).0.len() ==> w.contains(#[trigger] repetition(w, st).0[i]),
        w.len() >= 2 ==> repetition(w, st).0.len() > w.len(),
        w.len() >= 2 ==> repetition(w, st).0.len() <= w.len() + 2,
{
    if w.len() >= 2 {
        let idx = (rng_output(st) as int) % (w.len() as int);
        let (two, st2) = rng_flip(rng_advance(st), 2);
        let count: nat = if two {
            2
        } else {
            3
        };
        let mid = Seq::new(count, |k: int| w[idx]);
        let r = w.take(idx) + mid + w.skip(idx + 1);
        assert(r == repetition(w, st).0);
        assert forall|i: int| 0 <= i < r.len() implies w.contains(#[trigger] r[i]) by {
            if i < idx {
                assert(r[i] == w[i]);
            } else if i < idx + count {
                assert(r[i] == w[idx]);
            } else {
                assert(r[i] == w[i - count + 1]);
            }
        }
    } else {
        assert forall|i: int| 0 <= i < w.len() implies w.contains(#[trigger] w[i]) by {
        }
    }
}

pub proof fn lemma_repetition_no_digit(w: Seq<char>, st: u64)
    requires
        no_ascii_digit(w),
    ensures
        no_ascii_digit(repetition(w, st).0),
{
    lemma_repetition_stays_in_word(w, st);
    let r = repetition(w, st).0;
    assert forall|i: int| 0 <= i < r.len() implies !is_ascii_digit(#[trigger] r[i]) by {
        assert(w.contains(r[i]));
        let j = choose|j: int| 0 <= j < w.len() && w[j] == r[i];
    }
}

/// Rendering a word never introduces an ASCII digit.
pub proof fn lemma_obfuscate_word_no_digit(w: Seq<char>, st: u64)
    requires
        no_ascii_digit(w),
    ensures
        no_ascii_digit(obfuscate_word_spec(w, st).0),
{
    if !semantic_anchor(w) {
        let (v1, s1) = fragmentation(w, st);
        lemma_fragmentation_no_digit(w, st);
        let (v2, s2) = case_variation(v1, s1);
        lemma_case_variation_no_digit(v1, s1);
        let (m, s3) = rng_flip(s2, 3);
        lemma_misspelling_no_digit(v2, s3);
        let (v3, s4) = if m {
            misspelling(v2, s3)
        } else {
            (v2, s3)
        };
        let (n, s5) = rng_flip(s4, 4);
        lemma_noise_no_digit(v3, s5);
        let (v4, s6) = if n {
            noise(v3, s5)
        } else {
            (v3, s5)
        };
        let (r, s7) = rng_flip(s6, 5);
        lemma_repetition_no_digit(v4, s7);
    }
}

/// Rendering a list of words keeps its length, leaves every anchor word as it
/// was, and never introduces an ASCII digit into a word.
pub proof fn lemma_obfuscate_prefix(words: Seq<Seq<char>>, n: nat, st: u64)
    requires
        n <= words.len(),
    ensures
        obfuscate_prefix(words, n, st).0.len() == n,
        forall|k: int|
            0 <= k < n && semantic_anchor(words[k]) ==> #[trigger] obfuscate_prefix(
                words,
                n,
                st,
            ).0[k] == words[k],
        forall|k: int|
            0 <= k < n && no_ascii_digit(words[k]) ==> no_ascii_digit(
                #[trigger] obfuscate_prefix(words, n, st).0[k],
            ),
    decreases n,
{
    if n > 0 {
        lemma_obfuscate_prefix(words, (n - 1) as nat, st);
        let (p, s) = obfuscate_prefix(words, (n - 1) as nat, st);
        let out = obfuscate_prefix(words, n, st).0;
        if no_ascii_digit(words[n - 1]) {
            lemma_obfuscate_word_no_digit(words[n - 1], s);
        }
        assert forall|k: int| 0 <= k < n - 1 implies #[trigger] out[k] == p[k] by {
        }
    }
}

/// Rendering a text never introduces an ASCII digit.
pub proof fn lemma_obfuscate_text_no_digit(s: Seq<char>, seed: i64)
    requires
        no_ascii_digit(s),
    ensures
        no_ascii_digit(obfuscate_text_spec(s, seed)),
{
    let words = split_ws(s);
    let st = rng_seed_state(seed);
    lemma_split_ws_no_digit(seq![], s);
    lemma_obfuscate_prefix(words, words.len(), st);
    let out = obfuscate_prefix(words, words.len(), st).0;
    assert forall|k: int| 0 <= k < out.len() implies no_ascii_digit(#[trigger] out[k]) by {
        assert(no_ascii_digit(words[k]));
    }
    lemma_join_no_digit(out);
}

/// Every word of a text that is a semantic anchor appears unchanged in the
/// rendered text, whatever the seed.
pub proof fn lemma_obfuscate_text_keeps_anchor(s: Seq<char>, seed: i64, i: int)
    requires
        0 <= i < split_ws(s).len(),
        semantic_anchor(split_ws(s)[i]),
    ensures
        contains_run(obfuscate_text_spec(s, seed), split_ws(s)[i]),
{
    let words = split_ws(s);
    let st = rng_seed_state(seed);
    lemma_obfuscate_prefix(words, words.len(), st);
    let out = obfuscate_prefix(words, words.len(), st).0;
    assert(out[i] == words[i]);
    lemma_join_contains(out, i);
}

/// A misspelling swaps two neighbouring characters and changes nothing
/// else: the word keeps its length and every other character, and a word
/// of fewer than three characters is left alone.
pub proof fn lemma_misspelling_swaps_neighbours(w: Seq<char>, st: u64)
    ensures
        misspelling(w, st).0.len() == w.len(),
        w.len() < 3 ==> misspelling(w, st).0 == w,
        w.len() >= 3 ==> exists|i: int|
            #![trigger misspelling(w, st).0[i]]
            1 <= i < w.len() && misspelling(w, st).0[i - 1] == w[i] && misspelling(w, st).0[i]
                == w[i - 1] && forall|k: int|
                0 <= k < w.len() && k != i - 1 && k != i ==> #[trigger] misspelling(w, st).0[k]
                    == w[k],
{
    if w.len() >= 3 {
        let raw = (rng_output(st) as int) % (w.len() - 1);
        let idx = if raw < 1 {
            1
        } else {
            raw
        };
        assert(1 <= idx < w.len());
        let r = misspelling(w, st).0;
        assert(r[idx - 1] == w[idx] && r[idx] == w[idx - 1]);
    }
}

/// Case variation changes only the case of ASCII letters: the word keeps its
/// length, and folded to lower case it is the word folded to lower case.
pub proof fn lemma_case_variation_only_recases(w: Seq<char>, st: u64)
    ensures
        case_variation(w, st).0.len() == w.len(),
        lower_all(case_variation(w, st).0) == lower_all(w),
{
    let r = case_variation(w, st).0;
    assert forall|i: int| 0 <= i < w.len() implies #[trigger] ascii_lower(ascii_upper(w[i]))
        == ascii_lower(w[i]) && ascii_lower(ascii_lower(w[i])) == ascii_lower(w[i]) by {
        let c = w[i];
        if is_ascii_lower(c) {
            assert(((c as u32) - 32) as char as u32 == (c as u32) - 32);
        }
        if is_ascii_upper(c) {
            assert(((c as u32) + 32) as char as u32 == (c as u32) + 32);
        }
    }
    assert(lower_all(r) =~= lower_all(w));
}

/// Fragmentation only inserts one hyphen: the result is the word itself, or
/// two pieces of it, which together are the word, joined by `-`.
pub proof fn lemma_fragmentation_only_hyphenates(w: Seq<char>, st: u64)
    ensures
        fragmentation(w, st).0 == w || exists|a: Seq<char>, b: Seq<char>|
            #![trigger a + b]
            a + b == w && fragmentation(w, st).0 == a + seq!['-'] + b,
{
    let bytes = encode_utf8(w);
    let mid = (bytes.len() / 2) as int;
    let (go, st2) = rng_flip(st, 2);
    if bytes.len() >= 6 && go && is_char_boundary(bytes, mid) {
        lemma_fragmentation_halves(w);
        let a = decode_utf8(bytes.subrange(0, mid));
        let b = decode_utf8(bytes.subrange(mid, bytes.len() as int));
        assert(a + b == w);
    }
}

/// Noise only appends punctuation: the word is kept as it was, followed by
/// one to three of `.`, `!`, `?` or `~`.
pub proof fn lemma_noise_only_appends(w: Seq<char>, st: u64)
    ensures
        noise(w, st).0.len() > w.len(),
        noise(w, st).0.len() <= w.len() + 3,
        noise(w, st).0.take(w.len() as int) == w,
        forall|i: int|
            w.len() <= i < noise(w, st).0.len() ==> {
                let c = #[trigger] noise(w, st).0[i];
                c == '.' || c == '!' || c == '?' || c == '~'
            },
{
    let r = noise(w, st).0;
    assert(r.take(w.len() as int) =~= w);
}

/// Rendering never shortens a word: every step keeps or lengthens it, so no
/// letter of the plain word can be lost.
pub proof fn lemma_rendered_word_no_shorter(w: Seq<char>, st: u64)
    ensures
        obfuscate_word_spec(w, st).0.len() >= w.len(),
{
    if !semantic_anchor(w) {
        let (v1, s1) = fragmentation(w, st);
        lemma_fragmentation_only_hyphenates(w, st);
        if v1 != w {
            let (a, b) = choose|a: Seq<char>, b: Seq<char>|
                #![trigger a + b]
                a + b == w && v1 == a + seq!['-'] + b;
            assert((a + b).len() == w.len());
        }
        let (v2, s2) = case_variation(v1, s1);
        lemma_case_variation_only_recases(v1, s1);
        let (m, s3) = rng_flip(s2, 3);
        lemma_misspelling_swaps_neighbours(v2, s3);
        let (v3, s4) = if m {
            misspelling(v2, s3)
        } else {
            (v2, s3)
        };
        let (n, s5) = rng_flip(s4, 4);
        lemma_noise_only_appends(v3, s5);
        let (v4, s6) = if n {
            noise(v3, s5)
        } else {
            (v3, s5)
        };
        let (r, s7) = rng_flip(s6, 5);
        lemma_repetition_stays_in_word(v4, s7);
    }
}

/// Repetition writes one character of the word two or three times in its
/// place and keeps everything before and after it; a word of fewer than two
/// characters is left alone.
pub proof fn lemma_repetition_only_repeats(w: Seq<char>, st: u64)
    ensures
        w.len() < 2 ==> repetition(w, st).0 == w,
        w.len() >= 2 ==> exists|i: int, k: int|
            #![trigger repetition(w, st).0.take(i), repetition(w, st).0.skip(i + k)]
            0 <= i < w.len() && (k == 2 || k == 3) && repetition(w, st).0.take(i) == w.take(i)
                && repetition(w, st).0.skip(i + k) == w.skip(i + 1) && repetition(w, st).0.len()
                == w.len() + k - 1 && forall|j: int|
                i <= j < i + k ==> #[trigger] repetition(w, st).0[j] == w[i],
{
    if w.len() >= 2 {
        let idx = (rng_output(st) as int) % (w.len() as int);
        let (two, st2) = rng_flip(rng_advance(st), 2);
        let count: nat = if two {
            2
        } else {
            3
        };
        let r = repetition(w, st).0;
        assert(r.take(idx) =~= w.take(idx));
        assert(r.skip(idx + count) =~= w.skip(idx + 1));
    }
}

/// A rendered text is its plain text's words, each rendered and none lost
/// or shortened, joined by single spaces.
pub proof fn lemma_text_renders_every_word(s: Seq<char>, seed: i64)
    ensures
        exists|ws: Seq<Seq<char>>|
            #![trigger join_ws(ws)]
            obfuscate_text_spec(s, seed) == join_ws(ws) && ws.len() == split_ws(s).len()
                && forall|k: int|
                0 <= k < ws.len() ==> (#[trigger] ws[k]).len() >= split_ws(s)[k].len(),
{
    let words = split_ws(s);
    let st = rng_seed_state(seed);
    lemma_rendered_prefix_no_shorter(words, words.len(), st);
    let ws = obfuscate_prefix(words, words.len(), st).0;
    assert(obfuscate_text_spec(s, seed) == join_ws(ws));
}

proof fn lemma_rendered_prefix_no_shorter(words: Seq<Seq<char>>, n: nat, st: u64)
    requires
        n <= words.len(),
    ensures
        obfuscate_prefix(words, n, st).0.len() == n,
        forall|k: int|
            0 <= k < n ==> (#[trigger] obfuscate_prefix(words, n, st).0[k]).len()
                >= words[k].len(),
    decreases n,
{
    if n > 0 {
        lemma_rendered_prefix_no_shorter(words, (n - 1) as nat, st);
        let (p, s) = obfuscate_prefix(words, (n - 1) as nat, st);
        lemma_rendered_word_no_shorter(words[n - 1], s);
        let out = obfuscate_prefix(words, n, st).0;
        assert forall|k: int| 0 <= k < n - 1 implies #[trigger] out[k] == p[k] by {}
    }
}

} // verus!
