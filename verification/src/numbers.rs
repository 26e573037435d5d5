//! Numbers as text: English number words for 0..=999, decimal rendering of
//! an amount in hundredths with exactly two decimals, and decimal parsing of
//! an `i64` with the rules of `i64::from_str`.
use vstd::prelude::*;
use crate::error::ForumError;
use crate::text::{is_ascii_digit, is_digit_char, is_whitespace, no_ascii_digit, no_whitespace};

verus! {

// ---------------------------------------------------------------------------
// Number words
// ---------------------------------------------------------------------------

pub open spec fn ones_word(n: int) -> Seq<char> {
    if n == 0 {
        "zero"@
    } else if n == 1 {
        "one"@
    } else if n == 2 {
        "two"@
    } else if n == 3 {
        "three"@
    } else if n == 4 {
        "four"@
    } else if n == 5 {
        "five"@
    } else if n == 6 {
        "six"@
    } else if n == 7 {
        "seven"@
    } else if n == 8 {
        "eight"@
    } else if n == 9 {
        "nine"@
    } else if n == 10 {
        "ten"@
    } else if n == 11 {
        "eleven"@
    } else if n == 12 {
        "twelve"@
    } else if n == 13 {
        "thirteen"@
    } else if n == 14 {
        "fourteen"@
    } else if n == 15 {
        "fifteen"@
    } else if n == 16 {
        "sixteen"@
    } else if n == 17 {
        "seventeen"@
    } else if n == 18 {
        "eighteen"@
    } else {
        "nineteen"@
    }
}

pub open spec fn tens_word(n: int) -> Seq<char> {
    if n == 2 {
        "twenty"@
    } else if n == 3 {
        "thirty"@
    } else if n == 4 {
        "forty"@
    } else if n == 5 {
        "fifty"@
    } else if n == 6 {
        "sixty"@
    } else if n == 7 {
        "seventy"@
    } else if n == 8 {
        "eighty"@
    } else {
        "ninety"@
    }
}

/// English words for `n` in `0..2000`, e.g. "one hundred twenty three".
pub open spec fn number_words(n: int) -> Seq<char>
    decreases n,
{
    if n < 20 {
        ones_word(n)
    } else if n < 100 {
        if n % 10 == 0 {
            tens_word(n / 10)
        } else {
            tens_word(n / 10) + seq![' '] + ones_word(n % 10)
        }
    } else if n % 100 == 0 {
        ones_word(n / 100) + " hundred"@
    } else {
        ones_word(n / 100) + " hundred"@ + seq![' '] + number_words(n % 100)
    }
}

fn ones_str(n: i64) -> (s: &'static str)
    requires
        0 <= n < 20,
    ensures
        s@ == ones_word(n as int),
{
    match n {
        0 => "zero",
        1 => "one",
        2 => "two",
        3 => "three",
        4 => "four",
        5 => "five",
        6 => "six",
        7 => "seven",
        8 => "eight",
        9 => "nine",
        10 => "ten",
        11 => "eleven",
        12 => "twelve",
        13 => "thirteen",
        14 => "fourteen",
        15 => "fifteen",
        16 => "sixteen",
        17 => "seventeen",
        18 => "eighteen",
        _ => "nineteen",
    }
}

fn tens_str(n: i64) -> (s: &'static str)
    requires
        2 <= n < 10,
    ensures
        s@ == tens_word(n as int),
{
    match n {
        2 => "twenty",
        3 => "thirty",
        4 => "forty",
        5 => "fifty",
        6 => "sixty",
        7 => "seventy",
        8 => "eighty",
        _ => "ninety",
    }
}

/// English words for a number below two thousand (the tables reach
/// "nineteen hundred ninety nine").
pub fn number_to_words_inner(value: i64) -> (words: String)
    requires
        0 <= value < 2000,
    ensures
        words@ == number_words(value as int),
    decreases value,
{
    if value < 20 {
        return String::from_str(ones_str(value));
    }
    if value < 100 {
        let tens = value / 10;
        let ones = value % 10;
        let mut out = String::from_str(tens_str(tens));
        if ones != 0 {
            out.append(" ");
            out.append(ones_str(ones));
            proof {
                reveal_strlit(" ");
                assert(out@ =~= tens_word(tens as int) + seq![' '] + ones_word(ones as int));
            }
        }
        return out;
    }
    let hundreds = value / 100;
    let remainder = value % 100;
    let mut out = String::from_str(ones_str(hundreds));
    out.append(" hundred");
    if remainder != 0 {
        out.append(" ");
        let rest = number_to_words_inner(remainder);
        out.append(rest.as_str());
        proof {
            reveal_strlit(" ");
            assert(out@ =~= ones_word(hundreds as int) + " hundred"@ + seq![' '] + number_words(
                remainder as int,
            ));
        }
    }
    out
}

/// English words for a number, which must lie in `0..=999`.
pub fn number_to_words(value: i64) -> (res: Result<String, ForumError>)
    ensures
        0 <= value <= 999 ==> (res matches Ok(w) && w@ == number_words(value as int)),
        !(0 <= value <= 999) ==> (res matches Err(ForumError::Validation(m))
            && m@ == "verification_number_out_of_range"@),
{
    if !(0 <= value && value <= 999) {
        return Err(ForumError::Validation(String::from_str("verification_number_out_of_range")));
    }
    Ok(number_to_words_inner(value))
}

/// Number words hold no ASCII digit.
pub proof fn lemma_number_words_no_digit(n: int)
    requires
        0 <= n < 2000,
    ensures
        no_ascii_digit(number_words(n)),
    decreases n,
{
    lemma_ones_word_no_digit(n % 20);
    if n < 20 {
        lemma_ones_word_no_digit(n);
    } else if n < 100 {
        lemma_tens_word_no_digit(n / 10);
        lemma_ones_word_no_digit(n % 10);
        lemma_no_digit_concat3(tens_word(n / 10), seq![' '], ones_word(n % 10));
    } else {
        lemma_ones_word_no_digit(n / 100);
        reveal_strlit(" hundred");
        lemma_no_digit_concat3(ones_word(n / 100), " hundred"@, seq![]);
        assert(ones_word(n / 100) + " hundred"@ + seq![] =~= ones_word(n / 100) + " hundred"@);
        if n % 100 != 0 {
            lemma_number_words_no_digit(n % 100);
            lemma_no_digit_concat3(ones_word(n / 100) + " hundred"@, seq![' '], number_words(
                n % 100,
            ));
        }
    }
}

proof fn lemma_no_digit_concat3(a: Seq<char>, b: Seq<char>, c: Seq<char>)
    requires
        no_ascii_digit(a),
        no_ascii_digit(b),
        no_ascii_digit(c),
    ensures
        no_ascii_digit(a + b + c),
{
    let s = a + b + c;
    assert forall|i: int| 0 <= i < s.len() implies !is_ascii_digit(#[trigger] s[i]) by {
        if i < a.len() {
            assert(s[i] == a[i]);
        } else if i < a.len() + b.len() {
            assert(s[i] == b[i - a.len()]);
        } else {
            assert(s[i] == c[i - a.len() - b.len()]);
        }
    }
}

proof fn lemma_ones_word_no_digit(n: int)
    ensures
        no_ascii_digit(ones_word(n)),
{
    reveal_strlit("zero");
    reveal_strlit("one");
    reveal_strlit("two");
    reveal_strlit("three");
    reveal_strlit("four");
    reveal_strlit("five");
    reveal_strlit("six");
    reveal_strlit("seven");
    reveal_strlit("eight");
    reveal_strlit("nine");
    reveal_strlit("ten");
    reveal_strlit("eleven");
    reveal_strlit("twelve");
    reveal_strlit("thirteen");
    reveal_strlit("fourteen");
    reveal_strlit("fifteen");
    reveal_strlit("sixteen");
    reveal_strlit("seventeen");
    reveal_strlit("eighteen");
    reveal_strlit("nineteen");
}

proof fn lemma_tens_word_no_digit(n: int)
    ensures
        no_ascii_digit(tens_word(n)),
{
    reveal_strlit("twenty");
    reveal_strlit("thirty");
    reveal_strlit("forty");
    reveal_strlit("fifty");
    reveal_strlit("sixty");
    reveal_strlit("seventy");
    reveal_strlit("eighty");
    reveal_strlit("ninety");
}

// ---------------------------------------------------------------------------
// Number words are distinct
// ---------------------------------------------------------------------------

/// The number a single number word names ("zero" to "nineteen", "twenty"
/// to "ninety"), or -1 for any other text.
pub open spec fn word_value(w: Seq<char>) -> int {
    if w == "zero"@ {
        0
    } else if w == "one"@ {
        1
    } else if w == "two"@ {
        2
    } else if w == "three"@ {
        3
    } else if w == "four"@ {
        4
    } else if w == "five"@ {
        5
    } else if w == "six"@ {
        6
    } else if w == "seven"@ {
        7
    } else if w == "eight"@ {
        8
    } else if w == "nine"@ {
        9
    } else if w == "ten"@ {
        10
    } else if w == "eleven"@ {
        11
    } else if w == "twelve"@ {
        12
    } else if w == "thirteen"@ {
        13
    } else if w == "fourteen"@ {
        14
    } else if w == "fifteen"@ {
        15
    } else if w == "sixteen"@ {
        16
    } else if w == "seventeen"@ {
        17
    } else if w == "eighteen"@ {
        18
    } else if w == "nineteen"@ {
        19
    } else if w == "twenty"@ {
        20
    } else if w == "thirty"@ {
        30
    } else if w == "forty"@ {
        40
    } else if w == "fifty"@ {
        50
    } else if w == "sixty"@ {
        60
    } else if w == "seventy"@ {
        70
    } else if w == "eighty"@ {
        80
    } else if w == "ninety"@ {
        90
    } else {
        -1
    }
}


/// Each single number word is one word (no white space) and names its number.
proof fn lemma_single_words(n: int)
    ensures
        0 <= n < 20 ==> no_whitespace(ones_word(n)) && word_value(ones_word(n)) == n,
        2 <= n < 10 ==> no_whitespace(tens_word(n)) && word_value(tens_word(n)) == 10 * n,
        no_whitespace("hundred"@),
{
    reveal_strlit("zero");
    reveal_strlit("one");
    reveal_strlit("two");
    reveal_strlit("three");
    reveal_strlit("four");
    reveal_strlit("five");
    reveal_strlit("six");
    reveal_strlit("seven");
    reveal_strlit("eight");
    reveal_strlit("nine");
    reveal_strlit("ten");
    reveal_strlit("eleven");
    reveal_strlit("twelve");
    reveal_strlit("thirteen");
    reveal_strlit("fourteen");
    reveal_strlit("fifteen");
    reveal_strlit("sixteen");
    reveal_strlit("seventeen");
    reveal_strlit("eighteen");
    reveal_strlit("nineteen");
    reveal_strlit("twenty");
    reveal_strlit("thirty");
    reveal_strlit("forty");
    reveal_strlit("fifty");
    reveal_strlit("sixty");
    reveal_strlit("seventy");
    reveal_strlit("eighty");
    reveal_strlit("ninety");
    reveal_strlit("hundred");
    reveal_strlit(" hundred");
    assert("zero"@.len() == 4 && "zero"@[0] == 'z' && "zero"@[1] == 'e' && "zero"@[3] == 'o');
    assert("one"@.len() == 3 && "one"@[0] == 'o' && "one"@[1] == 'n');
    assert("two"@.len() == 3 && "two"@[0] == 't' && "two"@[1] == 'w');
    assert("three"@.len() == 5 && "three"@[0] == 't' && "three"@[1] == 'h' && "three"@[3] == 'e');
    assert("four"@.len() == 4 && "four"@[0] == 'f' && "four"@[1] == 'o' && "four"@[3] == 'r');
    assert("five"@.len() == 4 && "five"@[0] == 'f' && "five"@[1] == 'i' && "five"@[3] == 'e');
    assert("six"@.len() == 3 && "six"@[0] == 's' && "six"@[1] == 'i');
    assert("seven"@.len() == 5 && "seven"@[0] == 's' && "seven"@[1] == 'e' && "seven"@[3] == 'e');
    assert("eight"@.len() == 5 && "eight"@[0] == 'e' && "eight"@[1] == 'i' && "eight"@[3] == 'h');
    assert("nine"@.len() == 4 && "nine"@[0] == 'n' && "nine"@[1] == 'i' && "nine"@[3] == 'e');
    assert("ten"@.len() == 3 && "ten"@[0] == 't' && "ten"@[1] == 'e');
    assert("eleven"@.len() == 6 && "eleven"@[0] == 'e' && "eleven"@[1] == 'l' && "eleven"@[3] == 'v');
    assert("twelve"@.len() == 6 && "twelve"@[0] == 't' && "twelve"@[1] == 'w' && "twelve"@[3] == 'l');
    assert("thirteen"@.len() == 8 && "thirteen"@[0] == 't' && "thirteen"@[1] == 'h' && "thirteen"@[3] == 'r');
    assert("fourteen"@.len() == 8 && "fourteen"@[0] == 'f' && "fourteen"@[1] == 'o' && "fourteen"@[3] == 'r');
    assert("fifteen"@.len() == 7 && "fifteen"@[0] == 'f' && "fifteen"@[1] == 'i' && "fifteen"@[3] == 't');
    assert("sixteen"@.len() == 7 && "sixteen"@[0] == 's' && "sixteen"@[1] == 'i' && "sixteen"@[3] == 't');
    assert("seventeen"@.len() == 9 && "seventeen"@[0] == 's' && "seventeen"@[1] == 'e' && "seventeen"@[3] == 'e');
    assert("eighteen"@.len() == 8 && "eighteen"@[0] == 'e' && "eighteen"@[1] == 'i' && "eighteen"@[3] == 'h');
    assert("nineteen"@.len() == 8 && "nineteen"@[0] == 'n' && "nineteen"@[1] == 'i' && "nineteen"@[3] == 'e');
    assert("twenty"@.len() == 6 && "twenty"@[0] == 't' && "twenty"@[1] == 'w' && "twenty"@[3] == 'n');
    assert("thirty"@.len() == 6 && "thirty"@[0] == 't' && "thirty"@[1] == 'h' && "thirty"@[3] == 'r');
    assert("forty"@.len() == 5 && "forty"@[0] == 'f' && "forty"@[1] == 'o' && "forty"@[3] == 't');
    assert("fifty"@.len() == 5 && "fifty"@[0] == 'f' && "fifty"@[1] == 'i' && "fifty"@[3] == 't');
    assert("sixty"@.len() == 5 && "sixty"@[0] == 's' && "sixty"@[1] == 'i' && "sixty"@[3] == 't');
    assert("seventy"@.len() == 7 && "seventy"@[0] == 's' && "seventy"@[1] == 'e' && "seventy"@[3] == 'e');
    assert("eighty"@.len() == 6 && "eighty"@[0] == 'e' && "eighty"@[1] == 'i' && "eighty"@[3] == 'h');
    assert("ninety"@.len() == 6 && "ninety"@[0] == 'n' && "ninety"@[1] == 'i' && "ninety"@[3] == 'e');
    if n == 0 {
    } else if n == 1 {
    } else if n == 2 {
    } else if n == 3 {
    } else if n == 4 {
    } else if n == 5 {
    } else if n == 6 {
    } else if n == 7 {
    } else if n == 8 {
    } else if n == 9 {
    } else if n == 10 {
    } else if n == 11 {
    } else if n == 12 {
    } else if n == 13 {
    } else if n == 14 {
    } else if n == 15 {
    } else if n == 16 {
    } else if n == 17 {
    } else if n == 18 {
    } else if n == 19 {
    }
}

/// Two texts that each start with one word followed by a space are equal
/// only if their first words are equal and so are their remainders.
proof fn lemma_first_word_split(a: Seq<char>, x: Seq<char>, b: Seq<char>, y: Seq<char>)
    requires
        no_whitespace(a),
        no_whitespace(b),
        a + seq![' '] + x == b + seq![' '] + y,
    ensures
        a == b,
        x == y,
{
    let l = a + seq![' '] + x;
    let r = b + seq![' '] + y;
    if a.len() < b.len() {
        assert(l[a.len() as int] == ' ');
        assert(r[a.len() as int] == b[a.len() as int]);
        assert(!is_whitespace(b[a.len() as int]));
    }
    if b.len() < a.len() {
        assert(r[b.len() as int] == ' ');
        assert(l[b.len() as int] == a[b.len() as int]);
        assert(!is_whitespace(a[b.len() as int]));
    }
    assert(a =~= l.take(a.len() as int));
    assert(b =~= r.take(b.len() as int));
    assert(x =~= l.skip(a.len() as int + 1));
    assert(y =~= r.skip(b.len() as int + 1));
}

/// A single word never equals a text that holds a space.
proof fn lemma_word_is_not_spaced(a: Seq<char>, b: Seq<char>, y: Seq<char>)
    requires
        no_whitespace(a),
    ensures
        a != b + seq![' '] + y,
{
    if a == b + seq![' '] + y {
        assert(a[b.len() as int] == ' ');
    }
}

/// Numbers below twenty, and multiples of ten below a hundred, are one word.
pub open spec fn is_single_word(n: int) -> bool {
    n < 20 || (n < 100 && n % 10 == 0)
}

/// The first word of a number of more than one word.
pub open spec fn number_head(n: int) -> Seq<char> {
    if n < 100 {
        tens_word(n / 10)
    } else {
        ones_word(n / 100)
    }
}

/// What follows the first word and its space.
pub open spec fn number_tail(n: int) -> Seq<char> {
    if n < 100 {
        ones_word(n % 10)
    } else if n % 100 == 0 {
        "hundred"@
    } else {
        "hundred"@ + seq![' '] + number_words(n % 100)
    }
}

proof fn lemma_number_words_shape(n: int)
    requires
        0 <= n < 2000,
    ensures
        is_single_word(n) ==> no_whitespace(number_words(n)) && word_value(number_words(n)) == n,
        !is_single_word(n) ==> {
            &&& number_words(n) == number_head(n) + seq![' '] + number_tail(n)
            &&& no_whitespace(number_head(n))
            &&& n < 100 ==> word_value(number_head(n)) == 10 * (n / 10)
                && no_whitespace(number_tail(n)) && word_value(number_tail(n)) == n % 10
            &&& n >= 100 ==> word_value(number_head(n)) == n / 100 && 1 <= n / 100 < 20
        },
{
    lemma_single_words(n);
    lemma_single_words(n / 10);
    lemma_single_words(n % 10);
    lemma_single_words(n / 100);
    if n >= 100 {
        reveal_strlit("hundred");
        reveal_strlit(" hundred");
        assert(" hundred"@ =~= seq![' '] + "hundred"@);
        if n % 100 == 0 {
            assert(number_words(n) =~= ones_word(n / 100) + seq![' '] + "hundred"@);
        } else {
            assert(number_words(n) =~= ones_word(n / 100) + seq![' '] + ("hundred"@ + seq![' ']
                + number_words(n % 100)));
        }
    } else if !is_single_word(n) {
        assert(number_words(n) == tens_word(n / 10) + seq![' '] + ones_word(n % 10));
    }
}

/// Distinct numbers below two thousand have distinct words, so the number
/// can always be read back from its words.
pub proof fn lemma_number_words_distinct(a: int, b: int)
    requires
        0 <= a < 2000,
        0 <= b < 2000,
    ensures
        number_words(a) == number_words(b) ==> a == b,
    decreases a,
{
    if number_words(a) == number_words(b) {
        lemma_number_words_shape(a);
        lemma_number_words_shape(b);
        let w = number_words(a);
        if is_single_word(a) && !is_single_word(b) {
            lemma_word_is_not_spaced(w, number_head(b), number_tail(b));
        } else if !is_single_word(a) && is_single_word(b) {
            lemma_word_is_not_spaced(w, number_head(a), number_tail(a));
        } else if !is_single_word(a) && !is_single_word(b) {
            lemma_first_word_split(number_head(a), number_tail(a), number_head(b), number_tail(b));
            if a >= 100 && b >= 100 {
                lemma_single_words(0);
                if a % 100 == 0 && b % 100 != 0 {
                    lemma_word_is_not_spaced("hundred"@, "hundred"@, number_words(b % 100));
                } else if a % 100 != 0 && b % 100 == 0 {
                    lemma_word_is_not_spaced("hundred"@, "hundred"@, number_words(a % 100));
                } else if a % 100 != 0 && b % 100 != 0 {
                    lemma_first_word_split(
                        "hundred"@,
                        number_words(a % 100),
                        "hundred"@,
                        number_words(b % 100),
                    );
                    lemma_number_words_distinct(a % 100, b % 100);
                }
            }
        }
    }
}

// ---------------------------------------------------------------------------
// Decimal rendering
// ---------------------------------------------------------------------------

pub open spec fn digit_char(d: int) -> char {
    (48 + d) as char
}

/// The decimal digits of `n`, most significant first, without leading zeros.
pub open spec fn decimal_text(n: nat) -> Seq<char>
    decreases n,
{
    if n < 10 {
        seq![digit_char(n as int)]
    } else {
        decimal_text(n / 10).push(digit_char((n % 10) as int))
    }
}

/// An amount given in hundredths, written with exactly two decimals and a
/// leading minus sign when negative, as `format!("{:.2}", v as f64 / 100.0)`
/// writes it: 700 gives "7.00", 725 gives "7.25", -50 gives "-0.50".
pub open spec fn two_decimal_text(v: int) -> Seq<char> {
    let m: nat = if v < 0 {
        (-v) as nat
    } else {
        v as nat
    };
    (if v < 0 {
        seq!['-']
    } else {
        seq![]
    }) + decimal_text(m / 100) + seq!['.', digit_char(((m % 100) / 10) as int), digit_char((m % 10) as int)]
}

fn digit(d: u64) -> (c: char)
    requires
        d < 10,
    ensures
        c == digit_char(d as int),
{
    ((d as u8) + 48u8) as char
}

fn push_decimal(out: &mut Vec<char>, n: u64)
    ensures
        final(out)@ == old(out)@ + decimal_text(n as nat),
    decreases n,
{
    if n >= 10 {
        push_decimal(out, n / 10);
    }
    out.push(digit(n % 10));
    proof {
        if n >= 10 {
            assert(decimal_text(n as nat) == decimal_text((n / 10) as nat).push(digit_char((n % 10) as int)));
        }
    }
}

/// The amount `hundredths / 100` with exactly two decimals.
pub fn format_hundredths(hundredths: i64) -> (text: Vec<char>)
    ensures
        text@ == two_decimal_text(hundredths as int),
{
    let wide = hundredths as i128;
    let magnitude: u64 = if wide < 0 {
        (0 - wide) as u64
    } else {
        wide as u64
    };
    let mut out: Vec<char> = Vec::new();
    if hundredths < 0 {
        out.push('-');
    }
    push_decimal(&mut out, magnitude / 100);
    out.push('.');
    out.push(digit((magnitude % 100) / 10));
    out.push(digit(magnitude % 10));
    assert(out@ =~= two_decimal_text(hundredths as int));
    out
}

pub proof fn lemma_decimal_text_digits(n: nat)
    ensures
        decimal_text(n).len() >= 1,
        forall|i: int| 0 <= i < decimal_text(n).len() ==> is_ascii_digit(#[trigger] decimal_text(n)[i]),
    decreases n,
{
    if n >= 10 {
        lemma_decimal_text_digits(n / 10);
        let p = decimal_text(n / 10);
        let t = decimal_text(n);
        assert forall|i: int| 0 <= i < t.len() implies is_ascii_digit(#[trigger] t[i]) by {
            if i < p.len() {
                assert(t[i] == p[i]);
            }
        }
    }
}

/// The answer text is an optional minus sign, at least one digit, a point and
/// exactly two digits.
pub proof fn lemma_two_decimal_shape(v: int)
    ensures
        ({
            let t = two_decimal_text(v);
            let s: int = if v < 0 {
                1
            } else {
                0
            };
            &&& t.len() >= s + 4
            &&& (v < 0 ==> t[0] == '-')
            &&& t[t.len() - 3] == '.'
            &&& is_ascii_digit(t[t.len() - 2])
            &&& is_ascii_digit(t[t.len() - 1])
            &&& forall|i: int| s <= i < t.len() - 3 ==> is_ascii_digit(#[trigger] t[i])
        }),
{
    let m: nat = if v < 0 {
        (-v) as nat
    } else {
        v as nat
    };
    lemma_decimal_text_digits(m / 100);
    let t = two_decimal_text(v);
    let s: int = if v < 0 {
        1
    } else {
        0
    };
    let d = decimal_text(m / 100);
    assert forall|i: int| s <= i < t.len() - 3 implies is_ascii_digit(#[trigger] t[i]) by {
        assert(t[i] == d[i - s]);
    }
}

// ---------------------------------------------------------------------------
// Parsing
// ---------------------------------------------------------------------------

pub open spec fn all_ascii_digits(d: Seq<char>) -> bool {
    forall|i: int| 0 <= i < d.len() ==> is_ascii_digit(#[trigger] d[i])
}

/// The value of a run of decimal digits.
pub open spec fn digits_value(d: Seq<char>) -> nat
    decreases d.len(),
{
    if d.len() == 0 {
        0
    } else {
        digits_value(d.drop_last()) * 10 + ((d.last() as int) - 48) as nat
    }
}

/// `i64::from_str`: an optional `+` or `-`, then one or more ASCII digits,
/// and the value must fit in an `i64`.
pub open spec fn parse_i64_spec(s: Seq<char>) -> Option<i64> {
    let neg = s.len() > 0 && s[0] == '-';
    let signed = s.len() > 0 && (s[0] == '-' || s[0] == '+');
    let d = if signed {
        s.drop_first()
    } else {
        s
    };
    let v: int = if neg {
        -digits_value(d)
    } else {
        digits_value(d) as int
    };
    if d.len() == 0 || !all_ascii_digits(d) || v < i64::MIN || v > i64::MAX {
        None
    } else {
        Some(v as i64)
    }
}

/// `acc` with one more decimal digit `dv`, moving away from zero in the
/// direction of the sign, if the result fits.
fn append_digit(acc: i64, dv: i64, neg: bool) -> (r: Option<i64>)
    requires
        0 <= dv <= 9,
        neg ==> acc <= 0,
        !neg ==> acc >= 0,
    ensures
        neg ==> r == (if acc * 10 - dv < i64::MIN {
            None
        } else {
            Some((acc * 10 - dv) as i64)
        }),
        !neg ==> r == (if acc * 10 + dv > i64::MAX {
            None
        } else {
            Some((acc * 10 + dv) as i64)
        }),
{
    match acc.checked_mul(10) {
        None => None,
        Some(scaled) => {
            if neg {
                scaled.checked_sub(dv)
            } else {
                scaled.checked_add(dv)
            }
        },
    }
}

proof fn lemma_digits_value_step(d: Seq<char>, k: int)
    requires
        0 <= k < d.len(),
    ensures
        digits_value(d.take(k + 1)) == digits_value(d.take(k)) * 10 + ((d[k] as int) - 48) as nat,
{
    assert(d.take(k + 1).drop_last() =~= d.take(k));
}

/// `i64::from_str` on the characters of `s`.
pub fn parse_i64(s: &Vec<char>) -> (res: Option<i64>)
    ensures
        res == parse_i64_spec(s@),
{
    let neg = s.len() > 0 && s[0] == '-';
    let signed = s.len() > 0 && (s[0] == '-' || s[0] == '+');
    let start: usize = if signed {
        1
    } else {
        0
    };
    let ghost d = if signed {
        s@.drop_first()
    } else {
        s@
    };
    assert(d =~= s@.skip(start as int));
    if start == s.len() {
        return None;
    }
    let ghost limit: int = if neg {
        9223372036854775808
    } else {
        9223372036854775807
    };
    let mut acc: i64 = 0;
    let mut i: usize = start;
    let mut overflow = false;
    assert(d.take(0) =~= Seq::<char>::empty());
    while i < s.len()
        invariant
            start <= i <= s.len(),
            start <= 1,
            d == s@.skip(start as int),
            neg == (s@.len() > 0 && s@[0] == '-'),
            signed == (s@.len() > 0 && (s@[0] == '-' || s@[0] == '+')),
            d == (if signed {
                s@.drop_first()
            } else {
                s@
            }),
            limit == (if neg {
                9223372036854775808int
            } else {
                9223372036854775807int
            }),
            all_ascii_digits(d.take(i - start)),
            !overflow ==> acc as int == (if neg {
                -digits_value(d.take(i - start))
            } else {
                digits_value(d.take(i - start)) as int
            }),
            overflow ==> digits_value(d.take(i - start)) > limit,
        decreases s.len() - i,
    {
        let c = s[i];
        let ghost k = (i - start) as int;
        assert(d[k] == c);
        if !is_digit_char(c) {
            assert(!all_ascii_digits(d));
            return None;
        }
        proof {
            lemma_digits_value_step(d, k);
        }
        let dv = ((c as u32) - 48) as i64;
        if !overflow {
            match append_digit(acc, dv, neg) {
                Some(next) => {
                    acc = next;
                },
                None => {
                    overflow = true;
                },
            }
        }
        i = i + 1;
        assert(all_ascii_digits(d.take(i - start))) by {
            assert forall|q: int| 0 <= q < d.take(i - start).len() implies is_ascii_digit(
                #[trigger] d.take(i - start)[q],
            ) by {
                if q < k {
                    assert(d.take(i - start)[q] == d.take(k)[q]);
                }
            }
        }
    }
    assert(d.take(i - start) =~= d);
    if overflow {
        None
    } else {
        Some(acc)
    }
}

/// The decimal digits of `n` read back as a number are `n`.
pub proof fn lemma_decimal_text_value(n: nat)
    ensures
        digits_value(decimal_text(n)) == n,
        all_ascii_digits(decimal_text(n)),
        decimal_text(n).len() >= 1,
    decreases n,
{
    lemma_decimal_text_digits(n);
    if n < 10 {
        let t = decimal_text(n);
        assert(t.drop_last() =~= Seq::<char>::empty());
        assert(digit_char(n as int) as int == 48 + n);
    } else {
        lemma_decimal_text_value(n / 10);
        let t = decimal_text(n);
        assert(t.drop_last() =~= decimal_text(n / 10));
        assert(digit_char((n % 10) as int) as int == 48 + n % 10);
    }
}

/// The two-decimal text of an amount in hundredths reads back as that
/// amount: a minus sign exactly when it is negative, then whole units whose
/// digits give the amount divided by 100, a point, and the tenths and
/// hundredths digits.
pub proof fn lemma_two_decimal_value(v: int)
    ensures
        ({
            let t = two_decimal_text(v);
            let s: int = if v < 0 {
                1
            } else {
                0
            };
            let m: int = if v < 0 {
                -v
            } else {
                v
            };
            &&& t.len() >= s + 4
            &&& (v < 0 <==> t[0] == '-')
            &&& t[t.len() - 3] == '.'
            &&& all_ascii_digits(t.subrange(s, t.len() - 3))
            &&& is_ascii_digit(t[t.len() - 2]) && is_ascii_digit(t[t.len() - 1])
            &&& digits_value(t.subrange(s, t.len() - 3)) * 100 + ((t[t.len() - 2] as int) - 48)
                * 10 + ((t[t.len() - 1] as int) - 48) == m
        }),
{
    let t = two_decimal_text(v);
    let s: int = if v < 0 {
        1
    } else {
        0
    };
    let m: nat = if v < 0 {
        (-v) as nat
    } else {
        v as nat
    };
    lemma_decimal_text_value(m / 100);
    let d = decimal_text(m / 100);
    assert(t.subrange(s, t.len() - 3) =~= d);
    assert(digit_char(((m % 100) / 10) as int) as int == 48 + (m % 100) / 10);
    assert(digit_char((m % 10) as int) as int == 48 + m % 10);
    assert((m / 100) * 100 + ((m % 100) / 10) * 10 + m % 10 == m) by (nonlinear_arith);
    if v >= 0 {
        assert(t[0] == d[0]);
        assert(is_ascii_digit(d[0]));
    }
}

/// Parsing the decimal digits of a number that fits in an `i64` gives it
/// back, and so does parsing them after a minus sign for its negation.
pub proof fn lemma_parse_decimal_text(n: nat)
    requires
        n <= i64::MAX,
    ensures
        parse_i64_spec(decimal_text(n)) == Some(n as i64),
        parse_i64_spec(seq!['-'] + decimal_text(n)) == Some((-n) as i64),
{
    lemma_decimal_text_value(n);
    let d = decimal_text(n);
    assert(d[0] != '-' && d[0] != '+') by {
        assert(is_ascii_digit(d[0]));
    }
    assert((seq!['-'] + d).drop_first() =~= d);
}

} // verus!
