//! Number texts. The engine carries numbers as text and leaves arithmetic on
//! them to its host; here is what it knows of them without computing: which
//! texts denote a number, and how to write a fraction drawn at random.

use vstd::prelude::*;

use crate::text::chars_of;
use crate::text::is_digit;
use crate::text::reversed;
use crate::text::lemma_run_end;
use crate::text::run_end;
use crate::text::scan_run;
use crate::text::spells;
use crate::text::string_of;
use crate::text::to_upper;
use crate::text::upper_text;
use crate::text::CharClass;

verus! {

/// 1 where the character at `at` is a sign, else 0.
pub open spec fn sign_len(s: Seq<char>, at: int) -> int {
    if 0 <= at < s.len() && (s[at] == '+' || s[at] == '-') {
        1
    } else {
        0
    }
}

/// From `at` on, `s` is an exponent: `e` or `E`, an optional sign, and one
/// or more digits up to the end.
pub open spec fn is_exponent(s: Seq<char>, at: int) -> bool {
    let digits = at + 1 + sign_len(s, at + 1);
    0 <= at < s.len() && (s[at] == 'e' || s[at] == 'E') && digits < run_end(
        s,
        digits,
        CharClass::Digit,
    ) && run_end(s, digits, CharClass::Digit) == s.len()
}

/// From `at` on, `s` is a decimal number: digits with at most one point
/// among them, before them or after them, at least one digit in all, and
/// then an exponent or nothing.
pub open spec fn is_decimal(s: Seq<char>, at: int) -> bool {
    let point = run_end(s, at, CharClass::Digit);
    let end = if point < s.len() && s[point] == '.' {
        run_end(s, point + 1, CharClass::Digit)
    } else {
        point
    };
    let digits = if point < s.len() && s[point] == '.' {
        end - at - 1
    } else {
        end - at
    };
    digits >= 1 && (end == s.len() || is_exponent(s, end))
}

/// `s` denotes a number: an optional sign, then `inf`, `infinity` or `nan`
/// in any case, or a decimal number. This is the grammar of the texts that
/// parse as a floating-point number.
pub open spec fn is_number_text(s: Seq<char>) -> bool {
    let body = s.subrange(sign_len(s, 0), s.len() as int);
    upper_text(body) == "INF"@ || upper_text(body) == "INFINITY"@ || upper_text(body) == "NAN"@
        || is_decimal(s, sign_len(s, 0))
}

/// The length of the sign at `at`.
fn sign_at(chars: &Vec<char>, at: usize) -> (n: usize)
    ensures
        n == sign_len(chars@, at as int),
{
    if at < chars.len() && (chars[at] == '+' || chars[at] == '-') {
        1
    } else {
        0
    }
}

/// Whether `chars` holds an exponent from `at` to its end.
fn exponent_at(chars: &Vec<char>, at: usize) -> (yes: bool)
    requires
        at < chars.len(),
    ensures
        yes == is_exponent(chars@, at as int),
{
    if chars[at] != 'e' && chars[at] != 'E' {
        return false;
    }
    let digits = at + 1 + sign_at(chars, at + 1);
    if digits > chars.len() {
        return false;
    }
    let end = scan_run(chars, digits, CharClass::Digit);
    digits < end && end == chars.len()
}

/// Whether `chars` holds a decimal number from `at` to its end.
fn decimal_at(chars: &Vec<char>, at: usize) -> (yes: bool)
    requires
        at <= chars.len(),
    ensures
        yes == is_decimal(chars@, at as int),
{
    let point = scan_run(chars, at, CharClass::Digit);
    let dotted = point < chars.len() && chars[point] == '.';
    let end = if dotted {
        scan_run(chars, point + 1, CharClass::Digit)
    } else {
        point
    };
    let digits = if dotted {
        end - at - 1
    } else {
        end - at
    };
    digits >= 1 && (end == chars.len() || exponent_at(chars, end))
}

/// Whether `chars` denotes a number.
pub fn denotes_number(chars: &Vec<char>) -> (yes: bool)
    ensures
        yes == is_number_text(chars@),
{
    let sign = sign_at(chars, 0);
    let mut body: Vec<char> = Vec::new();
    let mut k: usize = sign;
    while k < chars.len()
        invariant
            sign <= k <= chars.len(),
            body@ == chars@.subrange(sign as int, k as int),
        decreases chars.len() - k,
    {
        body.push(chars[k]);
        k += 1;
        assert(chars@.subrange(sign as int, k as int) =~= chars@.subrange(sign as int, k - 1).push(
            chars@[k - 1],
        ));
    }
    let upper = to_upper(&body);
    spells(&upper, "INF") || spells(&upper, "INFINITY") || spells(&upper, "NAN") || decimal_at(
        chars,
        sign,
    )
}

/// Whether `text` denotes a number.
pub fn is_number_string(text: &str) -> (yes: bool)
    ensures
        yes == is_number_text(text@),
{
    let chars = chars_of(text);
    denotes_number(&chars)
}

/// The text of pi in single precision.
pub open spec fn pi_text() -> Seq<char> {
    seq!['3', '.', '1', '4', '1', '5', '9', '2', '7']
}

/// The text of pi in single precision.
pub fn pi_string() -> (text: String)
    ensures
        text@ == pi_text(),
{
    let text = String::from_str("3.1415927");
    proof {
        reveal_strlit("3.1415927");
        assert(text@ =~= pi_text());
    }
    text
}

/// The first `count` decimal digits of the fraction `numerator / 2^32`.
pub open spec fn fraction_digits(numerator: nat, count: nat) -> Seq<char>
    decreases count,
{
    if count == 0 {
        Seq::empty()
    } else {
        seq![(('0' as int) + (numerator * 10) / 0x1_0000_0000) as char] + fraction_digits(
            ((numerator * 10) % 0x1_0000_0000) as nat,
            (count - 1) as nat,
        )
    }
}

/// The decimal text of `word / 2^32`, a number in `[0, 1)`: `0.` and the 32
/// digits of the fraction, which is all it has.
pub open spec fn unit_fraction_text(word: u32) -> Seq<char> {
    seq!['0', '.'] + fraction_digits(word as nat, 32)
}

/// The digits of a fraction are digits.
pub proof fn lemma_fraction_digits(numerator: nat, count: nat)
    requires
        numerator < 0x1_0000_0000,
    ensures
        fraction_digits(numerator, count).len() == count,
        forall|i: int|
            0 <= i < count ==> '0' <= #[trigger] fraction_digits(numerator, count)[i] <= '9',
    decreases count,
{
    if count > 0 {
        let digit = (numerator * 10) / 0x1_0000_0000;
        let rest = ((numerator * 10) % 0x1_0000_0000) as nat;
        assert(0 <= digit <= 9);
        lemma_fraction_digits(rest, (count - 1) as nat);
        let tail = fraction_digits(rest, (count - 1) as nat);
        let all = fraction_digits(numerator, count);
        assert(all == seq![(('0' as int) + digit) as char] + tail);
        assert forall|i: int| 0 <= i < count implies '0' <= #[trigger] all[i] <= '9' by {
            if i > 0 {
                assert(all[i] == tail[i - 1]);
            }
        }
    }
}

/// The text of a random fraction denotes a number.
pub proof fn lemma_unit_fraction_is_number(word: u32)
    ensures
        is_number_text(unit_fraction_text(word)),
{
    let s = unit_fraction_text(word);
    let digits = fraction_digits(word as nat, 32);
    lemma_fraction_digits(word as nat, 32);
    assert(s.len() == 34);
    assert(s[0] == '0' && s[1] == '.');
    assert(forall|i: int| 2 <= i < 34 ==> s[i] == digits[i - 2]);
    assert(sign_len(s, 0) == 0);
    lemma_run_end(s, 1, CharClass::Digit);
    assert(run_end(s, 1, CharClass::Digit) == 1);
    assert(run_end(s, 0, CharClass::Digit) == 1);
    lemma_run_end(s, 2, CharClass::Digit);
    assert(run_end(s, 2, CharClass::Digit) == 34) by {
        if run_end(s, 2, CharClass::Digit) < 34 {
            let stop = run_end(s, 2, CharClass::Digit);
            assert(s[stop] == digits[stop - 2]);
        }
    }
}

/// The decimal text of `word / 2^32`.
pub fn unit_fraction_string(word: u32) -> (text: String)
    ensures
        text@ == unit_fraction_text(word),
        is_number_text(text@),
{
    proof {
        lemma_unit_fraction_is_number(word);
    }
    let mut chars: Vec<char> = Vec::new();
    chars.push('0');
    chars.push('.');
    let mut numerator: u64 = word as u64;
    let mut written: usize = 0;
    let ghost all = fraction_digits(word as nat, 32);
    let ghost mut done: Seq<char> = Seq::empty();
    while written < 32
        invariant
            written <= 32,
            numerator < 0x1_0000_0000,
            chars@ == seq!['0', '.'] + done,
            all == done + fraction_digits(numerator as nat, (32 - written) as nat),
        decreases 32 - written,
    {
        let scaled: u64 = numerator * 10;
        let digit: u64 = scaled / 0x1_0000_0000;
        let c: char = (48u8 + (digit as u8)) as char;
        proof {
            let rest = ((numerator * 10) % 0x1_0000_0000) as nat;
            assert(fraction_digits(numerator as nat, (32 - written) as nat) == seq![c]
                + fraction_digits(rest, (32 - written - 1) as nat));
            assert(done + (seq![c] + fraction_digits(rest, (32 - written - 1) as nat)) =~= done.push(
                c,
            ) + fraction_digits(rest, (32 - written - 1) as nat));
            assert((seq!['0', '.'] + done).push(c) =~= seq!['0', '.'] + done.push(c));
            done = done.push(c);
        }
        chars.push(c);
        numerator = scaled % 0x1_0000_0000;
        written += 1;
    }
    proof {
        assert(done + Seq::<char>::empty() =~= done);
    }
    string_of(&chars)
}

/// Draws 32 bits from the thread's random generator, as `rand::random` does.
/// Nothing is claimed of the bits drawn. The generator is seeded from the
/// operating system when a thread first draws, and that is where `rand` gives
/// up if the system has no entropy to offer.
#[verifier::external_body]
pub(crate) fn random_word() -> (word: u32) {
    rand::random::<u32>()
}

/// The number that a run of decimal digits denotes.
pub open spec fn decimal_value(s: Seq<char>) -> nat
    decreases s.len(),
{
    if s.len() == 0 {
        0
    } else {
        decimal_value(s.drop_last()) * 10 + (s.last() as int - '0' as int) as nat
    }
}

/// The decimal digits of `n`, without leading zeros.
pub open spec fn decimal_text(n: nat) -> Seq<char>
    decreases n,
{
    if n < 10 {
        seq![(('0' as int) + n) as char]
    } else {
        decimal_text(n / 10).push((('0' as int) + n % 10) as char)
    }
}

/// Every character of `s` is a decimal digit.
pub open spec fn all_digits(s: Seq<char>) -> bool {
    forall|i: int| 0 <= i < s.len() ==> is_digit(#[trigger] s[i])
}

/// The value of a digit run is at least that of each prefix.
pub proof fn lemma_decimal_value_prefix(s: Seq<char>, k: int)
    requires
        0 <= k <= s.len(),
    ensures
        decimal_value(s.take(k)) <= decimal_value(s),
    decreases s.len() - k,
{
    if k < s.len() {
        lemma_decimal_value_prefix(s, k + 1);
        assert(s.take(k + 1).drop_last() == s.take(k));
        assert(decimal_value(s.take(k + 1)) >= decimal_value(s.take(k)) * 10);
    } else {
        assert(s.take(k) == s);
    }
}

/// Reading a digit run that does not start with `0` and writing the number
/// back gives the same digits.
pub proof fn lemma_decimal_text_of_value(s: Seq<char>)
    requires
        all_digits(s),
        s.len() > 0,
        s[0] != '0',
    ensures
        decimal_text(decimal_value(s)) == s,
        decimal_value(s) > 0,
    decreases s.len(),
{
    let front = s.drop_last();
    let c = s.last();
    let d = (c as int - '0' as int) as nat;
    assert(is_digit(c));
    if s.len() == 1 {
        assert(front =~= Seq::<char>::empty());
        assert(decimal_value(front) == 0);
        assert(decimal_value(s) == d);
        assert(decimal_text(d) =~= s);
    } else {
        assert(front[0] == s[0]);
        lemma_decimal_text_of_value(front);
        let n = decimal_value(s);
        assert(n == decimal_value(front) * 10 + d);
        assert(n / 10 == decimal_value(front));
        assert(n % 10 == d);
        assert(decimal_text(n) == decimal_text(n / 10).push((('0' as int) + n % 10) as char));
        assert(decimal_text(n) =~= s);
    }
}

/// The number that the digits `chars[from..to]` spell, when it is at most
/// `limit`.
pub fn decimal_between(chars: &Vec<char>, from: usize, to: usize, limit: usize) -> (number: Option<
    usize,
>)
    requires
        from <= to <= chars.len(),
        all_digits(chars@.subrange(from as int, to as int)),
        limit <= 0xffff_ffff,
    ensures
        number matches Some(v) ==> decimal_value(chars@.subrange(from as int, to as int)) == v && v
            <= limit,
        number is None ==> decimal_value(chars@.subrange(from as int, to as int)) > limit,
{
    let ghost digits = chars@.subrange(from as int, to as int);
    let mut acc: u64 = 0;
    let mut i: usize = from;
    while i < to
        invariant
            from <= i <= to <= chars.len(),
            digits == chars@.subrange(from as int, to as int),
            all_digits(digits),
            limit <= 0xffff_ffff,
            acc <= limit,
            acc == decimal_value(digits.take(i - from)),
        decreases to - i,
    {
        let c = chars[i];
        assert(digits[i - from] == c);
        let value: u64 = (c as u64) - 48;
        let next: u64 = acc * 10 + value;
        proof {
            assert(digits.take(i - from + 1).drop_last() == digits.take(i - from));
            assert(digits.take(i - from + 1).last() == c);
            assert(next == decimal_value(digits.take(i - from + 1)));
            lemma_decimal_value_prefix(digits, i - from + 1);
        }
        if next > limit as u64 {
            return None;
        }
        acc = next;
        i += 1;
    }
    proof {
        assert(digits.take(to - from) == digits);
    }
    Some(acc as usize)
}

/// The decimal digits of `n`, without leading zeros.
pub fn decimal_of(n: u128) -> (digits: Vec<char>)
    ensures
        digits@ == decimal_text(n as nat),
{
    let mut rest: u128 = n / 10;
    let mut low_first: Vec<char> = Vec::new();
    low_first.push((48u8 + ((n % 10) as u8)) as char);
    proof {
        assert(low_first@.reverse() =~= seq![((('0' as int) + n % 10) as char)]);
        if n >= 10 {
            assert(decimal_text(n as nat) == decimal_text(rest as nat).push(
                ((('0' as int) + n % 10) as char),
            ));
            assert(decimal_text(rest as nat).push(((('0' as int) + n % 10) as char))
                =~= decimal_text(rest as nat) + low_first@.reverse());
        }
    }
    while rest >= 10
        invariant
            rest > 0 ==> decimal_text(n as nat) == decimal_text(rest as nat) + low_first@.reverse(),
            rest == 0 ==> decimal_text(n as nat) == low_first@.reverse(),
        decreases rest,
    {
        let c: char = (48u8 + ((rest % 10) as u8)) as char;
        let ghost before = low_first@;
        let ghost old_rest = rest;
        low_first.push(c);
        rest = rest / 10;
        proof {
            assert(decimal_text(old_rest as nat) == decimal_text(rest as nat).push(c));
            assert(low_first@.reverse() =~= seq![c] + before.reverse());
            assert(decimal_text(rest as nat).push(c) + before.reverse() =~= decimal_text(
                rest as nat,
            ) + (seq![c] + before.reverse()));
        }
    }
    if rest > 0 {
        let c: char = (48u8 + (rest as u8)) as char;
        let ghost before = low_first@;
        low_first.push(c);
        proof {
            assert(decimal_text(rest as nat) =~= seq![c]);
            assert(low_first@.reverse() =~= seq![c] + before.reverse());
        }
    }
    reversed(&low_first)
}

} // verus!
