//! Decimal text: the digits of a number, and the zero-padded fixed-width
//! form in which balances are stored so that text order is number order.

use vstd::prelude::*;
use vstd::string::StringExecFns;
use crate::text::chars_of;
use crate::uint::{u256_modulus, U256};

verus! {

/// Width of a padded balance: the number of decimal digits of the largest
/// 256-bit value.
pub const BALANCE_WIDTH: usize = 78;

/// The character that writes a digit.
pub open spec fn digit_char(d: nat) -> char {
    if d == 0 {
        '0'
    } else if d == 1 {
        '1'
    } else if d == 2 {
        '2'
    } else if d == 3 {
        '3'
    } else if d == 4 {
        '4'
    } else if d == 5 {
        '5'
    } else if d == 6 {
        '6'
    } else if d == 7 {
        '7'
    } else if d == 8 {
        '8'
    } else {
        '9'
    }
}

/// Whether a character is one of the ten decimal digits.
pub open spec fn is_digit(c: char) -> bool {
    '0' <= c && c <= '9'
}

/// The digit that a character writes.
pub open spec fn digit_value(c: char) -> nat {
    (c as u32 - '0' as u32) as nat
}

/// Whether every character of a text is a decimal digit.
pub open spec fn is_decimal(s: Seq<char>) -> bool {
    forall|i: int| 0 <= i < s.len() ==> is_digit(#[trigger] s[i])
}

/// The number that a text of digits writes; the empty text writes zero.
pub open spec fn decimal_value(s: Seq<char>) -> nat
    decreases s.len(),
{
    if s.len() == 0 {
        0
    } else {
        decimal_value(s.drop_last()) * 10 + digit_value(s.last())
    }
}

/// The last `width` decimal digits of a number, padded with zeros on the left.
pub open spec fn decimal_padded(v: nat, width: nat) -> Seq<char>
    decreases width,
{
    if width == 0 {
        Seq::empty()
    } else {
        decimal_padded(v / 10, (width - 1) as nat).push(digit_char(v % 10))
    }
}

/// Ten to the power `e`.
pub open spec fn pow10(e: nat) -> nat
    decreases e,
{
    if e == 0 {
        1
    } else {
        10 * pow10((e - 1) as nat)
    }
}

/// The padded form of a balance.
pub open spec fn pad_spec(v: nat) -> Seq<char> {
    decimal_padded(v, BALANCE_WIDTH as nat)
}

/// What parsing a stored balance gives: the number its digits write, where
/// they are all digits and the number fits in 256 bits.
pub open spec fn parse_spec(s: Seq<char>) -> Option<nat> {
    if is_decimal(s) && decimal_value(s) < u256_modulus() {
        Some(decimal_value(s))
    } else {
        None
    }
}

/// Whether `a` comes strictly before `b` in dictionary order, for two texts
/// of one length.
pub open spec fn lex_lt(a: Seq<char>, b: Seq<char>) -> bool {
    &&& a.len() == b.len()
    &&& exists|k: int|
        0 <= k < a.len() && a.subrange(0, k) == b.subrange(0, k) && (#[trigger] a[k]) < b[k]
}

/// The character of a digit is a digit and writes that digit.
pub proof fn lemma_digit_char(d: nat)
    requires
        d < 10,
    ensures
        is_digit(digit_char(d)),
        digit_value(digit_char(d)) == d,
{
}

/// A padded number has the width asked for and holds digits only.
pub proof fn lemma_padded_len(v: nat, width: nat)
    ensures
        decimal_padded(v, width).len() == width,
        is_decimal(decimal_padded(v, width)),
    decreases width,
{
    if width > 0 {
        lemma_padded_len(v / 10, (width - 1) as nat);
        lemma_digit_char(v % 10);
    }
}

/// The digits of a padded number write the number, cut to its last `width`
/// digits.
pub proof fn lemma_padded_value(v: nat, width: nat)
    ensures
        decimal_value(decimal_padded(v, width)) == v % pow10(width),
    decreases width,
{
    if width == 0 {
        assert(decimal_padded(v, width) =~= Seq::<char>::empty());
    } else {
        let w1 = (width - 1) as nat;
        let s = decimal_padded(v, width);
        let head = decimal_padded(v / 10, w1);
        lemma_padded_value(v / 10, w1);
        lemma_digit_char(v % 10);
        assert(s.drop_last() =~= head);
        assert(s.last() == digit_char(v % 10));
        lemma_pow10_positive(w1);
        let p = pow10(w1);
        vstd::arithmetic::div_mod::lemma_breakdown(v as int, 10, p as int);
    }
}

/// A power of ten is above zero.
pub proof fn lemma_pow10_positive(e: nat)
    ensures
        pow10(e) > 0,
    decreases e,
{
    if e > 0 {
        lemma_pow10_positive((e - 1) as nat);
    }
}

/// Every 256-bit number has at most 78 decimal digits.
pub proof fn lemma_modulus_below_pow10()
    ensures
        u256_modulus() < pow10(BALANCE_WIDTH as nat),
{
    reveal_with_fuel(pow10, 20);
    assert(pow10(19) == 10_000_000_000_000_000_000nat);
    assert(pow10(38) == pow10(19) * pow10(19)) by {
        lemma_pow10_add(19, 19);
    }
    assert(pow10(76) == pow10(38) * pow10(38)) by {
        lemma_pow10_add(38, 38);
    }
    assert(pow10(78) == pow10(76) * pow10(2)) by {
        lemma_pow10_add(76, 2);
    }
    assert(pow10(2) == 100);
    assert(pow10(38) == 100_000_000_000_000_000_000_000_000_000_000_000_000nat);
}

/// Ten to a sum is the product of the two powers.
pub proof fn lemma_pow10_add(a: nat, b: nat)
    ensures
        pow10(a + b) == pow10(a) * pow10(b),
    decreases b,
{
    if b == 0 {
        assert(pow10(a) * 1 == pow10(a));
    } else {
        lemma_pow10_add(a, (b - 1) as nat);
        assert(pow10(a + b) == 10 * pow10((a + b - 1) as nat));
        assert(10 * (pow10(a) * pow10((b - 1) as nat)) == pow10(a) * (10 * pow10((b - 1) as nat)))
            by (nonlinear_arith);
    }
}

/// Reading back a padded balance gives the balance.
pub proof fn lemma_pad_round_trip(x: nat)
    requires
        x < u256_modulus(),
    ensures
        pad_spec(x).len() == BALANCE_WIDTH,
        parse_spec(pad_spec(x)) == Some(x),
{
    lemma_padded_len(x, BALANCE_WIDTH as nat);
    lemma_padded_value(x, BALANCE_WIDTH as nat);
    lemma_modulus_below_pow10();
    assert(x % pow10(BALANCE_WIDTH as nat) == x) by (nonlinear_arith)
        requires
            x < pow10(BALANCE_WIDTH as nat),
    ;
}

/// The padded form of zero is 78 zeros.
pub proof fn lemma_pad_zero()
    ensures
        pad_spec(0) == Seq::new(BALANCE_WIDTH as nat, |i: int| '0'),
{
    lemma_padded_zero(BALANCE_WIDTH as nat);
}

/// Zero padded to any width is that many zeros.
pub proof fn lemma_padded_zero(width: nat)
    ensures
        decimal_padded(0, width) == Seq::new(width, |i: int| '0'),
    decreases width,
{
    if width == 0 {
        assert(decimal_padded(0, width) =~= Seq::new(width, |i: int| '0'));
    } else {
        lemma_padded_zero((width - 1) as nat);
        assert(decimal_padded(0, width) =~= Seq::new(width, |i: int| '0'));
    }
}

/// Among numbers that fit in `width` digits, the smaller has the padded form
/// that comes first in dictionary order.
pub proof fn lemma_padded_monotone(x: nat, y: nat, width: nat)
    requires
        x < y,
        y < pow10(width),
    ensures
        lex_lt(decimal_padded(x, width), decimal_padded(y, width)),
    decreases width,
{
    let a = decimal_padded(x, width);
    let b = decimal_padded(y, width);
    lemma_padded_len(x, width);
    lemma_padded_len(y, width);
    if width == 0 {
    } else {
        let w1 = (width - 1) as nat;
        let ha = decimal_padded(x / 10, w1);
        let hb = decimal_padded(y / 10, w1);
        lemma_padded_len(x / 10, w1);
        lemma_padded_len(y / 10, w1);
        assert(a.drop_last() =~= ha);
        assert(b.drop_last() =~= hb);
        if x / 10 < y / 10 {
            lemma_padded_monotone(x / 10, y / 10, w1);
            let k = choose|k: int|
                0 <= k < ha.len() && ha.subrange(0, k) == hb.subrange(0, k) && (#[trigger] ha[k])
                    < hb[k];
            assert(a.subrange(0, k) =~= ha.subrange(0, k));
            assert(b.subrange(0, k) =~= hb.subrange(0, k));
            assert(a[k] == ha[k] && b[k] == hb[k]);
        } else {
            assert(x / 10 == y / 10);
            assert(x % 10 < y % 10);
            let k = width - 1;
            assert(a.subrange(0, k) =~= ha);
            assert(b.subrange(0, k) =~= hb);
            assert(a[k] == digit_char(x % 10));
            assert(b[k] == digit_char(y % 10));
            assert(a[k] < b[k]);
        }
    }
}

/// Padded balances sort as the balances do.
pub proof fn lemma_pad_monotone(x: nat, y: nat)
    requires
        x < y,
        y < u256_modulus(),
    ensures
        lex_lt(pad_spec(x), pad_spec(y)),
{
    lemma_modulus_below_pow10();
    lemma_padded_monotone(x, y, BALANCE_WIDTH as nat);
}

/// Zeros in front of a text of digits do not change the number it writes.
pub proof fn lemma_leading_zeros(zeros: Seq<char>, s: Seq<char>)
    requires
        forall|i: int| 0 <= i < zeros.len() ==> zeros[i] == '0',
    ensures
        decimal_value(zeros + s) == decimal_value(s),
    decreases s.len(),
{
    if s.len() == 0 {
        assert(zeros + s =~= zeros);
        lemma_zeros_value(zeros);
    } else {
        assert((zeros + s).drop_last() =~= zeros + s.drop_last());
        lemma_leading_zeros(zeros, s.drop_last());
    }
}

/// A text of zeros writes zero.
pub proof fn lemma_zeros_value(zeros: Seq<char>)
    requires
        forall|i: int| 0 <= i < zeros.len() ==> zeros[i] == '0',
    ensures
        decimal_value(zeros) == 0,
    decreases zeros.len(),
{
    if zeros.len() > 0 {
        lemma_zeros_value(zeros.drop_last());
    }
}

/// The one-character text of a digit.
fn digit_str(d: u8) -> (s: &'static str)
    requires
        d < 10,
    ensures
        s@ == seq![digit_char(d as nat)],
{
    proof {
        reveal_strlit("0");
        reveal_strlit("1");
        reveal_strlit("2");
        reveal_strlit("3");
        reveal_strlit("4");
        reveal_strlit("5");
        reveal_strlit("6");
        reveal_strlit("7");
        reveal_strlit("8");
        reveal_strlit("9");
    }
    let s = if d == 0 {
        "0"
    } else if d == 1 {
        "1"
    } else if d == 2 {
        "2"
    } else if d == 3 {
        "3"
    } else if d == 4 {
        "4"
    } else if d == 5 {
        "5"
    } else if d == 6 {
        "6"
    } else if d == 7 {
        "7"
    } else if d == 8 {
        "8"
    } else {
        "9"
    };
    assert(s@ =~= seq![digit_char(d as nat)]);
    s
}

/// Writes a balance as 78 decimal digits, zeros in front.
pub fn pad_balance(balance: &U256) -> (s: String)
    ensures
        s@ == pad_spec(balance@),
        s@.len() == BALANCE_WIDTH,
{
    let mut digits: Vec<u8> = Vec::new();
    let mut cur: U256 = *balance;
    let ghost mut quotients: Seq<nat> = seq![balance@];
    let mut i: usize = 0;
    while i < BALANCE_WIDTH
        invariant
            i <= BALANCE_WIDTH,
            digits.len() == i,
            quotients.len() == i + 1,
            quotients[0] == balance@,
            cur@ == quotients[i as int],
            forall|j: int| 0 <= j < i ==> (#[trigger] digits[j]) as nat == quotients[j] % 10,
            forall|j: int| 0 <= j < i ==> #[trigger] quotients[j + 1] == quotients[j] / 10,
        decreases BALANCE_WIDTH - i,
    {
        let (q, r) = cur.div_rem_10();
        digits.push(r);
        proof {
            quotients = quotients.push(q@);
        }
        cur = q;
        i += 1;
    }
    let mut s = String::new();
    let mut k: usize = BALANCE_WIDTH;
    while k > 0
        invariant
            k <= BALANCE_WIDTH,
            digits.len() == BALANCE_WIDTH,
            quotients.len() == BALANCE_WIDTH + 1,
            forall|j: int|
                0 <= j < BALANCE_WIDTH ==> (#[trigger] digits[j]) as nat == quotients[j] % 10,
            forall|j: int|
                0 <= j < BALANCE_WIDTH ==> #[trigger] quotients[j + 1] == quotients[j] / 10,
            s@ == decimal_padded(quotients[k as int], (BALANCE_WIDTH - k) as nat),
        decreases k,
    {
        k -= 1;
        let d = digits[k];
        assert(quotients[k + 1] == quotients[k as int] / 10);
        s.append(digit_str(d));
        assert(s@ =~= decimal_padded(quotients[k as int], (BALANCE_WIDTH - k) as nat));
    }
    proof {
        lemma_padded_len(balance@, BALANCE_WIDTH as nat);
    }
    s
}

/// Reads a stored balance: a text of decimal digits, with or without zeros in
/// front; the empty text reads as zero. `None` where a character is no digit
/// or the number does not fit in 256 bits.
pub fn parse_balance(text: &str) -> (r: Option<U256>)
    ensures
        r matches Some(v) ==> parse_spec(text@) == Some(v@),
        r is None ==> parse_spec(text@) is None,
{
    let chars = chars_of(text);
    parse_digits(&chars)
}

/// Reads a number from a sequence of decimal digits.
pub fn parse_digits(chars: &Vec<char>) -> (r: Option<U256>)
    ensures
        r matches Some(v) ==> parse_spec(chars@) == Some(v@),
        r is None ==> parse_spec(chars@) is None,
{
    let mut acc = U256::zero();
    let mut i: usize = 0;
    while i < chars.len()
        invariant
            i <= chars.len(),
            is_decimal(chars@.take(i as int)),
            acc@ == decimal_value(chars@.take(i as int)),
        decreases chars.len() - i,
    {
        let c = chars[i];
        if !('0' <= c && c <= '9') {
            assert(!is_digit(chars@[i as int]));
            return None;
        }
        let d: u8 = ((c as u32) - ('0' as u32)) as u8;
        proof {
            let next = chars@.take(i + 1);
            assert(next.drop_last() =~= chars@.take(i as int));
            assert(next.last() == c);
            acc.lemma_bounded();
        }
        match acc.mul10_add(d) {
            Some(v) => {
                acc = v;
            },
            None => {
                proof {
                    lemma_value_grows(chars@, i + 1);
                }
                return None;
            },
        }
        i += 1;
    }
    assert(chars@.take(i as int) =~= chars@);
    proof {
        acc.lemma_bounded();
    }
    Some(acc)
}

/// A text of digits writes a number at least as large as any of its prefixes.
pub proof fn lemma_value_grows(s: Seq<char>, k: int)
    requires
        0 <= k <= s.len(),
    ensures
        decimal_value(s.take(k)) <= decimal_value(s),
    decreases s.len() - k,
{
    if k == s.len() {
        assert(s.take(k) =~= s);
    } else {
        lemma_value_grows(s, k + 1);
        assert(s.take(k + 1).drop_last() =~= s.take(k));
    }
}

/// The digits of a text that may begin with a plus sign.
pub open spec fn unsigned_digits(s: Seq<char>) -> Seq<char> {
    if s.len() > 0 && s[0] == '+' {
        s.subrange(1, s.len() as int)
    } else {
        s
    }
}

/// The 64-bit number that a text writes in decimal: one or more digits,
/// with or without a plus sign in front, that write a number of at most 64
/// bits.
pub open spec fn parse_u64_spec(s: Seq<char>) -> Option<u64> {
    let digits = unsigned_digits(s);
    if digits.len() > 0 && is_decimal(digits) && decimal_value(digits) <= u64::MAX {
        Some(decimal_value(digits) as u64)
    } else {
        None
    }
}

/// Reads a 64-bit number from its decimal text.
pub fn parse_u64(text: &str) -> (r: Option<u64>)
    ensures
        r == parse_u64_spec(text@),
{
    let chars = chars_of(text);
    let start: usize = if chars.len() > 0 && chars[0] == '+' {
        1
    } else {
        0
    };
    let ghost digits = unsigned_digits(text@);
    assert(digits =~= chars@.subrange(start as int, chars@.len() as int));
    if start == chars.len() {
        return None;
    }
    let mut acc: u64 = 0;
    let mut i: usize = start;
    while i < chars.len()
        invariant
            start <= i <= chars.len(),
            digits == unsigned_digits(text@),
            digits.len() > 0,
            digits == chars@.subrange(start as int, chars@.len() as int),
            is_decimal(digits.take(i - start)),
            acc == decimal_value(digits.take(i - start)),
        decreases chars.len() - i,
    {
        let c = chars[i];
        if !('0' <= c && c <= '9') {
            assert(!is_digit(digits[i - start]));
            return None;
        }
        let d: u64 = ((c as u32) - ('0' as u32)) as u64;
        proof {
            let next = digits.take(i - start + 1);
            assert(next.drop_last() =~= digits.take(i - start));
            assert(next.last() == c);
            lemma_value_grows(digits, i - start + 1);
        }
        if acc > (u64::MAX - d) / 10 {
            return None;
        }
        acc = acc * 10 + d;
        i += 1;
    }
    assert(digits.take(i - start) =~= digits);
    Some(acc)
}

/// The decimal text of a number, without zeros in front; zero is `0`.
pub open spec fn decimal_text(v: nat) -> Seq<char>
    decreases v,
{
    if v < 10 {
        seq![digit_char(v)]
    } else {
        decimal_text(v / 10).push(digit_char(v % 10))
    }
}

/// Writes a number in decimal, without zeros in front.
pub fn to_decimal_string(value: &U256) -> (s: String)
    ensures
        s@ == decimal_text(value@),
{
    let mut digits: Vec<u8> = Vec::new();
    let mut cur: U256 = *value;
    let ghost mut quotients: Seq<nat> = seq![value@];
    loop
        invariant_except_break
            digits.len() + 1 == quotients.len(),
            quotients[0] == value@,
            cur@ == quotients.last(),
            forall|j: int| 0 <= j < digits.len() ==> (#[trigger] digits[j]) as nat == quotients[j] % 10,
            forall|j: int| 0 <= j < digits.len() ==> #[trigger] quotients[j + 1] == quotients[j] / 10,
            forall|j: int| 0 <= j < digits.len() ==> #[trigger] quotients[j] >= 10,
        ensures
            digits.len() == quotients.len(),
            digits.len() >= 1,
            quotients[0] == value@,
            quotients.last() < 10,
            forall|j: int| 0 <= j < digits.len() ==> (#[trigger] digits[j]) as nat == quotients[j] % 10,
            forall|j: int| 0 <= j < digits.len() - 1 ==> #[trigger] quotients[j + 1] == quotients[j] / 10,
            forall|j: int| 0 <= j < digits.len() - 1 ==> #[trigger] quotients[j] >= 10,
        decreases cur@,
    {
        let (q, r) = cur.div_rem_10();
        digits.push(r);
        if q.is_zero() {
            break ;
        }
        proof {
            quotients = quotients.push(q@);
        }
        cur = q;
    }
    let mut s = String::new();
    let mut k: usize = digits.len() - 1;
    s.append(digit_str(digits[k]));
    assert(s@ =~= decimal_text(quotients[k as int]));
    while k > 0
        invariant
            k < digits.len(),
            digits.len() == quotients.len(),
            forall|j: int| 0 <= j < digits.len() ==> (#[trigger] digits[j]) as nat == quotients[j] % 10,
            forall|j: int| 0 <= j < digits.len() - 1 ==> #[trigger] quotients[j + 1] == quotients[j] / 10,
            forall|j: int| 0 <= j < digits.len() - 1 ==> #[trigger] quotients[j] >= 10,
            s@ == decimal_text(quotients[k as int]),
        decreases k,
    {
        k -= 1;
        assert(quotients[k + 1] == quotients[k as int] / 10);
        assert(quotients[k as int] >= 10);
        s.append(digit_str(digits[k]));
        assert(s@ =~= decimal_text(quotients[k as int]));
    }
    s
}

/// Writes a 64-bit number in decimal.
pub fn u64_to_string(value: u64) -> (s: String)
    ensures
        s@ == decimal_text(value as nat),
{
    to_decimal_string(&U256::from_u64(value))
}

/// Writes a machine word in decimal.
pub fn usize_to_string(value: usize) -> (s: String)
    ensures
        s@ == decimal_text(value as nat),
{
    to_decimal_string(&U256::from_u64(value as u64))
}

} // verus!
