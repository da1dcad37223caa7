//! Decimal digits: specifications for reading and rendering base-10 numbers,
//! and the executable helpers the formatter and key builder share.

use vstd::prelude::*;
use vstd::arithmetic::div_mod::lemma_fundamental_div_mod_converse;
use vstd::string::StringExecFns;

verus! {

/// `10^n`.
pub open spec fn pow10(n: nat) -> nat
    decreases n,
{
    if n == 0 {
        1
    } else {
        10 * pow10((n - 1) as nat)
    }
}

pub proof fn lemma_pow10_pos(n: nat)
    ensures
        pow10(n) >= 1,
    decreases n,
{
    if n > 0 {
        lemma_pow10_pos((n - 1) as nat);
    }
}

/// The character that renders the decimal digit `d`.
pub open spec fn digit_char(d: nat) -> char {
    if d == 0 {
        '0'
    } else if d == 1 {
        '1'
    } else if d == 2 {
        '2'
    } else if d == 3 {
        '3'
    } else if d == 4 {
        '4'
    } else if d == 5 {
        '5'
    } else if d == 6 {
        '6'
    } else if d == 7 {
        '7'
    } else if d == 8 {
        '8'
    } else {
        '9'
    }
}

/// The value of a decimal digit character; 10 marks a character that is no digit.
pub open spec fn char_digit(c: char) -> nat {
    if c == '0' {
        0
    } else if c == '1' {
        1
    } else if c == '2' {
        2
    } else if c == '3' {
        3
    } else if c == '4' {
        4
    } else if c == '5' {
        5
    } else if c == '6' {
        6
    } else if c == '7' {
        7
    } else if c == '8' {
        8
    } else if c == '9' {
        9
    } else {
        10
    }
}

pub open spec fn is_digit(c: char) -> bool {
    char_digit(c) < 10
}

pub open spec fn is_digit_seq(s: Seq<char>) -> bool {
    forall|i: int| 0 <= i < s.len() ==> is_digit(#[trigger] s[i])
}

/// The number that a sequence of decimal digit characters denotes, most
/// significant digit first. The empty sequence denotes 0.
pub open spec fn digits_value(s: Seq<char>) -> nat
    decreases s.len(),
{
    if s.len() == 0 {
        0
    } else {
        digits_value(s.drop_last()) * 10 + char_digit(s.last())
    }
}

/// The value of a sequence of digit values (each below 10), most significant first.
pub open spec fn digits_val(s: Seq<u8>) -> nat
    decreases s.len(),
{
    if s.len() == 0 {
        0
    } else {
        digits_val(s.drop_last()) * 10 + s.last() as nat
    }
}

pub open spec fn all_digits(s: Seq<u8>) -> bool {
    forall|i: int| 0 <= i < s.len() ==> #[trigger] s[i] < 10
}

/// The canonical decimal rendering of `n`: no leading zeros, at least one digit.
pub open spec fn dec_of(n: nat) -> Seq<char>
    decreases n,
{
    if n < 10 {
        seq![digit_char(n)]
    } else {
        dec_of(n / 10) + seq![digit_char(n % 10)]
    }
}

/// Digit-value sequences that agree pointwise with a digit-character sequence
/// denote the same number.
pub proof fn lemma_val_matches_value(s: Seq<char>, t: Seq<u8>)
    requires
        t.len() == s.len(),
        forall|i: int| 0 <= i < s.len() ==> t[i] as nat == char_digit(#[trigger] s[i]),
    ensures
        digits_val(t) == digits_value(s),
    decreases s.len(),
{
    reveal_with_fuel(digits_val, 2);
    reveal_with_fuel(digits_value, 2);
    if s.len() > 0 {
        lemma_val_matches_value(s.drop_last(), t.drop_last());
    }
}

/// Splitting a digit sequence splits its value: the head digits are scaled by
/// ten to the number of tail digits.
pub proof fn lemma_digits_val_split(s: Seq<u8>, i: int)
    requires
        0 <= i <= s.len(),
    ensures
        digits_val(s) == digits_val(s.take(i)) * pow10((s.len() - i) as nat) + digits_val(
            s.skip(i),
        ),
    decreases s.len() - i,
{
    reveal_with_fuel(digits_val, 3);
    if i == s.len() {
        assert(s.take(i) =~= s);
        assert(s.skip(i) =~= Seq::<u8>::empty());
        assert(digits_val(s.skip(i)) == 0);
        assert(pow10((s.len() - i) as nat) == 1);
        assert(digits_val(s.take(i)) * 1 == digits_val(s.take(i)));
    } else {
        let dl = s.drop_last();
        lemma_digits_val_split(dl, i);
        assert(dl.take(i) =~= s.take(i));
        assert(s.skip(i).drop_last() =~= dl.skip(i));
        assert(s.skip(i).last() == s.last());
        let a = digits_val(s.take(i));
        let b = digits_val(dl.skip(i));
        let c = s.last() as nat;
        let p = pow10((dl.len() - i) as nat);
        assert(pow10((s.len() - i) as nat) == 10 * p);
        assert(digits_val(s) == (a * p + b) * 10 + c);
        assert(digits_val(s.skip(i)) == b * 10 + c);
        assert((a * p + b) * 10 + c == a * (10 * p) + (b * 10 + c)) by (nonlinear_arith);
        assert(digits_val(s) == a * pow10((s.len() - i) as nat) + digits_val(s.skip(i)));
    }
}

/// A sequence of `n` decimal digits denotes a number below `10^n`.
pub proof fn lemma_digits_val_bound(s: Seq<u8>)
    requires
        all_digits(s),
    ensures
        digits_val(s) < pow10(s.len()),
    decreases s.len(),
{
    reveal_with_fuel(digits_val, 2);
    if s.len() > 0 {
        lemma_digits_val_bound(s.drop_last());
        let v = digits_val(s.drop_last());
        let p = pow10((s.len() - 1) as nat);
        assert(pow10(s.len()) == 10 * p);
        assert(v < p && s.last() < 10 ==> v * 10 + s.last() < 10 * p) by (nonlinear_arith);
    }
}

/// All-zero digit sequences denote zero, so leading zeros never change a value.
pub proof fn lemma_zeros_val(s: Seq<u8>)
    requires
        forall|i: int| 0 <= i < s.len() ==> #[trigger] s[i] == 0,
    ensures
        digits_val(s) == 0,
    decreases s.len(),
{
    reveal_with_fuel(digits_val, 2);
    if s.len() > 0 {
        lemma_zeros_val(s.drop_last());
    }
}

/// The canonical rendering consists of digits, is never empty, and starts
/// with a nonzero digit unless the number itself is below ten.
pub proof fn lemma_dec_of_shape(n: nat)
    ensures
        dec_of(n).len() >= 1,
        is_digit_seq(dec_of(n)),
        n >= 1 ==> dec_of(n)[0] != '0',
        n >= 10 ==> dec_of(n).len() >= 2,
    decreases n,
{
    if n >= 10 {
        lemma_dec_of_shape(n / 10);
        let head = dec_of(n / 10);
        let tail = seq![digit_char(n % 10)];
        assert forall|i: int| 0 <= i < dec_of(n).len() implies is_digit(#[trigger] dec_of(n)[i]) by {
            if i < head.len() {
                assert(dec_of(n)[i] == head[i]);
            } else {
                assert(dec_of(n)[i] == tail[i - head.len()]);
            }
        }
        assert(dec_of(n)[0] == head[0]);
    }
}

/// Reading back the canonical rendering yields the number itself.
pub proof fn lemma_dec_of_value(n: nat)
    ensures
        digits_value(dec_of(n)) == n,
    decreases n,
{
    reveal_with_fuel(digits_value, 3);
    reveal_with_fuel(dec_of, 2);
    if n < 10 {
        assert(dec_of(n).drop_last() =~= Seq::<char>::empty());
    } else {
        lemma_dec_of_value(n / 10);
        let s = dec_of(n);
        assert(s.drop_last() =~= dec_of(n / 10));
        assert(s.last() == digit_char(n % 10));
        assert(digits_value(s) == (n / 10) * 10 + (n % 10));
        lemma_fundamental_div_mod_converse(n as int, 10, n as int / 10, n as int % 10);
        assert((n / 10) * 10 + (n % 10) == n);
    }
}

/// A digit-value sequence without a leading zero renders, digit by digit,
/// exactly as the canonical rendering of its value.
pub proof fn lemma_dec_of_rep(s: Seq<u8>)
    requires
        s.len() > 0,
        all_digits(s),
        s.len() == 1 || s[0] != 0,
    ensures
        dec_of(digits_val(s)) =~= s.map_values(|d: u8| digit_char(d as nat)),
    decreases s.len(),
{
    reveal_with_fuel(digits_val, 3);
    reveal_with_fuel(dec_of, 2);
    let v = digits_val(s);
    if s.len() == 1 {
        assert(s.drop_last() =~= Seq::<u8>::empty());
        assert(v == s[0] as nat);
    } else {
        let dl = s.drop_last();
        assert(digits_val(s) == digits_val(dl) * 10 + s.last());
        lemma_digits_val_split(dl, 1);
        assert(dl.take(1).drop_last() =~= Seq::<u8>::empty());
        assert(digits_val(dl.take(1)) == s[0] as nat);
        lemma_pow10_pos((dl.len() - 1) as nat);
        assert(s[0] >= 1 ==> digits_val(dl) >= 1 * pow10((dl.len() - 1) as nat)) by (
        nonlinear_arith)
            requires
                digits_val(dl) == digits_val(dl.take(1)) * pow10((dl.len() - 1) as nat)
                    + digits_val(dl.skip(1)),
                digits_val(dl.take(1)) == s[0] as nat,
        ;
        assert(pow10((dl.len() - 1) as nat) >= 1);
        assert(digits_val(dl) >= 1);
        assert(v >= 10) by (nonlinear_arith)
            requires
                v == digits_val(dl) * 10 + s.last(),
                digits_val(dl) >= 1,
        ;
        lemma_fundamental_div_mod_converse(v as int, 10, digits_val(dl) as int, s.last() as int);
        assert(v / 10 == digits_val(dl));
        assert(v % 10 == s.last() as nat);
        lemma_dec_of_rep(dl);
        assert(dec_of(v) == dec_of(digits_val(dl)) + seq![digit_char((s.last()) as nat)]);
        assert(dl.map_values(|d: u8| digit_char(d as nat)) =~= s.map_values(
            |d: u8| digit_char(d as nat),
        ).drop_last());
        assert(dec_of(v) =~= s.map_values(|d: u8| digit_char(d as nat)));
    }
}

/// The decimal rendering of a signed number: a minus sign before the
/// magnitude when it is negative.
pub open spec fn int_dec_of(n: int) -> Seq<char> {
    if n < 0 {
        seq!['-'] + dec_of((-n) as nat)
    } else {
        dec_of(n as nat)
    }
}

/// A single decimal digit character, as a borrowed string.
pub fn digit_str(d: u8) -> (r: &'static str)
    requires
        d < 10,
    ensures
        r@ == seq![digit_char(d as nat)],
{
    proof {
        reveal_strlit("0");
        reveal_strlit("1");
        reveal_strlit("2");
        reveal_strlit("3");
        reveal_strlit("4");
        reveal_strlit("5");
        reveal_strlit("6");
        reveal_strlit("7");
        reveal_strlit("8");
        reveal_strlit("9");
    }
    let r = if d == 0 {
        "0"
    } else if d == 1 {
        "1"
    } else if d == 2 {
        "2"
    } else if d == 3 {
        "3"
    } else if d == 4 {
        "4"
    } else if d == 5 {
        "5"
    } else if d == 6 {
        "6"
    } else if d == 7 {
        "7"
    } else if d == 8 {
        "8"
    } else {
        "9"
    };
    proof {
        assert(r@ =~= seq![digit_char(d as nat)]);
    }
    r
}

/// The value of a digit character; 10 for any character that is no digit.
pub fn char_to_digit(c: char) -> (r: u8)
    ensures
        r as nat == char_digit(c),
        r <= 10,
{
    if c == '0' {
        0
    } else if c == '1' {
        1
    } else if c == '2' {
        2
    } else if c == '3' {
        3
    } else if c == '4' {
        4
    } else if c == '5' {
        5
    } else if c == '6' {
        6
    } else if c == '7' {
        7
    } else if c == '8' {
        8
    } else if c == '9' {
        9
    } else {
        10
    }
}

/// Render `n` in decimal, most significant digit first.
pub fn u64_to_dec(n: u64) -> (r: String)
    ensures
        r@ == dec_of(n as nat),
    decreases n,
{
    if n < 10 {
        let d = digit_str(n as u8);
        let r = d.to_owned();
        proof {
            assert(r@ =~= dec_of(n as nat));
        }
        r
    } else {
        let mut r = u64_to_dec(n / 10);
        r.append(digit_str((n % 10) as u8));
        proof {
            assert(r@ =~= dec_of(n as nat));
        }
        r
    }
}

/// Render a signed number in decimal.
pub fn i32_to_dec(n: i32) -> (r: String)
    ensures
        r@ == int_dec_of(n as int),
{
    proof {
        reveal_strlit("-");
    }
    if n < 0 {
        let magnitude: u64 = (-(n as i64)) as u64;
        let mut s = "-".to_owned();
        s.append(u64_to_dec(magnitude).as_str());
        proof {
            assert(s@ =~= int_dec_of(n as int));
        }
        s
    } else {
        u64_to_dec(n as u64)
    }
}

/// Render a signed 64-bit number in decimal.
pub fn i64_to_dec(n: i64) -> (r: String)
    ensures
        r@ == int_dec_of(n as int),
{
    proof {
        reveal_strlit("-");
    }
    if n < 0 {
        let magnitude: u64 = (-(n as i128)) as u64;
        let mut s = "-".to_owned();
        s.append(u64_to_dec(magnitude).as_str());
        proof {
            assert(s@ =~= int_dec_of(n as int));
        }
        s
    } else {
        u64_to_dec(n as u64)
    }
}

/// Parse a string of decimal digits into digit values, most significant
/// first. The flag reports whether the whole string was digits (and
/// non-empty); otherwise no digits are returned.
pub fn parse_digits(raw: &str) -> (r: (Vec<u8>, bool))
    ensures
        r.1 == (raw@.len() > 0 && is_digit_seq(raw@)),
        r.1 ==> digits_val(r.0@) == digits_value(raw@),
        all_digits(r.0@),
        !r.1 ==> r.0@.len() == 0,
{
    let n = raw.unicode_len();
    let mut digs: Vec<u8> = Vec::new();
    if n == 0 {
        return (digs, false);
    }
    let mut i: usize = 0;
    let mut ok = true;
    while i < n
        invariant
            i <= n,
            n == raw@.len(),
            ok ==> digs@.len() == i && forall|j: int|
                0 <= j < i ==> is_digit(#[trigger] raw@[j]) && digs@[j] as nat == char_digit_at(
                    raw@,
                    j,
                ),
            !ok ==> exists|j: int| 0 <= j < i && !is_digit(#[trigger] raw@[j]),
            all_digits(digs@),
        decreases n - i,
    {
        if ok {
            let c = raw.get_char(i);
            let d = char_to_digit(c);
            if d < 10 {
                digs.push(d);
            } else {
                ok = false;
            }
        }
        i = i + 1;
    }
    if ok {
        proof {
            lemma_val_matches_value(raw@, digs@);
        }
        (digs, true)
    } else {
        proof {
            assert(!is_digit_seq(raw@));
        }
        (Vec::new(), false)
    }
}

/// The digit value at one position of a character sequence.
pub open spec fn char_digit_at(s: Seq<char>, j: int) -> nat {
    char_digit(s[j])
}

/// Parse a decimal string as an unsigned number: `Some` exactly when the
/// string is all digits, non-empty, and its value fits.
pub fn parse_u64(raw: &str) -> (r: Option<u64>)
    ensures
        match r {
            Some(n) => raw@.len() > 0 && is_digit_seq(raw@) && n as nat == digits_value(raw@),
            None => !(raw@.len() > 0 && is_digit_seq(raw@) && digits_value(raw@) <= u64::MAX),
        },
{
    let (digs, ok) = parse_digits(raw);
    if !ok {
        return None;
    }
    let mut acc: u128 = 0;
    let mut i: usize = 0;
    while i < digs.len()
        invariant
            i <= digs@.len(),
            all_digits(digs@),
            acc as nat == digits_val(digs@.take(i as int)),
            acc <= u64::MAX as u128,
            digits_val(digs@) == digits_value(raw@),
        decreases digs@.len() - i,
    {
        let d = digs[i];
        let next: u128 = acc * 10 + d as u128;
        proof {
            assert(digs@.take(i as int).push(digs@[i as int]) =~= digs@.take(i as int + 1));
            assert(digs@.take(i as int + 1).drop_last() =~= digs@.take(i as int));
            assert(digits_val(digs@.take(i as int + 1)) == digits_val(digs@.take(i as int)) * 10
                + digs@[i as int]);
        }
        if next > u64::MAX as u128 {
            proof {
                lemma_digits_val_split(digs@, i as int + 1);
                lemma_pow10_pos((digs@.len() - i - 1) as nat);
                let head = digits_val(digs@.take(i as int + 1));
                let p = pow10((digs@.len() - i - 1) as nat);
                assert(head * p >= head * 1) by (nonlinear_arith)
                    requires
                        p >= 1,
                        head >= 0,
                ;
                assert(digits_val(digs@) > u64::MAX);
            }
            return None;
        }
        acc = next;
        i = i + 1;
    }
    proof {
        assert(digs@.take(digs@.len() as int) =~= digs@);
    }
    Some(acc as u64)
}

} // verus!
