//! The alert formatter: a total function from a (possibly partial) overdue
//! record to the alert text. The principal amount is the raw decimal string
//! scaled down by `10^decimals` and rendered with exactly two fractional
//! digits, rounding half away from zero; anything unparseable reads as zero.

use vstd::prelude::*;
use vstd::arithmetic::div_mod::lemma_fundamental_div_mod_converse;
use vstd::string::StringExecFns;
use crate::numfmt::{
    all_digits, dec_of, digit_char, digit_str, digits_val, digits_value, i32_to_dec, int_dec_of,
    is_digit_seq, lemma_dec_of_rep, lemma_digits_val_bound, lemma_digits_val_split,
    lemma_pow10_pos, lemma_zeros_val, parse_digits, pow10,
};
use crate::record::{text_or, text_or_unknown, OverdueRecord};

verus! {

/// The number a principal string denotes: its decimal value when the string
/// is entirely digits, zero otherwise.
pub open spec fn parsed_amount(s: Seq<char>) -> nat {
    if s.len() > 0 && is_digit_seq(s) {
        digits_value(s)
    } else {
        0
    }
}

/// `v / 10^d` in hundredths, rounded to the nearest (ties away from zero).
pub open spec fn cents_of(v: nat, d: nat) -> nat {
    (v * 100 + pow10(d) / 2) / pow10(d)
}

/// A number of hundredths rendered with exactly two fractional digits.
pub open spec fn two_dec_of(c: nat) -> Seq<char> {
    dec_of(c / 100) + seq!['.', digit_char((c / 10) % 10), digit_char(c % 10)]
}

/// The formatted principal: parse, scale by `10^decimals`, render to two
/// fractional digits.
pub open spec fn principal_2dp(s: Seq<char>, decimals: nat) -> Seq<char> {
    two_dec_of(cents_of(parsed_amount(s), decimals))
}

/// The raw principal string a record formats: its own, or "0" when absent.
pub open spec fn principal_source(r: OverdueRecord) -> Seq<char> {
    match r.principal_raw {
        Some(p) => p@,
        None => "0"@,
    }
}

/// The token decimals a record formats with: its own, or zero when absent.
pub open spec fn decimals_of(r: OverdueRecord) -> nat {
    match r.token_decimals {
        Some(d) => d as nat,
        None => 0,
    }
}

/// The full alert text for one overdue record.
pub open spec fn alert_text(r: OverdueRecord, chain_id: int, timestamp: Seq<char>) -> Seq<char> {
    "🚨 Overdue Loan Alert!\nTimestamp: "@ + timestamp + "\nChain ID: "@ + int_dec_of(chain_id)
        + "\nBid ID: "@ + text_or_unknown(r.bid_id) + "\nBorrower: "@ + text_or_unknown(
        r.borrower_address,
    ) + "\nPrincipal Token: "@ + text_or_unknown(r.token_symbol) + "\nPrincipal Amount: "@
        + principal_2dp(principal_source(r), decimals_of(r)) + "\nNext Due Date: "@
        + text_or_unknown(r.next_due_date) + "\nStatus: "@ + text_or_unknown(r.status)
}

proof fn lemma_pow10_mono(a: nat, b: nat)
    requires
        a <= b,
    ensures
        pow10(a) <= pow10(b),
    decreases b,
{
    if a < b {
        lemma_pow10_mono(a, (b - 1) as nat);
        lemma_pow10_pos((b - 1) as nat);
    }
}

proof fn lemma_digits_val_push(s: Seq<u8>, x: u8)
    ensures
        digits_val(s.push(x)) == digits_val(s) * 10 + x,
{
    assert(s.push(x).drop_last() =~= s);
    assert(s.push(x).last() == x);
}

/// The leading digit decides which half of its range a digit string's value
/// falls in: it is at least 5 exactly when twice the value reaches the next
/// power of ten.
proof fn lemma_first_digit_half(s: Seq<u8>)
    requires
        all_digits(s),
        s.len() >= 1,
    ensures
        (s[0] >= 5) == (2 * digits_val(s) >= pow10(s.len())),
{
    reveal_with_fuel(digits_val, 3);
    lemma_digits_val_split(s, 1);
    assert(all_digits(s.skip(1))) by {
        assert forall|i: int| 0 <= i < s.skip(1).len() implies #[trigger] s.skip(1)[i] < 10 by {
            assert(s.skip(1)[i] == s[i + 1]);
        }
    }
    lemma_digits_val_bound(s.skip(1));
    assert(s.take(1).drop_last() =~= Seq::<u8>::empty());
    assert(digits_val(s.take(1)) == s[0] as nat);
    let pten = pow10((s.len() - 1) as nat);
    assert(pow10(s.len()) == 10 * pten);
    lemma_pow10_pos((s.len() - 1) as nat);
    let r = digits_val(s.skip(1));
    let v = digits_val(s);
    assert(v == s[0] * pten + r);
    if s[0] >= 5 {
        assert(2 * v >= 10 * pten) by (nonlinear_arith)
            requires
                v == s[0] * pten + r,
                s[0] >= 5,
                pten >= 1,
                r >= 0,
        ;
    } else {
        assert(2 * v < 10 * pten) by (nonlinear_arith)
            requires
                v == s[0] * pten + r,
                s[0] < 5,
                r < pten,
                pten >= 1,
        ;
    }
}

/// Rounding in hundredths: with `k` digits dropped, the rounded value is the
/// kept digits' value, plus one exactly when the dropped half reaches the
/// midpoint.
proof fn lemma_cents_round(q: nat, r: nat, k: nat, up: bool)
    requires
        1 <= k,
        r < pow10(k),
        up == (2 * r >= pow10(k)),
    ensures
        cents_of(q * pow10(k) + r, (k + 2) as nat) == q + if up {
            1nat
        } else {
            0nat
        },
{
    let pk = pow10(k);
    let p = pow10((k + 2) as nat);
    lemma_pow10_pos(k);
    assert(pow10((k + 2) as nat) == 10 * pow10((k + 1) as nat));
    assert(pow10((k + 1) as nat) == 10 * pk);
    assert(p == 100 * pk);
    lemma_fundamental_div_mod_converse(p as int, 2, (50 * pk) as int, 0);
    assert(p / 2 == 50 * pk);
    let v = q * pk + r;
    let a = 100 * r + 50 * pk;
    assert(v * 100 + p / 2 == q * p + a) by (nonlinear_arith)
        requires
            v == q * pk + r,
            p == 100 * pk,
            p / 2 == 50 * pk,
            a == 100 * r + 50 * pk,
    ;
    if up {
        assert(a >= p);
        assert(a < 2 * p);
        assert(q * p + a == (q + 1) * p + (a - p)) by (nonlinear_arith);
        lemma_fundamental_div_mod_converse(
            (v * 100 + p / 2) as int,
            p as int,
            (q + 1) as int,
            (a - p) as int,
        );
    } else {
        assert(a < p);
        lemma_fundamental_div_mod_converse((v * 100 + p / 2) as int, p as int, q as int, a as int);
    }
}

/// Add one to a digit string, carrying as far as needed.
fn inc_digits(digs: Vec<u8>) -> (r: Vec<u8>)
    requires
        all_digits(digs@),
    ensures
        all_digits(r@),
        digits_val(r@) == digits_val(digs@) + 1,
    decreases digs@.len(),
{
    let ghost orig = digs@;
    let mut v = digs;
    if v.len() == 0 {
        v.push(1);
        proof {
            lemma_digits_val_push(orig, 1);
            assert(all_digits(v@));
        }
        v
    } else {
        let lastd = v.pop().unwrap();
        proof {
            assert(v@.push(lastd) =~= orig);
            lemma_digits_val_push(v@, lastd);
            assert(all_digits(v@)) by {
                assert(forall|i: int| 0 <= i < v@.len() ==> #[trigger] v@[i] == orig[i]);
            }
        }
        if lastd < 9 {
            let ghost kept = v@;
            v.push(lastd + 1);
            proof {
                lemma_digits_val_push(kept, (lastd + 1) as u8);
            }
            v
        } else {
            let mut w = inc_digits(v);
            let ghost bumped = w@;
            w.push(0);
            proof {
                lemma_digits_val_push(bumped, 0);
            }
            w
        }
    }
}

/// Leading zeros never change a digit string's value.
proof fn lemma_leading_zeros_val(t: Seq<u8>, f: int)
    requires
        0 <= f <= t.len(),
        forall|i: int| 0 <= i < f ==> #[trigger] t[i] == 0,
    ensures
        digits_val(t.skip(f)) == digits_val(t),
{
    lemma_digits_val_split(t, f);
    lemma_zeros_val(t.take(f));
    assert(forall|i: int| 0 <= i < t.take(f).len() ==> #[trigger] t.take(f)[i] == 0);
    lemma_zeros_val(t.take(f));
    assert(digits_val(t) == 0 * pow10((t.len() - f) as nat) + digits_val(t.skip(f)));
}

/// Reading a digit string of at least three digits as hundredths: the last
/// two digits are the fractional part, the rest the integer part.
proof fn lemma_split_hundredths(s: Seq<u8>)
    requires
        all_digits(s),
        s.len() >= 3,
    ensures
        digits_val(s) / 100 == digits_val(s.take(s.len() - 2)),
        digits_val(s) % 10 == s[s.len() - 1] as nat,
        (digits_val(s) / 10) % 10 == s[s.len() - 2] as nat,
{
    reveal_with_fuel(digits_val, 3);
    let m = s.len() as int;
    let cval = digits_val(s);
    lemma_digits_val_split(s, m - 2);
    assert(all_digits(s.skip(m - 2))) by {
        assert(forall|i: int|
            0 <= i < s.skip(m - 2).len() ==> #[trigger] s.skip(m - 2)[i] == s[i + m - 2]);
    }
    lemma_digits_val_bound(s.skip(m - 2));
    assert(pow10(2) == 100) by {
        assert(pow10(2) == 10 * pow10(1));
        assert(pow10(1) == 10 * pow10(0));
    }
    let tail = s.skip(m - 2);
    assert(tail.len() == 2);
    assert(tail.drop_last().drop_last() =~= Seq::<u8>::empty());
    assert(tail.drop_last().last() == s[m - 2]);
    assert(tail.last() == s[m - 1]);
    assert(digits_val(tail) == s[m - 2] * 10 + s[m - 1]);
    let upper = digits_val(s.take(m - 2));
    let a = s[m - 2] as nat;
    let b = s[m - 1] as nat;
    assert(cval == upper * 100 + (a * 10 + b));
    lemma_fundamental_div_mod_converse(cval as int, 100, upper as int, (a * 10 + b) as int);
    assert(cval == (upper * 10 + a) * 10 + b) by (nonlinear_arith)
        requires
            cval == upper * 100 + (a * 10 + b),
    ;
    lemma_fundamental_div_mod_converse(cval as int, 10, (upper * 10 + a) as int, b as int);
    lemma_fundamental_div_mod_converse((upper * 10 + a) as int, 10, upper as int, a as int);
}

/// Render a hundredths count, held as a digit string, with two fractional
/// digits.
#[verifier::rlimit(100)]
#[verifier::spinoff_prover]
fn render_cents(cents: &Vec<u8>) -> (out: String)
    requires
        all_digits(cents@),
    ensures
        out@ == two_dec_of(digits_val(cents@)),
{
    let ghost cval = digits_val(cents@);
    // Pad on the left with zeros so there is an integer digit and two
    // fractional digits to read off.
    let mut padded: Vec<u8> = Vec::new();
    let zeros: usize = if cents.len() < 3 {
        3 - cents.len()
    } else {
        0
    };
    let mut t: usize = 0;
    while t < zeros
        invariant
            t <= zeros,
            padded@.len() == t,
            forall|i: int| 0 <= i < t ==> #[trigger] padded@[i] == 0,
        decreases zeros - t,
    {
        padded.push(0);
        t = t + 1;
    }
    let ghost zpart = padded@;
    let mut j: usize = 0;
    while j < cents.len()
        invariant
            j <= cents@.len(),
            all_digits(cents@),
            padded@ == zpart + cents@.take(j as int),
        decreases cents@.len() - j,
    {
        padded.push(cents[j]);
        proof {
            assert(padded@ =~= zpart + cents@.take(j as int + 1));
        }
        j = j + 1;
    }
    proof {
        assert(padded@ =~= zpart + cents@);
        assert(padded@.skip(zpart.len() as int) =~= cents@);
        lemma_leading_zeros_val(padded@, zpart.len() as int);
        assert(digits_val(padded@) == cval);
        assert(all_digits(padded@)) by {
            assert(forall|i: int|
                0 <= i < padded@.len() ==> zpart.len() <= i ==> padded@[i] == cents@[i
                    - zpart.len()]);
        }
    }
    let m = padded.len();
    let ghost upper = digits_val(padded@.take(m - 2));
    proof {
        assert(m >= 3);
        lemma_split_hundredths(padded@);
        assert(cval / 100 == upper);
        assert(cval % 10 == padded@[m - 1] as nat);
        assert((cval / 10) % 10 == padded@[m - 2] as nat);
    }
    // Strip leading zeros off the integer digits, keeping at least one digit.
    let mut f: usize = 0;
    while f < m - 2 && padded[f] == 0
        invariant
            f <= m - 2,
            m == padded@.len(),
            m >= 3,
            forall|i: int| 0 <= i < f ==> #[trigger] padded@[i] == 0,
        decreases m - 2 - f,
    {
        f = f + 1;
    }
    let mut out = String::new();
    if f == m - 2 {
        proof {
            assert(forall|i: int| 0 <= i < m - 2 ==> #[trigger] padded@.take(m - 2)[i] == 0);
            lemma_zeros_val(padded@.take(m - 2));
            assert(upper == 0);
        }
        out.append(digit_str(0));
        proof {
            assert(out@ =~= dec_of(upper));
        }
    } else {
        let ghost core = padded@.subrange(f as int, m - 2);
        proof {
            let t = padded@.take(m - 2);
            assert(forall|i: int| 0 <= i < f ==> #[trigger] t[i] == 0);
            lemma_leading_zeros_val(t, f as int);
            assert(t.skip(f as int) =~= core);
            assert(digits_val(core) == upper);
            assert(all_digits(core)) by {
                assert(forall|i: int|
                    0 <= i < core.len() ==> #[trigger] core[i] == padded@[i + f]);
            }
            assert(core[0] == padded@[f as int]);
            assert(core[0] != 0);
            lemma_dec_of_rep(core);
        }
        let mut g = f;
        while g < m - 2
            invariant
                f <= g <= m - 2,
                m == padded@.len(),
                all_digits(padded@),
                out@ == padded@.subrange(f as int, g as int).map_values(
                    |d: u8| digit_char(d as nat),
                ),
            decreases m - 2 - g,
        {
            out.append(digit_str(padded[g]));
            proof {
                assert(padded@.subrange(f as int, g as int + 1).map_values(
                    |d: u8| digit_char(d as nat),
                ) =~= padded@.subrange(f as int, g as int).map_values(|d: u8| digit_char(d as nat))
                    + seq![digit_char(padded@[g as int] as nat)]);
                assert(out@ =~= padded@.subrange(f as int, g as int + 1).map_values(
                    |d: u8| digit_char(d as nat),
                ));
            }
            g = g + 1;
        }
        proof {
            assert(out@ == core.map_values(|d: u8| digit_char(d as nat)));
            assert(out@ =~= dec_of(upper));
        }
    }
    out.append(".");
    out.append(digit_str(padded[m - 2]));
    out.append(digit_str(padded[m - 1]));
    proof {
        reveal_strlit(".");
        assert(out@ =~= two_dec_of(cval));
    }
    out
}

/// Format a raw principal with a decimal scale: the digits of `raw` divided
/// by `10^decimals`, to exactly two fractional places, half rounded up; any
/// non-digit input counts as zero.
pub fn format_principal(raw: &str, decimals: u64) -> (out: String)
    ensures
        out@ == principal_2dp(raw@, decimals as nat),
{
    let (digs, ok) = parse_digits(raw);
    let ghost v = parsed_amount(raw@);
    let mut work = digs;
    proof {
        assert(digits_val(work@) == v);
    }
    let cents: Vec<u8>;
    if decimals == 0 {
        let ghost w0 = work@;
        work.push(0);
        let ghost w1 = work@;
        work.push(0);
        proof {
            lemma_digits_val_push(w0, 0);
            lemma_digits_val_push(w1, 0);
            lemma_fundamental_div_mod_converse((v * 100) as int, 1, (v * 100) as int, 0);
            assert(digits_val(work@) == v * 100);
            assert(cents_of(v, 0) == v * 100);
        }
        cents = work;
    } else if decimals == 1 {
        let ghost w0 = work@;
        work.push(0);
        proof {
            lemma_digits_val_push(w0, 0);
            assert(pow10(1) == 10 * pow10(0));
            assert(v * 100 + 5 == (v * 10) * 10 + 5) by (nonlinear_arith);
            lemma_fundamental_div_mod_converse((v * 100 + 5) as int, 10, (v * 10) as int, 5);
            assert(cents_of(v, 1) == v * 10);
        }
        cents = work;
    } else if decimals == 2 {
        proof {
            assert(pow10(2) == 10 * pow10(1));
            assert(pow10(1) == 10 * pow10(0));
            lemma_fundamental_div_mod_converse((v * 100 + 50) as int, 100, v as int, 50);
            assert(cents_of(v, 2) == v);
        }
        cents = work;
    } else {
        let k64 = decimals - 2;
        let ghost k = k64 as nat;
        if (work.len() as u64) < k64 {
            // Every digit is dropped and the value is below half of the
            // smallest kept unit: the amount rounds to zero hundredths.
            proof {
                lemma_digits_val_bound(work@);
                lemma_pow10_mono(work@.len(), (k - 1) as nat);
                lemma_pow10_pos((k - 1) as nat);
                assert(pow10(k) == 10 * pow10((k - 1) as nat));
                assert(2 * v < pow10(k));
                lemma_cents_round(0, v, k, false);
                assert(0 * pow10(k) + v == v) by (nonlinear_arith);
            }
            cents = Vec::new();
        } else if (work.len() as u64) == k64 {
            let up = work[0] >= 5;
            proof {
                lemma_digits_val_bound(work@);
                lemma_first_digit_half(work@);
                lemma_cents_round(0, v, k, up);
                assert(0 * pow10(k) + v == v) by (nonlinear_arith);
            }
            let base: Vec<u8> = Vec::new();
            if up {
                cents = inc_digits(base);
            } else {
                cents = base;
            }
        } else {
            // work.len() > k64 >= 1, so the cast below keeps the value.
            let keep: usize = work.len() - (k64 as usize);
            let up = work[keep] >= 5;
            let ghost whole = work@;
            let ghost q = digits_val(whole.take(keep as int));
            let ghost r = digits_val(whole.skip(keep as int));
            proof {
                lemma_digits_val_split(whole, keep as int);
                assert(all_digits(whole.skip(keep as int))) by {
                    assert(forall|i: int|
                        0 <= i < whole.skip(keep as int).len() ==> #[trigger] whole.skip(
                            keep as int,
                        )[i] == whole[i + keep]);
                }
                lemma_digits_val_bound(whole.skip(keep as int));
                lemma_first_digit_half(whole.skip(keep as int));
                assert(whole.skip(keep as int)[0] == whole[keep as int]);
                lemma_cents_round(q, r, k, up);
                assert(all_digits(whole.take(keep as int))) by {
                    assert(forall|i: int|
                        0 <= i < keep ==> #[trigger] whole.take(keep as int)[i] == whole[i]);
                }
            }
            work.truncate(keep);
            proof {
                assert(work@ =~= whole.take(keep as int));
            }
            if up {
                cents = inc_digits(work);
            } else {
                cents = work;
            }
        }
    }
    render_cents(&cents)
}

/// Format one overdue record as the alert text: banner, timestamp, chain id,
/// and every record field, absent ones reading as the sentinel and the
/// principal scaled to a two-decimal amount. Total over arbitrary input.
pub fn format_bid_alert(bid: &OverdueRecord, chain_id: i32, timestamp: &str) -> (r: String)
    ensures
        r@ == alert_text(*bid, chain_id as int, timestamp@),
{
    let mut out = "🚨 Overdue Loan Alert!\nTimestamp: ".to_owned();
    out.append(timestamp);
    out.append("\nChain ID: ");
    out.append(i32_to_dec(chain_id).as_str());
    out.append("\nBid ID: ");
    out.append(text_or(&bid.bid_id));
    out.append("\nBorrower: ");
    out.append(text_or(&bid.borrower_address));
    out.append("\nPrincipal Token: ");
    out.append(text_or(&bid.token_symbol));
    out.append("\nPrincipal Amount: ");
    let raw: &str = match &bid.principal_raw {
        Some(p) => p.as_str(),
        None => "0",
    };
    let decimals: u64 = match bid.token_decimals {
        Some(d) => d,
        None => 0,
    };
    out.append(format_principal(raw, decimals).as_str());
    out.append("\nNext Due Date: ");
    out.append(text_or(&bid.next_due_date));
    out.append("\nStatus: ");
    out.append(text_or(&bid.status));
    proof {
        assert(out@ =~= alert_text(*bid, chain_id as int, timestamp@));
    }
    out
}

} // verus!
