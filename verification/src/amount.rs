//! Balance amounts as fixed-point integers: an `i128` counting hundred-millionths
//! (eight decimal places). A balance field that does not parse as a plain decimal
//! number, or whose value does not fit, contributes zero, mirroring a lenient
//! numeric read of exchange responses. The grammar is deliberately plain
//! decimals only — an optional sign, digits, and at most one dot — so
//! exponent and special forms (`1e5`, `inf`, `NaN`) contribute zero, and
//! fractional digits beyond the eighth are cut; exchange balance fields use
//! none of those forms.
use crate::text::{all_digits, dec_val, first_byte_from, lemma_dec_val_prefix};
use vstd::prelude::*;

verus! {

/// One whole unit, in fixed-point steps.
pub open spec fn scale() -> nat {
    100000000
}

pub open spec fn pow10(n: nat) -> nat
    decreases n,
{
    if n == 0 {
        1
    } else {
        10 * pow10((n - 1) as nat)
    }
}

pub proof fn lemma_dec_val_bound(s: Seq<u8>)
    requires
        all_digits(s),
    ensures
        dec_val(s) < pow10(s.len()),
    decreases s.len(),
{
    if s.len() > 0 {
        lemma_dec_val_bound(s.drop_last());
        assert(48 <= s[s.len() - 1] <= 57);
    }
}

/// The sign of a decimal literal, and its body: what follows the leading
/// `-` or `+`, where one stands.
pub open spec fn sign_of(s: Seq<u8>) -> (bool, Seq<u8>) {
    if s.len() > 0 && s[0] == 45 {
        (true, s.drop_first())
    } else if s.len() > 0 && s[0] == 43 {
        (false, s.drop_first())
    } else {
        (false, s)
    }
}

/// The integer digits of a literal's body: what stands before the first dot.
pub open spec fn int_part(body: Seq<u8>) -> Seq<u8> {
    match first_byte_from(body, 46, 0) {
        Some(d) => body.subrange(0, d),
        None => body,
    }
}

/// The fractional digits of a literal's body: what follows the first dot.
pub open spec fn frac_part(body: Seq<u8>) -> Seq<u8> {
    match first_byte_from(body, 46, 0) {
        Some(d) => body.subrange(d + 1, body.len() as int),
        None => Seq::empty(),
    }
}

/// A decimal literal: optional sign, digits, optionally a dot and more digits,
/// with at least one digit in all. Fractional digits beyond the eighth are cut.
pub open spec fn is_decimal(s: Seq<u8>) -> bool {
    let body = sign_of(s).1;
    all_digits(int_part(body)) && all_digits(frac_part(body)) && int_part(body).len() + frac_part(
        body,
    ).len() > 0
}

/// The fixed-point magnitude of the fractional digits.
pub open spec fn frac_scaled(f: Seq<u8>) -> nat {
    if f.len() >= 8 {
        dec_val(f.subrange(0, 8))
    } else {
        dec_val(f) * pow10((8 - f.len()) as nat)
    }
}

/// The fixed-point magnitude of a decimal literal's digits.
pub open spec fn magnitude(body: Seq<u8>) -> nat {
    dec_val(int_part(body)) * scale() + frac_scaled(frac_part(body))
}

/// The amount a balance field contributes: its fixed-point value where the
/// field is a decimal literal that fits an `i128`, and zero otherwise.
pub open spec fn amount_of(s: Seq<u8>) -> int {
    if is_decimal(s) {
        let (neg, body) = sign_of(s);
        if magnitude(body) <= i128::MAX {
            if neg {
                -(magnitude(body) as int)
            } else {
                magnitude(body) as int
            }
        } else {
            0
        }
    } else {
        0
    }
}

/// Addition clamped to the `i128` range.
pub open spec fn clamp_add(a: int, b: int) -> int {
    if a + b > i128::MAX {
        i128::MAX as int
    } else if a + b < i128::MIN {
        i128::MIN as int
    } else {
        a + b
    }
}

/// Adds two amounts, clamping at the ends of the range.
pub fn add_clamped(a: i128, b: i128) -> (r: i128)
    ensures
        r as int == clamp_add(a as int, b as int),
{
    if b >= 0 {
        if a > i128::MAX - b {
            i128::MAX
        } else {
            a + b
        }
    } else {
        if a < i128::MIN - b {
            i128::MIN
        } else {
            a + b
        }
    }
}

fn digits_scaled_u128(s: &[u8], lo: usize, hi: usize) -> (r: Option<u128>)
    requires
        lo <= hi <= s@.len(),
    ensures
        all_digits(s@.subrange(lo as int, hi as int)) ==> match r {
            Some(v) => v == dec_val(s@.subrange(lo as int, hi as int)),
            None => dec_val(s@.subrange(lo as int, hi as int)) > u128::MAX,
        },
        r is Some ==> all_digits(s@.subrange(lo as int, hi as int)),
{
    let ghost w = s@.subrange(lo as int, hi as int);
    let mut acc: u128 = 0;
    let mut i: usize = lo;
    while i < hi
        invariant
            lo <= i <= hi <= s@.len(),
            w == s@.subrange(lo as int, hi as int),
            all_digits(w.subrange(0, i - lo)),
            acc == dec_val(w.subrange(0, i - lo)),
        decreases hi - i,
    {
        let b = s[i];
        if b < 48 || b > 57 {
            proof {
                assert(w[i - lo] == s@[i as int]);
            }
            return None;
        }
        let d = (b - 48) as u128;
        proof {
            assert(w.subrange(0, i - lo + 1).drop_last() =~= w.subrange(0, i - lo));
            assert(w.subrange(0, i - lo + 1).last() == s@[i as int]);
        }
        if acc > (u128::MAX - d) / 10 {
            proof {
                let x = (u128::MAX - d) as int;
                assert(x == 10 * (x / 10) + (x % 10));
                assert(acc * 10 >= (x / 10 + 1) * 10) by (nonlinear_arith)
                    requires
                        acc >= x / 10 + 1,
                ;
                assert(dec_val(w.subrange(0, i - lo + 1)) > u128::MAX);
                lemma_dec_val_prefix(w, i - lo + 1);
            }
            return None;
        }
        proof {
            let x = (u128::MAX - d) as int;
            assert(x == 10 * (x / 10) + (x % 10));
            assert(acc * 10 <= (x / 10) * 10) by (nonlinear_arith)
                requires
                    acc <= x / 10,
            ;
        }
        acc = acc * 10 + d;
        i += 1;
    }
    proof {
        assert(w.subrange(0, (hi - lo) as int) =~= w);
    }
    Some(acc)
}

fn pow10_exec(n: usize) -> (r: u128)
    requires
        n <= 8,
    ensures
        r == pow10(n as nat),
        r <= 100000000,
{
    let mut r: u128 = 1;
    let mut i: usize = 0;
    proof {
        lemma_pow10_mono(0, n as nat);
        lemma_pow10_mono(n as nat, 8);
    }
    while i < n
        invariant
            i <= n <= 8,
            r == pow10(i as nat),
            r <= pow10(n as nat),
            pow10(n as nat) <= 100000000,
        decreases n - i,
    {
        proof {
            lemma_pow10_mono(i as nat + 1, n as nat);
        }
        r = r * 10;
        i += 1;
    }
    r
}

proof fn lemma_pow10_mono(a: nat, b: nat)
    requires
        a <= b,
    ensures
        pow10(a) <= pow10(b),
        pow10(8) == 100000000,
    decreases b,
{
    assert(pow10(8) == 100000000) by {
        reveal_with_fuel(pow10, 9);
    }
    if a < b {
        lemma_pow10_mono(a, (b - 1) as nat);
        assert(pow10(b) == 10 * pow10((b - 1) as nat));
    }
}

/// Parses a balance field into a fixed-point amount; anything that is not a
/// plain decimal number, or does not fit, contributes zero.
#[verifier::loop_isolation(false)]
#[verifier::rlimit(100)]
pub fn parse_amount(s: &[u8]) -> (r: i128)
    ensures
        r as int == amount_of(s@),
{
    let n = s.len();
    let mut lo: usize = 0;
    let mut neg = false;
    if n > 0 && s[0] == 45 {
        neg = true;
        lo = 1;
    } else if n > 0 && s[0] == 43 {
        lo = 1;
    }
    let ghost body = sign_of(s@).1;
    proof {
        assert(body =~= s@.subrange(lo as int, n as int));
    }
    let dot = crate::text::find_byte(s, 46, lo);
    proof {
        crate::text::lemma_first_byte_from_props(s@, 46, lo as int);
        lemma_first_byte_shift(s@, 46, lo as int);
    }
    let (int_hi, frac_lo): (usize, usize) = match dot {
        Some(d) => (d, d + 1),
        None => (n, n),
    };
    proof {
        assert(int_part(body) =~= s@.subrange(lo as int, int_hi as int));
        assert(frac_part(body) =~= s@.subrange(frac_lo as int, n as int));
    }
    let ipart = digits_scaled_u128(s, lo, int_hi);
    let iv = match ipart {
        Some(v) => v,
        None => {
            proof {
                let ip = int_part(body);
                if all_digits(ip) {
                    assert(dec_val(ip) > u128::MAX);
                    assert(dec_val(ip) * 100000000 >= dec_val(ip));
                    assert(magnitude(body) >= dec_val(ip) * scale());
                    assert(magnitude(body) > i128::MAX);
                } else {
                    assert(!is_decimal(s@));
                }
            }
            return 0;
        },
    };
    // fractional digits: all must be digits; only the first eight carry value
    let f8: usize = if n - frac_lo >= 8 {
        frac_lo + 8
    } else {
        n
    };
    let fpart = digits_scaled_u128(s, frac_lo, f8);
    let fv = match fpart {
        Some(v) => v,
        None => {
            proof {
                let fp = frac_part(body);
                let sub = s@.subrange(frac_lo as int, f8 as int);
                if all_digits(sub) {
                    lemma_dec_val_bound(sub);
                    lemma_pow10_mono(sub.len() as nat, 8);
                    assert(false);
                }
                assert(!all_digits(fp)) by {
                    if all_digits(fp) {
                        assert forall|k: int| 0 <= k < sub.len() implies 48 <= #[trigger] sub[k]
                            <= 57 by {
                            assert(sub[k] == s@[frac_lo + k]);
                            assert(fp[k] == s@[frac_lo + k]);
                        }
                    }
                }
                assert(!is_decimal(s@));
            }
            return 0;
        },
    };
    // the bytes beyond the eighth fractional digit must still be digits
    let mut j: usize = f8;
    while j < n
        invariant
            f8 <= j <= n,
            n == s@.len(),
            forall|k: int| f8 <= k < j ==> 48 <= #[trigger] s@[k] <= 57,
        decreases n - j,
    {
        let b = s[j];
        if b < 48 || b > 57 {
            proof {
                assert(frac_part(body)[j - frac_lo] == s@[j as int]);
            }
            return 0;
        }
        j += 1;
    }
    if int_hi == lo && f8 == frac_lo {
        // no digits at all
        proof {
            assert(int_part(body).len() == 0 && frac_part(body).len() == 0);
        }
        return 0;
    }
    proof {
        let fp = frac_part(body);
        assert(all_digits(fp)) by {
            assert(forall|k: int|
                0 <= k < fp.len() ==> fp[k] == s@[frac_lo + k]);
            assert(forall|k: int|
                0 <= k < f8 - frac_lo ==> s@.subrange(frac_lo as int, f8 as int)[k] == s@[frac_lo
                    + k]);
        }
        assert(is_decimal(s@));
        if fp.len() >= 8 {
            assert(fp.subrange(0, 8) =~= s@.subrange(frac_lo as int, f8 as int));
        } else {
            assert(fp =~= s@.subrange(frac_lo as int, f8 as int));
        }
    }
    // scale the fraction up to eight places
    let scale_up = pow10_exec(8 - (f8 - frac_lo));
    proof {
        lemma_dec_val_bound(s@.subrange(frac_lo as int, f8 as int));
        lemma_pow10_mono((f8 - frac_lo) as nat, 8);
        assert(fv * scale_up <= 100000000 * 100000000) by (nonlinear_arith)
            requires
                fv <= 100000000,
                scale_up <= 100000000,
        ;
        let fp = frac_part(body);
        if fp.len() >= 8 {
            assert(f8 - frac_lo == 8);
            assert(fv == dec_val(fp.subrange(0, 8)));
            assert(scale_up == 1);
            assert(fv * scale_up == fv) by (nonlinear_arith)
                requires
                    scale_up == 1,
            ;
        } else {
            assert(fp.len() == f8 - frac_lo);
            assert(fv == dec_val(fp));
            assert(scale_up == pow10((8 - fp.len()) as nat));
        }
        assert(frac_scaled(frac_part(body)) == fv * scale_up);
    }
    let fval: u128 = fv * scale_up;
    // scale the integer part
    if iv > u128::MAX / 100000000 {
        proof {
            let x = u128::MAX as int;
            assert(x == 100000000 * (x / 100000000) + (x % 100000000));
            assert(iv * 100000000 >= (x / 100000000 + 1) * 100000000) by (nonlinear_arith)
                requires
                    iv >= x / 100000000 + 1,
            ;
            assert(magnitude(body) > u128::MAX);
        }
        return 0;
    }
    proof {
        let x = u128::MAX as int;
        assert(x == 100000000 * (x / 100000000) + (x % 100000000));
        assert(iv * 100000000 <= (x / 100000000) * 100000000) by (nonlinear_arith)
            requires
                iv <= x / 100000000,
        ;
    }
    let ival: u128 = iv * 100000000;
    if ival > u128::MAX - fval {
        proof {
            assert(magnitude(body) > u128::MAX);
        }
        return 0;
    }
    let total: u128 = ival + fval;
    proof {
        assert(total == magnitude(body));
    }
    if total > i128::MAX as u128 {
        return 0;
    }
    if neg {
        -(total as i128)
    } else {
        total as i128
    }
}

proof fn lemma_first_byte_shift(s: Seq<u8>, b: u8, off: int)
    requires
        0 <= off <= s.len(),
    ensures
        match first_byte_from(s, b, off) {
            Some(i) => first_byte_from(s.skip(off), b, 0) == Some(i - off),
            None => first_byte_from(s.skip(off), b, 0) is None,
        },
{
    lemma_first_byte_shift_rec(s, b, off, off);
}

proof fn lemma_first_byte_shift_rec(s: Seq<u8>, b: u8, off: int, i: int)
    requires
        0 <= off <= i <= s.len(),
    ensures
        match first_byte_from(s, b, i) {
            Some(j) => first_byte_from(s.skip(off), b, i - off) == Some(j - off),
            None => first_byte_from(s.skip(off), b, i - off) is None,
        },
    decreases s.len() - i,
{
    let t = s.skip(off);
    if i < s.len() {
        assert(t[i - off] == s[i]);
        if s[i] != b {
            lemma_first_byte_shift_rec(s, b, off, i + 1);
        }
    }
}

} // verus!
