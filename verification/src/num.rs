//! Decimal text for the settings file: non-negative integers, booleans, and
//! the target click rate, which is held as a fixed-point count of
//! thousandths of clicks per second.
use vstd::prelude::*;
use crate::bytes::{find_byte, lemma_find_byte_at, lemma_find_byte_none};

verus! {

pub open spec fn is_digit(b: u8) -> bool {
    48 <= b <= 57
}

pub open spec fn all_digits(s: Seq<u8>) -> bool {
    forall|i: int| 0 <= i < s.len() ==> is_digit(s[i])
}

/// The number denoted by a digit string, most significant digit first.
pub open spec fn digits_val(s: Seq<u8>) -> int
    decreases s.len(),
{
    if s.len() == 0 {
        0
    } else {
        digits_val(s.drop_last()) * 10 + (s.last() - 48)
    }
}

/// The canonical decimal digits of a non-negative number.
pub open spec fn dec_digits(n: int) -> Seq<u8>
    recommends
        n >= 0,
    decreases n,
{
    if n < 10 {
        seq![(48 + if n >= 0 { n } else { 0 }) as u8]
    } else {
        dec_digits(n / 10).push((48 + n % 10) as u8)
    }
}

pub proof fn lemma_dec_digits(n: int)
    requires
        n >= 0,
    ensures
        all_digits(dec_digits(n)),
        dec_digits(n).len() >= 1,
        digits_val(dec_digits(n)) == n,
    decreases n,
{
    if n < 10 {
        let s = dec_digits(n);
        assert(s.drop_last() =~= Seq::<u8>::empty());
        assert(digits_val(s) == digits_val(s.drop_last()) * 10 + (s.last() - 48));
    } else {
        lemma_dec_digits(n / 10);
        let s = dec_digits(n / 10).push((48 + n % 10) as u8);
        assert(s.drop_last() =~= dec_digits(n / 10));
        assert(digits_val(s) == (n / 10) * 10 + n % 10);
        assert(forall|i: int|
            0 <= i < s.len() - 1 ==> s[i] == #[trigger] dec_digits(n / 10)[i]);
    }
}

pub proof fn lemma_digits_val_nonneg(s: Seq<u8>)
    requires
        all_digits(s),
    ensures
        digits_val(s) >= 0,
    decreases s.len(),
{
    if s.len() > 0 {
        assert(all_digits(s.drop_last())) by {
            assert(forall|i: int| 0 <= i < s.len() - 1 ==> s.drop_last()[i] == s[i]);
        }
        lemma_digits_val_nonneg(s.drop_last());
    }
}

/// Appending digits never shrinks the denoted number.
pub proof fn lemma_digits_val_prefix(s: Seq<u8>, i: int)
    requires
        all_digits(s),
        0 <= i <= s.len(),
    ensures
        digits_val(s) >= digits_val(s.take(i)),
    decreases s.len() - i,
{
    if i == s.len() {
        assert(s.take(i) =~= s);
    } else {
        lemma_digits_val_prefix(s, i + 1);
        let t = s.take(i + 1);
        assert(t.drop_last() =~= s.take(i));
        assert(all_digits(s.take(i))) by {
            assert(forall|j: int| 0 <= j < i ==> s.take(i)[j] == s[j]);
        }
        lemma_digits_val_nonneg(s.take(i));
        assert(digits_val(t) == digits_val(s.take(i)) * 10 + (s[i] - 48));
    }
}

/// Parses an unsigned decimal integer.  Succeeds exactly on non-empty
/// all-digit strings whose value fits.
pub fn parse_u64_digits(s: &[u8]) -> (r: Option<u64>)
    ensures
        match r {
            Some(n) => all_digits(s@) && s@.len() >= 1 && digits_val(s@) == n,
            None => !(all_digits(s@) && s@.len() >= 1 && digits_val(s@) <= u64::MAX),
        },
{
    if s.len() == 0 {
        return None;
    }
    let mut acc: u64 = 0;
    let mut i: usize = 0;
    while i < s.len()
        invariant
            0 <= i <= s@.len(),
            all_digits(s@.take(i as int)),
            acc == digits_val(s@.take(i as int)),
        decreases s@.len() - i,
    {
        let b = s[i];
        if b < 48 || b > 57 {
            proof {
                assert(!is_digit(s@[i as int]));
            }
            return None;
        }
        let d = (b - 48) as u64;
        proof {
            assert(s@.take(i + 1).drop_last() =~= s@.take(i as int));
            assert(digits_val(s@.take(i + 1)) == digits_val(s@.take(i as int)) * 10 + d);
            assert(forall|j: int| 0 <= j < i + 1 ==> s@.take(i + 1)[j] == s@[j]);
        }
        if acc > (u64::MAX - d) / 10 {
            proof {
                if all_digits(s@) {
                    lemma_digits_val_prefix(s@, i + 1);
                    assert(acc * 10 + d > u64::MAX) by (nonlinear_arith)
                        requires
                            acc > (u64::MAX - d) / 10,
                            0 <= d <= 9,
                            (u64::MAX - d) / 10 == ((u64::MAX - d) as int) / 10,
                    {}
                }
            }
            return None;
        }
        proof {
            assert(acc * 10 + d <= u64::MAX) by (nonlinear_arith)
                requires
                    acc <= (u64::MAX - d) / 10,
                    0 <= d <= 9,
                    acc >= 0,
            {}
        }
        acc = acc * 10 + d;
        i = i + 1;
    }
    proof {
        assert(s@.take(i as int) =~= s@);
    }
    Some(acc)
}

/// Emits the canonical decimal digits of `n`.
pub fn u64_to_digits(n: u64) -> (r: Vec<u8>)
    ensures
        r@ == dec_digits(n as int),
    decreases n,
{
    if n < 10 {
        let mut r: Vec<u8> = Vec::new();
        r.push(48 + n as u8);
        proof {
            assert(r@ =~= dec_digits(n as int));
        }
        r
    } else {
        let mut r = u64_to_digits(n / 10);
        r.push(48 + (n % 10) as u8);
        r
    }
}

pub open spec fn bool_bytes(v: bool) -> Seq<u8> {
    if v {
        seq![116u8, 114u8, 117u8, 101u8]  // "true"
    } else {
        seq![102u8, 97u8, 108u8, 115u8, 101u8]  // "false"
    }
}

/// Accepts exactly the two spellings the standard boolean parser accepts.
pub open spec fn parse_bool_spec(s: Seq<u8>) -> Option<bool> {
    if s == bool_bytes(true) {
        Some(true)
    } else if s == bool_bytes(false) {
        Some(false)
    } else {
        None
    }
}

pub fn parse_bool(s: &[u8]) -> (r: Option<bool>)
    ensures
        r == parse_bool_spec(s@),
{
    let t: [u8; 4] = [116, 114, 117, 101];
    let f: [u8; 5] = [102, 97, 108, 115, 101];
    if crate::bytes::bytes_eq(s, t.as_slice()) {
        proof {
            assert(t@ =~= bool_bytes(true));
        }
        Some(true)
    } else if crate::bytes::bytes_eq(s, f.as_slice()) {
        proof {
            assert(f@ =~= bool_bytes(false));
        }
        Some(false)
    } else {
        proof {
            assert(t@ =~= bool_bytes(true));
            assert(f@ =~= bool_bytes(false));
        }
        None
    }
}

pub fn bool_to_bytes(v: bool) -> (r: Vec<u8>)
    ensures
        r@ == bool_bytes(v),
{
    let mut r: Vec<u8> = Vec::new();
    if v {
        r.push(116);
        r.push(114);
        r.push(117);
        r.push(101);
    } else {
        r.push(102);
        r.push(97);
        r.push(108);
        r.push(115);
        r.push(101);
    }
    proof {
        assert(r@ =~= bool_bytes(v));
    }
    r
}

pub open spec fn digit(d: int) -> u8 {
    (48 + d) as u8
}

/// First three fractional digits, scaled to thousandths.
pub open spec fn frac_milli(f: Seq<u8>) -> int {
    if f.len() == 0 {
        0
    } else if f.len() == 1 {
        (f[0] - 48) * 100
    } else if f.len() == 2 {
        (f[0] - 48) * 100 + (f[1] - 48) * 10
    } else {
        (f[0] - 48) * 100 + (f[1] - 48) * 10 + (f[2] - 48)
    }
}

/// Fractional digits past the third must all be zero: finer precision than a
/// thousandth of a click per second cannot be held.
pub open spec fn frac_exact(f: Seq<u8>) -> bool {
    forall|i: int| 3 <= i < f.len() ==> f[i] == 48
}

/// The target rate a value denotes, in thousandths of clicks per second.
/// Accepts `digits`, `digits.digits`, `.digits` and `digits.`; rejects the
/// empty string, other characters, zero, and values out of range.
pub open spec fn parse_cps_spec(s: Seq<u8>) -> Option<u64> {
    match find_byte(s, 46) {
        None => if all_digits(s) && s.len() >= 1 && 1 <= digits_val(s) * 1000 <= u64::MAX {
            Some((digits_val(s) * 1000) as u64)
        } else {
            None
        },
        Some(i) => {
            let ip = s.take(i);
            let f = s.skip(i + 1);
            if all_digits(ip) && all_digits(f) && ip.len() + f.len() >= 1 && frac_exact(f) && 1
                <= digits_val(ip) * 1000 + frac_milli(f) <= u64::MAX {
                Some((digits_val(ip) * 1000 + frac_milli(f)) as u64)
            } else {
                None
            }
        },
    }
}

/// The canonical decimal text of a rate of `m` thousandths: integer part,
/// then a fractional part only when it is non-zero, trailing zeros dropped.
pub open spec fn cps_bytes(m: int) -> Seq<u8> {
    let ip = m / 1000;
    let fp = m % 1000;
    if fp == 0 {
        dec_digits(ip)
    } else if fp % 100 == 0 {
        dec_digits(ip) + seq![46u8, digit(fp / 100)]
    } else if fp % 10 == 0 {
        dec_digits(ip) + seq![46u8, digit(fp / 100), digit((fp / 10) % 10)]
    } else {
        dec_digits(ip) + seq![46u8, digit(fp / 100), digit((fp / 10) % 10), digit(fp % 10)]
    }
}

#[verifier::rlimit(50)]
pub fn parse_cps(s: &[u8]) -> (r: Option<u64>)
    ensures
        r == parse_cps_spec(s@),
{
    let n = s.len();
    match crate::bytes::find_byte_in(s, 46) {
        None => {
            match parse_u64_digits(s) {
                Some(n) => {
                    if n == 0 {
                        return None;
                    }
                    if n > u64::MAX / 1000 {
                        proof {
                            assert(n * 1000 > u64::MAX) by (nonlinear_arith)
                                requires
                                    n > u64::MAX / 1000,
                                    u64::MAX / 1000 == (u64::MAX as int) / 1000,
                            {}
                        }
                        return None;
                    }
                    proof {
                        assert(n * 1000 <= u64::MAX) by (nonlinear_arith)
                            requires
                                0 <= n <= u64::MAX / 1000,
                                u64::MAX / 1000 == (u64::MAX as int) / 1000,
                        {}
                    }
                    Some(n * 1000)
                },
                None => {
                    proof {
                        if all_digits(s@) && s@.len() >= 1 {
                            lemma_digits_val_nonneg(s@);
                            assert(digits_val(s@) > u64::MAX);
                            assert(digits_val(s@) * 1000 > u64::MAX) by (nonlinear_arith)
                                requires
                                    digits_val(s@) > u64::MAX,
                            {}
                        }
                    }
                    None
                },
            }
        },
        Some(i) => {
            let ip = crate::bytes::copy_range(s, 0, i);
            let f = crate::bytes::copy_range(s, i + 1, n);
            proof {
                assert(ip@ =~= s@.take(i as int));
                assert(f@ =~= s@.skip(i + 1));
            }
            if ip.len() == 0 && f.len() == 0 {
                return None;
            }
            let ipv: u64 = if ip.len() == 0 {
                0
            } else {
                match parse_u64_digits(ip.as_slice()) {
                    Some(n) => n,
                    None => {
                        proof {
                            if all_digits(ip@) && all_digits(f@) {
                                lemma_digits_val_nonneg(ip@);
                                lemma_frac_milli_range(f@);
                                assert(digits_val(ip@) * 1000 > u64::MAX) by (nonlinear_arith)
                                    requires
                                        digits_val(ip@) > u64::MAX,
                                {}
                            }
                        }
                        return None;
                    },
                }
            };
            let fm: u64 = match frac_part_milli(f.as_slice()) {
                Some(fm) => fm,
                None => {
                    return None;
                },
            };
            proof {
                lemma_digits_val_nonneg(ip@);
            }
            if ipv > (u64::MAX - fm) / 1000 {
                proof {
                    assert(ipv * 1000 + fm > u64::MAX) by (nonlinear_arith)
                        requires
                            ipv > (u64::MAX - fm) / 1000,
                            0 <= fm <= 999,
                            (u64::MAX - fm) / 1000 == ((u64::MAX - fm) as int) / 1000,
                    {}
                }
                return None;
            }
            proof {
                assert(ipv * 1000 + fm <= u64::MAX) by (nonlinear_arith)
                    requires
                        0 <= ipv <= (u64::MAX - fm) / 1000,
                        0 <= fm <= 999,
                        (u64::MAX - fm) / 1000 == ((u64::MAX - fm) as int) / 1000,
                {}
            }
            let total = ipv * 1000 + fm;
            if total == 0 {
                return None;
            }
            Some(total)
        },
    }
}

pub proof fn lemma_frac_milli_range(f: Seq<u8>)
    requires
        all_digits(f),
    ensures
        0 <= frac_milli(f) <= 999,
{
}

/// The thousandths denoted by the fractional digits, or `None` when they are
/// not all digits or carry precision past the third place.
fn frac_part_milli(f: &[u8]) -> (r: Option<u64>)
    ensures
        match r {
            Some(m) => all_digits(f@) && frac_exact(f@) && frac_milli(f@) == m && m <= 999,
            None => !(all_digits(f@) && frac_exact(f@)),
        },
{
    let mut i: usize = 0;
    while i < f.len()
        invariant
            0 <= i <= f@.len(),
            forall|j: int| 0 <= j < i ==> is_digit(f@[j]),
            forall|j: int| 3 <= j < i ==> f@[j] == 48,
        decreases f@.len() - i,
    {
        let b = f[i];
        if b < 48 || b > 57 {
            return None;
        }
        if i >= 3 && b != 48 {
            return None;
        }
        i = i + 1;
    }
    let d0: u64 = if f.len() >= 1 {
        (f[0] - 48) as u64
    } else {
        0
    };
    let d1: u64 = if f.len() >= 2 {
        (f[1] - 48) as u64
    } else {
        0
    };
    let d2: u64 = if f.len() >= 3 {
        (f[2] - 48) as u64
    } else {
        0
    };
    Some(d0 * 100 + d1 * 10 + d2)
}

pub fn cps_to_bytes(m: u64) -> (r: Vec<u8>)
    ensures
        r@ == cps_bytes(m as int),
{
    let mut r = u64_to_digits(m / 1000);
    let fp = m % 1000;
    if fp == 0 {
        proof {
            assert(r@ =~= cps_bytes(m as int));
        }
        r
    } else if fp % 100 == 0 {
        r.push(46);
        r.push(48 + (fp / 100) as u8);
        proof {
            assert(r@ =~= cps_bytes(m as int));
        }
        r
    } else if fp % 10 == 0 {
        r.push(46);
        r.push(48 + (fp / 100) as u8);
        r.push(48 + ((fp / 10) % 10) as u8);
        proof {
            assert(r@ =~= cps_bytes(m as int));
        }
        r
    } else {
        r.push(46);
        r.push(48 + (fp / 100) as u8);
        r.push(48 + ((fp / 10) % 10) as u8);
        r.push(48 + (fp % 10) as u8);
        proof {
            assert(r@ =~= cps_bytes(m as int));
        }
        r
    }
}

/// Every byte of the canonical rate text is a digit or the decimal point,
/// and the first one is a digit.
pub proof fn lemma_cps_bytes_chars(m: int)
    requires
        m >= 1,
    ensures
        cps_bytes(m).len() >= 1,
        is_digit(cps_bytes(m)[0]),
        forall|j: int|
            0 <= j < cps_bytes(m).len() ==> (is_digit(#[trigger] cps_bytes(m)[j]) || cps_bytes(
                m,
            )[j] == 46),
{
    lemma_dec_digits(m / 1000);
    let d = dec_digits(m / 1000);
    let s = cps_bytes(m);
    assert(forall|j: int| 0 <= j < d.len() ==> s[j] == d[j]);
    assert(forall|j: int| d.len() <= j < s.len() ==> is_digit(s[j]) || s[j] == 46);
}

/// Reading back the canonical rate text yields the same thousandths.
pub proof fn lemma_parse_cps_of_bytes(m: u64)
    requires
        m >= 1,
    ensures
        parse_cps_spec(cps_bytes(m as int)) == Some(m),
{
    let ip = m as int / 1000;
    let fp = m as int % 1000;
    let d = dec_digits(ip);
    lemma_dec_digits(ip);
    let s = cps_bytes(m as int);
    if fp == 0 {
        assert(forall|j: int| 0 <= j < s.len() ==> s[j] != 46);
        lemma_find_byte_none(s, 46);
        assert(digits_val(s) * 1000 == ip * 1000 == m);
    } else {
        assert(forall|j: int| 0 <= j < d.len() ==> s[j] == d[j] && s[j] != 46);
        assert(s[d.len() as int] == 46);
        lemma_find_byte_at(s, 46, d.len() as int);
        assert(s.take(d.len() as int) =~= d);
        let f = s.skip(d.len() as int + 1);
        if fp % 100 == 0 {
            assert(f =~= seq![digit(fp / 100)]);
            assert(frac_milli(f) == (fp / 100) * 100);
            assert((fp / 100) * 100 == fp) by (nonlinear_arith)
                requires
                    fp % 100 == 0,
                    0 <= fp,
            {}
        } else if fp % 10 == 0 {
            assert(f =~= seq![digit(fp / 100), digit((fp / 10) % 10)]);
            assert(frac_milli(f) == (fp / 100) * 100 + ((fp / 10) % 10) * 10);
            assert((fp / 100) * 100 + ((fp / 10) % 10) * 10 == fp) by (nonlinear_arith)
                requires
                    fp % 10 == 0,
                    0 <= fp < 1000,
            {}
        } else {
            assert(f =~= seq![digit(fp / 100), digit((fp / 10) % 10), digit(fp % 10)]);
            assert(frac_milli(f) == (fp / 100) * 100 + ((fp / 10) % 10) * 10 + fp % 10);
            assert((fp / 100) * 100 + ((fp / 10) % 10) * 10 + fp % 10 == fp) by (nonlinear_arith)
                requires
                    0 <= fp < 1000,
            {}
        }
        assert(digits_val(d) * 1000 + frac_milli(f) == ip * 1000 + fp == m);
    }
}

} // verus!
