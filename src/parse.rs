use vstd::prelude::*;
use crate::fixed::ONE;

verus! {

/// Largest integer part a parsed number may have, in units.
pub const INT_LIMIT: i64 = 9000000000000;

pub open spec fn is_digit(c: u8) -> bool {
    48 <= c <= 57
}

pub open spec fn all_digits(s: Seq<u8>) -> bool {
    forall|i: int| 0 <= i < s.len() ==> #[trigger] is_digit(s[i])
}

/// The number that a string of decimal digits spells.
pub open spec fn digits_value(s: Seq<u8>) -> int
    decreases s.len(),
{
    if s.len() == 0 {
        0
    } else {
        digits_value(s.drop_last()) * 10 + (s.last() - 48)
    }
}

pub open spec fn pow10(n: nat) -> int
    decreases n,
{
    if n == 0 {
        1
    } else {
        10 * pow10((n - 1) as nat)
    }
}

/// Length of a leading `+` or `-`.
pub open spec fn sign_len(b: Seq<u8>) -> int {
    if b.len() > 0 && (b[0] == 43 || b[0] == 45) {
        1
    } else {
        0
    }
}

/// Micro-units spelled by integer digits `ip` and fraction digits `fp`;
/// fraction digits past the sixth are dropped.
pub open spec fn micro_value(ip: Seq<u8>, fp: Seq<u8>) -> int {
    let kept = if fp.len() <= 6 { fp } else { fp.take(6) };
    digits_value(ip) * ONE + digits_value(kept) * pow10((6 - kept.len()) as nat)
}

/// `body` is digits, or digits, a point at `k`, and digits, with a digit
/// somewhere.
pub open spec fn well_formed_at(body: Seq<u8>, k: int) -> bool {
    &&& 0 <= k <= body.len()
    &&& all_digits(body.take(k))
    &&& (k == body.len() || (body[k] == 46 && all_digits(body.skip(k + 1))))
    &&& body.len() > (if k == body.len() { 0int } else { 1int })
}

/// What `parse_decimal` returns: the signed value in micro-units of a
/// well-formed decimal whose integer part is at most `INT_LIMIT`.
pub open spec fn decimal_spec(b: Seq<u8>) -> Option<int> {
    let body = b.skip(sign_len(b));
    if exists|k: int| well_formed_at(body, k) {
        let k = choose|k: int| well_formed_at(body, k);
        let ip = body.take(k);
        let fp = if k == body.len() { Seq::empty() } else { body.skip(k + 1) };
        let m = micro_value(ip, fp);
        if digits_value(ip) > INT_LIMIT {
            None
        } else if b.len() > 0 && b[0] == 45 {
            Some(-m)
        } else {
            Some(m)
        }
    } else {
        None
    }
}

/// A string of `n` digits spells a number in `[0, 10^n)`.
proof fn lemma_digits_bound(s: Seq<u8>)
    requires
        all_digits(s),
    ensures
        0 <= digits_value(s) < pow10(s.len()),
    decreases s.len(),
{
    if s.len() > 0 {
        assert(is_digit(s[s.len() - 1]));
        assert(all_digits(s.drop_last())) by {
            assert forall|i: int| 0 <= i < s.drop_last().len() implies #[trigger] is_digit(s.drop_last()[i]) by {
                assert(s.drop_last()[i] == s[i]);
            }
        }
        lemma_digits_bound(s.drop_last());
    }
}

proof fn lemma_pow10_small(n: nat)
    requires
        n <= 6,
    ensures
        1 <= pow10(n) <= 1000000,
        n <= 5 ==> pow10(n) <= 100000,
{
    reveal_with_fuel(pow10, 7);
}

/// At most one position splits a body into integer and fraction digits.
proof fn lemma_split_unique(body: Seq<u8>, k1: int, k2: int)
    requires
        well_formed_at(body, k1),
        well_formed_at(body, k2),
    ensures
        k1 == k2,
{
    if k1 < k2 {
        assert(body.take(k2)[k1] == body[k1]);
        assert(is_digit(body.take(k2)[k1]));
    } else if k2 < k1 {
        assert(body.take(k1)[k2] == body[k2]);
        assert(is_digit(body.take(k1)[k2]));
    }
}

/// Reads a decimal number such as `-12.5` into micro-units: an optional sign,
/// digits with at most one point among them, fraction digits past the sixth
/// dropped. `None` for anything else, or for an integer part over `INT_LIMIT`.
pub fn parse_decimal(b: &[u8]) -> (r: Option<i64>)
    ensures
        match decimal_spec(b@) {
            Some(v) => r is Some && r->0 == v,
            None => r is None,
        },
{
    let n = b.len();
    let start: usize = if n > 0 && (b[0] == 43 || b[0] == 45) { 1 } else { 0 };
    let ghost body = b@.skip(start as int);
    assert(start == sign_len(b@));
    let mut i: usize = start;
    let mut ip: i64 = 0;
    while i < n && 48 <= b[i] && b[i] <= 57
        invariant
            start <= i <= n == b@.len(),
            body == b@.skip(start as int),
            start == sign_len(b@),
            all_digits(body.take(i - start)),
            0 <= ip <= INT_LIMIT + 1,
            ip == (if digits_value(body.take(i - start)) > INT_LIMIT + 1 {
                INT_LIMIT + 1
            } else {
                digits_value(body.take(i - start))
            }),
        decreases n - i,
    {
        let d = (b[i] - 48) as i64;
        assert(body.take(i + 1 - start).drop_last() =~= body.take(i - start));
        assert(body.take(i + 1 - start).last() == b@[i as int]);
        let next = ip * 10 + d;
        ip = if next > INT_LIMIT + 1 { INT_LIMIT + 1 } else { next };
        i = i + 1;
    }
    let k = i - start;
    let ghost ipart = body.take(k as int);
    let ghost fp = body.skip(k + 1);
    if i < n && b[i] != 46 {
        assert(body[k as int] == b@[i as int]);
        assert forall|k2: int| !well_formed_at(body, k2) by {
            if well_formed_at(body, k2) {
                if k2 > k {
                    assert(body.take(k2)[k as int] == b@[i as int]);
                    assert(is_digit(body.take(k2)[k as int]));
                } else if k2 < k {
                    assert(body.take(k as int)[k2] == body[k2]);
                    assert(is_digit(body.take(k as int)[k2]));
                }
            }
        }
        return None;
    }
    let mut c: usize = 0;
    let mut fv: i64 = 0;
    if i < n {
        let mut j: usize = i + 1;
        while j < n
            invariant
                i < j <= n == b@.len(),
                i == start + k,
                body == b@.skip(start as int),
                start == sign_len(b@),
                fp == body.skip(k + 1),
                all_digits(body.take(k as int)),
                b@[i as int] == 46,
                c == j - i - 1,
                all_digits(fp.take(c as int)),
                0 <= fv < 1000000,
                fv == digits_value(fp.take(if c <= 6 { c as int } else { 6 })),
            decreases n - j,
        {
            if b[j] < 48 || b[j] > 57 {
                assert(body[k as int] == b@[i as int]);
                assert forall|k2: int| !well_formed_at(body, k2) by {
                    if well_formed_at(body, k2) {
                        if k2 > k {
                            assert(body.take(k2)[k as int] == body[k as int]);
                            assert(is_digit(body.take(k2)[k as int]));
                        } else if k2 < k {
                            assert(body.take(k as int)[k2] == body[k2]);
                            assert(is_digit(body.take(k as int)[k2]));
                        } else {
                            assert(fp[c as int] == b@[j as int]);
                            assert(is_digit(body.skip(k + 1)[c as int]));
                        }
                    }
                }
                return None;
            }
            if c < 6 {
                assert(fp.take(c + 1).drop_last() =~= fp.take(c as int));
                assert(fp.take(c + 1).last() == b@[j as int]);
                fv = fv * 10 + (b[j] - 48) as i64;
                assert(fv < 1000000) by {
                    assert(all_digits(fp.take(c + 1))) by {
                        assert forall|t: int| 0 <= t < c + 1 implies #[trigger] is_digit(fp.take(c + 1)[t]) by {
                            if t < c {
                                assert(fp.take(c + 1)[t] == fp.take(c as int)[t]);
                            }
                        }
                    }
                    lemma_digits_bound(fp.take(c + 1));
                    lemma_pow10_small((c + 1) as nat);
                }
            }
            assert(fp.take(c + 1) =~= fp.take(c as int).push(b@[j as int]));
            c = c + 1;
            j = j + 1;
        }
        assert(fp.take(c as int) =~= fp);
        assert(body[k as int] == b@[i as int]);
        assert(body.len() == k + 1 + c);
    }
    proof {
        if i == n {
            assert(ipart =~= body);
        }
    }
    if k + c == 0 {
        assert forall|k2: int| !well_formed_at(body, k2) by {
            if well_formed_at(body, k2) && k2 > k {
                assert(is_digit(body.take(k2)[k as int]));
            }
        }
        return None;
    }
    assert(well_formed_at(body, k as int));
    proof {
        let k2 = choose|k2: int| well_formed_at(body, k2);
        lemma_split_unique(body, k2, k as int);
    }
    if ip > INT_LIMIT {
        return None;
    }
    let kept: usize = if c <= 6 { c } else { 6 };
    let mut p: i64 = 1;
    let mut t: usize = kept;
    while t < 6
        invariant
            kept <= t <= 6,
            p == pow10((t - kept) as nat),
            1 <= p <= 1000000,
        decreases 6 - t,
    {
        proof {
            lemma_pow10_small((t - kept) as nat);
        }
        p = p * 10;
        t = t + 1;
    }
    assert(0 <= fv * p <= 1000000000000) by (nonlinear_arith)
        requires
            0 <= fv < 1000000,
            1 <= p <= 1000000,
    ;
    let m = ip * ONE + fv * p;
    if n > 0 && b[0] == 45 {
        Some(-m)
    } else {
        Some(m)
    }
}

} // verus!
