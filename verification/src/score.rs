use vstd::prelude::*;

use crate::numbers::{all_digits, dec_val, lemma_dec_val_bound, lemma_dec_val_nonneg,
    lemma_dec_val_prefix, lemma_dec_val_push, pow10, push_u64_dec, spec_u64_dec};

verus! {

broadcast use vstd::seq::group_seq_axioms;

// ---------------------------------------------------------------------------
// Sorted-set scores, held exactly as a signed count of millionths.
//
// A score arrives as a decimal string (optional sign, digits, optional dot and
// fraction). It is held as `value * 1_000_000` in an `i64`; fraction digits
// beyond the sixth carry no weight, and magnitudes of a million millions or
// more are rejected.
// ---------------------------------------------------------------------------

/// Position of the first occurrence of `t` in `s`.
pub open spec fn find_byte(s: Seq<u8>, t: u8) -> Option<int>
    decreases s.len(),
{
    if s.len() == 0 {
        None
    } else if s[0] == t {
        Some(0)
    } else {
        match find_byte(s.skip(1), t) {
            Some(i) => Some(i + 1),
            None => None,
        }
    }
}

pub proof fn lemma_find_byte(s: Seq<u8>, t: u8)
    ensures
        match find_byte(s, t) {
            Some(i) => 0 <= i < s.len() && s[i] == t && forall|j: int| 0 <= j < i ==> s[j] != t,
            None => forall|j: int| 0 <= j < s.len() ==> s[j] != t,
        },
    decreases s.len(),
{
    if s.len() == 0 {
    } else if s[0] == t {
    } else {
        lemma_find_byte(s.skip(1), t);
        assert(forall|j: int| 0 <= j < s.len() - 1 ==> s.skip(1)[j] == s[j + 1]);
        match find_byte(s.skip(1), t) {
            Some(i) => {
                assert(s[i + 1] == s.skip(1)[i]);
                assert forall|j: int| 0 <= j < i + 1 implies s[j] != t by {
                    if j > 0 {
                        assert(s.skip(1)[j - 1] == s[j]);
                    }
                }
            }
            None => {
                assert forall|j: int| 0 <= j < s.len() implies s[j] != t by {
                    if j > 0 {
                        assert(s.skip(1)[j - 1] == s[j]);
                    }
                }
            }
        }
    }
}

pub proof fn lemma_find_byte_is(s: Seq<u8>, t: u8, i: int)
    requires
        0 <= i < s.len(),
        s[i] == t,
        forall|j: int| 0 <= j < i ==> s[j] != t,
    ensures
        find_byte(s, t) == Some(i),
{
    lemma_find_byte(s, t);
    match find_byte(s, t) {
        Some(i2) => {
            if i2 < i {
                assert(s[i2] != t);
            } else if i2 > i {
                assert(s[i] != t);
            }
        }
        None => {
            assert(s[i] != t);
        }
    }
}

/// The digits after an optional leading sign.
pub open spec fn score_body(s: Seq<u8>) -> Seq<u8> {
    if s.len() > 0 && (s[0] == 43 || s[0] == 45) {
        s.skip(1)
    } else {
        s
    }
}

pub open spec fn score_is_neg(s: Seq<u8>) -> bool {
    s.len() > 0 && s[0] == 45
}

/// Integer digits: what stands before the first dot.
pub open spec fn score_int_part(t: Seq<u8>) -> Seq<u8> {
    match find_byte(t, 46) {
        Some(p) => t.take(p),
        None => t,
    }
}

/// Fraction digits: what stands after the first dot.
pub open spec fn score_frac_part(t: Seq<u8>) -> Seq<u8> {
    match find_byte(t, 46) {
        Some(p) => t.skip(p + 1),
        None => Seq::empty(),
    }
}

/// The weight of the fraction digits in millionths: the first six places
/// count, later places fall below the resolution.
pub open spec fn frac_micros(fp: Seq<u8>) -> int {
    if fp.len() >= 6 {
        dec_val(fp.take(6))
    } else {
        dec_val(fp) * pow10((6 - fp.len()) as nat)
    }
}

/// A byte string this library accepts as a score: optional sign, digits with
/// at most one dot, at least one digit, integer magnitude under 10^12.
pub open spec fn score_valid(s: Seq<u8>) -> bool {
    let t = score_body(s);
    let ip = score_int_part(t);
    let fp = score_frac_part(t);
    &&& all_digits(ip)
    &&& all_digits(fp)
    &&& ip.len() + fp.len() > 0
    &&& dec_val(ip) < pow10(12)
}

/// The value of a valid score string, in millionths.
pub open spec fn score_micros(s: Seq<u8>) -> int {
    let t = score_body(s);
    let mag = dec_val(score_int_part(t)) * 1000000 + frac_micros(score_frac_part(t));
    if score_is_neg(s) {
        -mag
    } else {
        mag
    }
}

/// Parses a score string to its value in millionths.
///
/// The accepted grammar is an optional `+` or `-`, then decimal digits with
/// at most one dot and at least one digit in all, an integer part below a
/// million millions, and any number of fraction digits of which the first
/// six carry weight. Exponent, infinity and not-a-number spellings are
/// refused.
pub fn parse_score(b: &[u8]) -> (r: Option<i64>)
    ensures
        match r {
            Some(v) => score_valid(b@) && v as int == score_micros(b@),
            None => !score_valid(b@),
        },
{
    let n = b.len();
    let has_sign = n > 0 && (b[0] == 43 || b[0] == 45);
    let neg = n > 0 && b[0] == 45;
    let start: usize = if has_sign {
        1
    } else {
        0
    };
    let ghost t = score_body(b@);
    proof {
        assert(t =~= b@.skip(start as int));
    }
    // locate the first dot within the body
    let mut dot: usize = n;
    let mut i = start;
    while i < n && dot == n
        invariant
            start <= i <= n,
            n == b@.len(),
            dot <= n,
            dot == n ==> forall|j: int| start <= j < i ==> b@[j] != 46,
            dot < n ==> start <= dot && b@[dot as int] == 46 && (forall|j: int|
                start <= j < dot ==> b@[j] != 46),
        decreases n - i,
    {
        if b[i] == 46 {
            dot = i;
        }
        i = i + 1;
    }
    proof {
        if dot == n {
            assert(forall|j: int| 0 <= j < t.len() ==> t[j] != 46);
            lemma_find_byte(t, 46);
            if find_byte(t, 46) is Some {
                let p = find_byte(t, 46)->Some_0;
                assert(t[p] != 46);
            }
            assert(find_byte(t, 46) is None);
            assert(score_int_part(t) == t);
            assert(score_frac_part(t) == Seq::<u8>::empty());
        } else {
            assert(t == b@.skip(start as int));
            assert(t.len() == n - start);
            assert(b@.skip(start as int)[dot - start] == b@[(dot - start) + start as int]);
            assert(t[dot - start] == 46);
            assert forall|j: int| 0 <= j < dot - start implies t[j] != 46 by {
                assert(b@.skip(start as int)[j] == b@[j + start as int]);
            }
            lemma_find_byte_is(t, 46, dot - start);
            assert(score_int_part(t) == t.take(dot - start));
            assert(score_frac_part(t) == t.skip(dot - start + 1));
        }
    }
    let ip_end = dot;
    let ghost ip = score_int_part(t);
    let ghost fp = score_frac_part(t);
    proof {
        assert(ip =~= b@.subrange(start as int, ip_end as int));
        if dot == n {
            assert(fp.len() == 0);
        } else {
            assert(fp =~= b@.subrange(dot + 1, n as int));
        }
    }
    if start == ip_end && (dot == n || dot + 1 == n) {
        // no digit anywhere
        return None;
    }
    // integer part: digits, value under 10^12
    let mut acc: u64 = 0;
    let mut i = start;
    while i < ip_end
        invariant
            start <= i <= ip_end <= n,
            n == b@.len(),
            t == score_body(b@),
            ip == score_int_part(t),
            ip =~= b@.subrange(start as int, ip_end as int),
            all_digits(b@.subrange(start as int, i as int)),
            acc == dec_val(b@.subrange(start as int, i as int)),
            acc < 1000000000000u64,
        decreases ip_end - i,
    {
        let c = b[i];
        if c < 48 || c > 57 {
            proof {
                assert(ip[i - start] == c);
                assert(!all_digits(ip));
            }
            return None;
        }
        proof {
            assert(b@.subrange(start as int, i + 1) =~= b@.subrange(start as int, i as int)
                + seq![c]);
            lemma_dec_val_push(b@.subrange(start as int, i as int), c);
        }
        acc = acc * 10 + ((c - 48) as u64);
        if acc >= 1000000000000u64 {
            proof {
                if all_digits(ip) {
                    lemma_dec_val_prefix(ip, i + 1 - start);
                    assert(ip.take(i + 1 - start) =~= b@.subrange(start as int, i + 1));
                    assert(dec_val(ip) >= acc);
                    reveal_with_fuel(pow10, 13);
                    assert(pow10(12) == 1000000000000);
                }
            }
            return None;
        }
        i = i + 1;
    }
    proof {
        assert(b@.subrange(start as int, ip_end as int) =~= ip);
        assert(all_digits(ip));
        assert(acc == dec_val(ip));
        reveal_with_fuel(pow10, 13);
        assert(pow10(12) == 1000000000000);
    }
    // fraction part: digits; the first six places carry value
    let mut frac: u64 = 0;
    let mut places: usize = 0;
    if dot < n {
        let mut i = dot + 1;
        while i < n
            invariant
                dot + 1 <= i <= n,
                n == b@.len(),
                dot < n,
                t == score_body(b@),
                fp == score_frac_part(t),
                fp =~= b@.subrange(dot + 1, n as int),
                places == if i - (dot + 1) <= 6 { i - (dot + 1) } else { 6usize as int },
                all_digits(b@.subrange(dot + 1, i as int)),
                frac == dec_val(b@.subrange(dot + 1, dot + 1 + places)),
                frac < 1000000,
            decreases n - i,
        {
            let c = b[i];
            if c < 48 || c > 57 {
                proof {
                    assert(fp[i - (dot + 1)] == c);
                    assert(!all_digits(fp));
                }
                return None;
            }
            proof {
                assert(b@.subrange(dot + 1, i + 1) =~= b@.subrange(dot + 1, i as int)
                    + seq![c]);
            }
            if places < 6 {
                proof {
                    let pre = b@.subrange(dot + 1, dot + 1 + places);
                    lemma_dec_val_push(pre, c);
                    assert(b@.subrange(dot + 1, dot + 1 + places + 1) =~= pre + seq![c]);
                    assert(all_digits(pre)) by {
                        assert(forall|j: int| 0 <= j < places ==> pre[j] == b@.subrange(
                            dot + 1,
                            i as int,
                        )[j]);
                    }
                    lemma_dec_val_bound(pre);
                    reveal_with_fuel(pow10, 7);
                    assert(pow10(5) == 100000);
                    assert(dec_val(pre) < 100000);
                }
                frac = frac * 10 + ((c - 48) as u64);
                places = places + 1;
            }
            i = i + 1;
        }
        proof {
            assert(b@.subrange(dot + 1, n as int) =~= fp);
            assert(all_digits(fp));
        }
    }
    // scale the fraction to millionths
    let scale: u64 = if places == 0 {
        1000000
    } else if places == 1 {
        100000
    } else if places == 2 {
        10000
    } else if places == 3 {
        1000
    } else if places == 4 {
        100
    } else if places == 5 {
        10
    } else {
        1
    };
    proof {
        reveal_with_fuel(pow10, 7);
        assert(pow10(6) == 1000000 && pow10(5) == 100000 && pow10(4) == 10000 && pow10(3) == 1000
            && pow10(2) == 100 && pow10(1) == 10 && pow10(0) == 1);
        if dot == n {
            assert(fp.len() == 0);
            assert(frac_micros(fp) == 0);
        } else if fp.len() >= 6 {
            assert(places == 6);
            assert(b@.subrange(dot + 1, dot + 1 + 6) =~= fp.take(6));
            assert(frac_micros(fp) == frac);
        } else {
            assert(places == fp.len());
            assert(b@.subrange(dot + 1, dot + 1 + places) =~= fp);
            assert(frac_micros(fp) == dec_val(fp) * pow10((6 - fp.len()) as nat));
            lemma_dec_val_nonneg(fp);
        }
    }
    let mag: u64 = acc * 1000000 + frac * scale;
    proof {
        assert(score_valid(b@));
        assert(mag == dec_val(ip) * 1000000 + frac_micros(fp));
    }
    if neg {
        Some(-(mag as i64))
    } else {
        Some(mag as i64)
    }
}

// ---------------------------------------------------------------------------
// Rendering a score back to its decimal string.
// ---------------------------------------------------------------------------

/// Drops factors of ten from the fraction and counts the places kept.
pub open spec fn frac_reduced(r: int, w: nat) -> (int, nat)
    decreases w,
{
    if w > 1 && r % 10 == 0 {
        frac_reduced(r / 10, (w - 1) as nat)
    } else {
        (r, w)
    }
}

/// `w` digits of `r`, most significant first.
pub open spec fn fixed_digits(r: int, w: nat) -> Seq<u8> {
    Seq::new(w, |i: int| (48 + (r / pow10((w - i - 1) as nat)) % 10) as u8)
}

/// The decimal rendering of a score in millionths: integer part, then a dot
/// and the fraction with trailing zeros dropped, or no dot when the fraction
/// is zero.
pub open spec fn spec_score_repr(v: int) -> Seq<u8> {
    if v < 0 {
        seq![45u8] + spec_mag_repr(-v)
    } else {
        spec_mag_repr(v)
    }
}

pub open spec fn spec_mag_repr(m: int) -> Seq<u8> {
    let ip = m / 1000000;
    let r = m % 1000000;
    if r == 0 {
        spec_u64_dec(ip)
    } else {
        let (rr, w) = frac_reduced(r, 6);
        spec_u64_dec(ip) + seq![46u8] + fixed_digits(rr, w)
    }
}

/// Renders a score as its decimal string.
pub fn score_repr(v: i64) -> (out: Vec<u8>)
    ensures
        out@ == spec_score_repr(v as int),
{
    let mut out: Vec<u8> = Vec::new();
    let mag: u64 = if v < 0 {
        out.push(45);
        (-(v as i128)) as u64
    } else {
        v as u64
    };
    let ip: u64 = mag / 1000000;
    let r0: u64 = mag % 1000000;
    push_u64_dec(&mut out, ip);
    if r0 > 0 {
        out.push(46);
        let mut r: u64 = r0;
        let mut w: u64 = 6;
        while w > 1 && r % 10 == 0
            invariant
                1 <= w <= 6,
                r <= 1000000,
                frac_reduced(r0 as int, 6) == frac_reduced(r as int, w as nat),
            decreases w,
        {
            r = r / 10;
            w = w - 1;
        }
        let ghost base = out@;
        let mut k: u64 = 0;
        while k < w
            invariant
                0 <= k <= w <= 6,
                r <= 1000000,
                out@ == base + fixed_digits(r as int, w as nat).take(k as int),
            decreases w - k,
        {
            let e: u64 = w - k - 1;
            let p: u64 = if e == 0 {
                1
            } else if e == 1 {
                10
            } else if e == 2 {
                100
            } else if e == 3 {
                1000
            } else if e == 4 {
                10000
            } else {
                100000
            };
            proof {
                reveal_with_fuel(pow10, 7);
                assert(pow10(0) == 1 && pow10(1) == 10 && pow10(2) == 100 && pow10(3) == 1000
                    && pow10(4) == 10000 && pow10(5) == 100000);
            }
            let d: u8 = ((r / p) % 10) as u8;
            out.push(48 + d);
            proof {
                assert(fixed_digits(r as int, w as nat).take(k + 1) =~= fixed_digits(
                    r as int,
                    w as nat,
                ).take(k as int) + seq![(48 + (r as int / pow10((w - k - 1) as nat)) % 10) as u8]);
            }
            k = k + 1;
        }
        proof {
            assert(fixed_digits(r as int, w as nat).take(w as int) =~= fixed_digits(
                r as int,
                w as nat,
            ));
            assert((frac_reduced(r0 as int, 6)).0 == r as int);
            assert((frac_reduced(r0 as int, 6)).1 == w as nat);
        }
    }
    proof {
        if v >= 0 {
            assert(out@ =~= spec_score_repr(v as int));
        } else {
            assert(out@ =~= spec_score_repr(v as int));
        }
    }
    out
}

} // verus!
