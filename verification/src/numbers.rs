use vstd::prelude::*;

verus! {

// ---------------------------------------------------------------------------
// Decimal digit strings: value, validity, and rendering.
// ---------------------------------------------------------------------------

pub open spec fn is_digit(c: u8) -> bool {
    48 <= c <= 57
}

pub open spec fn all_digits(s: Seq<u8>) -> bool {
    forall|i: int| 0 <= i < s.len() ==> is_digit(#[trigger] s[i])
}

/// Value of a digit string read as a base-10 numeral.
pub open spec fn dec_val(s: Seq<u8>) -> int
    decreases s.len(),
{
    if s.len() == 0 {
        0
    } else {
        dec_val(s.drop_last()) * 10 + (s.last() - 48)
    }
}

/// The canonical decimal rendering of a non-negative integer.
pub open spec fn spec_u64_dec(n: int) -> Seq<u8>
    decreases n,
{
    if n < 10 {
        seq![(48 + if n >= 0 { n } else { 0 }) as u8]
    } else {
        spec_u64_dec(n / 10) + seq![(48 + n % 10) as u8]
    }
}

/// The canonical decimal rendering of a signed integer, as `i64::to_string`
/// produces it.
pub open spec fn spec_i64_dec(i: int) -> Seq<u8> {
    if i < 0 {
        seq![45u8] + spec_u64_dec(-i)
    } else {
        spec_u64_dec(i)
    }
}

/// Bytes that can appear in a length or integer line: no carriage return, no
/// line feed.
pub open spec fn clean(s: Seq<u8>) -> bool {
    forall|i: int| 0 <= i < s.len() ==> #[trigger] s[i] != 13 && s[i] != 10
}

/// What `str::parse::<i64>` accepts: an optional sign, then one or more
/// digits, with the value in range.
pub open spec fn int_line_valid(s: Seq<u8>) -> bool {
    &&& s.len() > 0
    &&& if s[0] == 43 || s[0] == 45 {
        s.len() >= 2 && all_digits(s.skip(1))
    } else {
        all_digits(s)
    }
    &&& i64::MIN <= int_line_val(s) <= i64::MAX
}

pub open spec fn int_line_val(s: Seq<u8>) -> int {
    if s.len() == 0 {
        0
    } else if s[0] == 45 {
        -dec_val(s.skip(1))
    } else if s[0] == 43 {
        dec_val(s.skip(1))
    } else {
        dec_val(s)
    }
}

// ---------------------------------------------------------------------------
// Lemmas.
// ---------------------------------------------------------------------------

pub open spec fn pow10(k: nat) -> int
    decreases k,
{
    if k == 0 {
        1
    } else {
        10 * pow10((k - 1) as nat)
    }
}

/// A digit string of length `k` reads below `10^k`.
pub proof fn lemma_dec_val_bound(s: Seq<u8>)
    requires
        all_digits(s),
    ensures
        dec_val(s) < pow10(s.len()),
    decreases s.len(),
{
    if s.len() == 0 {
    } else {
        assert(all_digits(s.drop_last())) by {
            assert(forall|i: int| 0 <= i < s.len() - 1 ==> s.drop_last()[i] == s[i]);
        }
        lemma_dec_val_bound(s.drop_last());
        assert(is_digit(s.last()));
    }
}

pub proof fn lemma_dec_val_push(s: Seq<u8>, d: u8)
    ensures
        dec_val(s + seq![d]) == dec_val(s) * 10 + (d - 48),
{
    assert((s + seq![d]).drop_last() =~= s);
    assert((s + seq![d]).last() == d);
}

pub proof fn lemma_dec_val_nonneg(s: Seq<u8>)
    requires
        all_digits(s),
    ensures
        dec_val(s) >= 0,
    decreases s.len(),
{
    if s.len() > 0 {
        assert(all_digits(s.drop_last())) by {
            assert(forall|i: int| 0 <= i < s.len() - 1 ==> s.drop_last()[i] == s[i]);
        }
        lemma_dec_val_nonneg(s.drop_last());
    }
}

/// A digit string's value only grows as more digits are appended.
pub proof fn lemma_dec_val_prefix(s: Seq<u8>, k: int)
    requires
        all_digits(s),
        0 <= k <= s.len(),
    ensures
        dec_val(s.take(k)) <= dec_val(s),
    decreases s.len() - k,
{
    if k < s.len() {
        let t = s.take(k + 1);
        assert(t =~= s.take(k) + seq![s[k]]);
        lemma_dec_val_push(s.take(k), s[k]);
        assert(all_digits(s.take(k))) by {
            assert(forall|i: int| 0 <= i < k ==> s.take(k)[i] == s[i]);
        }
        lemma_dec_val_nonneg(s.take(k));
        lemma_dec_val_prefix(s, k + 1);
    } else {
        assert(s.take(k) =~= s);
    }
}

/// The canonical rendering consists of digits, is non-empty, and reads back
/// to the value it came from.
pub proof fn lemma_u64_dec(n: int)
    requires
        n >= 0,
    ensures
        spec_u64_dec(n).len() >= 1,
        all_digits(spec_u64_dec(n)),
        dec_val(spec_u64_dec(n)) == n,
    decreases n,
{
    if n < 10 {
        let s = seq![(48 + n) as u8];
        assert(spec_u64_dec(n) =~= s);
        assert(s.drop_last() =~= Seq::<u8>::empty());
        assert(dec_val(s) == dec_val(s.drop_last()) * 10 + (s.last() - 48));
        assert(dec_val(s) == n);
    } else {
        lemma_u64_dec(n / 10);
        let hd = spec_u64_dec(n / 10);
        let d = (48 + n % 10) as u8;
        lemma_dec_val_push(hd, d);
        assert(all_digits(hd + seq![d])) by {
            assert(forall|i: int| 0 <= i < hd.len() ==> (hd + seq![d])[i] == hd[i]);
            assert((hd + seq![d]).last() == d);
        }
    }
}

/// The rendering of a signed integer parses back to that integer.
pub proof fn lemma_i64_dec_line(i: int)
    requires
        i64::MIN <= i <= i64::MAX,
    ensures
        int_line_valid(spec_i64_dec(i)),
        int_line_val(spec_i64_dec(i)) == i,
        clean(spec_i64_dec(i)),
        spec_i64_dec(i).len() >= 1,
    {
    if i < 0 {
        lemma_u64_dec(-i);
        let s = seq![45u8] + spec_u64_dec(-i);
        assert(s[0] == 45);
        assert(s.skip(1) =~= spec_u64_dec(-i));
        assert(clean(s)) by {
            assert(forall|j: int| 1 <= j < s.len() ==> s[j] == spec_u64_dec(-i)[j - 1]);
        }
    } else {
        lemma_u64_dec(i);
        let s = spec_u64_dec(i);
        assert(is_digit(s[0]));
    }
}

// ---------------------------------------------------------------------------
// Executable parsing and formatting.
// ---------------------------------------------------------------------------

/// Parses a whole line as a signed 64-bit decimal, exactly as
/// `str::parse::<i64>` would judge it.
pub fn parse_int_line(line: &[u8]) -> (r: Option<i64>)
    ensures
        match r {
            Some(v) => int_line_valid(line@) && v as int == int_line_val(line@),
            None => !int_line_valid(line@),
        },
{
    let n = line.len();
    if n == 0 {
        return None;
    }
    let neg = line[0] == 45;
    let has_sign = neg || line[0] == 43;
    let start: usize = if has_sign {
        1
    } else {
        0
    };
    if start >= n {
        return None;
    }
    let limit: u128 = if neg {
        9223372036854775808u128
    } else {
        9223372036854775807u128
    };
    let mut acc: u128 = 0;
    let mut i = start;
    while i < n
        invariant
            start <= i <= n,
            n == line@.len(),
            start == 1 <==> (line@[0] == 43 || line@[0] == 45),
            start == 0 || start == 1,
            start < n,
            neg <==> line@[0] == 45,
            limit == if neg { 9223372036854775808u128 } else { 9223372036854775807u128 },
            all_digits(line@.subrange(start as int, i as int)),
            acc == dec_val(line@.subrange(start as int, i as int)),
            acc <= limit,
        decreases n - i,
    {
        let c = line[i];
        if c < 48 || c > 57 {
            proof {
                let digits = line@.skip(start as int);
                assert(digits[i - start] == c);
                assert(!all_digits(digits));
            }
            return None;
        }
        let d = (c - 48) as u128;
        proof {
            assert(line@.subrange(start as int, i + 1) =~= line@.subrange(
                start as int,
                i as int,
            ) + seq![c]);
            lemma_dec_val_push(line@.subrange(start as int, i as int), c);
        }
        acc = acc * 10 + d;
        if acc > limit {
            proof {
                let digits = line@.skip(start as int);
                assert(line@.skip(0) =~= line@);
                if all_digits(digits) {
                    lemma_dec_val_prefix(digits, i + 1 - start);
                    assert(digits.take(i + 1 - start) =~= line@.subrange(start as int, i + 1));
                    assert(dec_val(digits) >= acc);
                    if neg {
                        assert(int_line_val(line@) == -dec_val(digits));
                        assert(int_line_val(line@) < i64::MIN);
                    } else {
                        assert(int_line_val(line@) == dec_val(digits));
                        assert(int_line_val(line@) > i64::MAX);
                    }
                }
            }
            return None;
        }
        i = i + 1;
    }
    proof {
        assert(line@.subrange(start as int, n as int) =~= line@.skip(start as int));
        assert(line@.skip(0) =~= line@);
    }
    if neg {
        proof {
            assert(int_line_val(line@) == -dec_val(line@.skip(1)));
        }
        Some((-(acc as i128)) as i64)
    } else {
        Some(acc as i64)
    }
}

/// Appends the canonical decimal rendering of `n`.
pub fn push_u64_dec(out: &mut Vec<u8>, n: u64)
    ensures
        final(out)@ == old(out)@ + spec_u64_dec(n as int),
    decreases n,
{
    if n < 10 {
        out.push(48 + n as u8);
        proof {
            assert(out@ =~= old(out)@ + spec_u64_dec(n as int));
        }
    } else {
        push_u64_dec(out, n / 10);
        out.push(48 + (n % 10) as u8);
        proof {
            assert(out@ =~= old(out)@ + spec_u64_dec(n as int));
        }
    }
}

/// Appends the canonical decimal rendering of `i`, sign included.
pub fn push_i64_dec(out: &mut Vec<u8>, i: i64)
    ensures
        final(out)@ == old(out)@ + spec_i64_dec(i as int),
{
    if i < 0 {
        out.push(45);
        let mag: u64 = (-(i as i128)) as u64;
        push_u64_dec(out, mag);
        proof {
            assert(out@ =~= old(out)@ + spec_i64_dec(i as int));
        }
    } else {
        push_u64_dec(out, i as u64);
    }
}

} // verus!
