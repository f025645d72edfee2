use vstd::prelude::*;

verus! {

/// An ASCII decimal digit.
pub open spec fn is_digit(b: u8) -> bool {
    48 <= b <= 57
}

/// A non-empty run of decimal digits.
pub open spec fn all_digits(s: Seq<u8>) -> bool {
    s.len() > 0 && forall|i: int| 0 <= i < s.len() ==> is_digit(#[trigger] s[i])
}

/// The value of a run of decimal digits.
pub open spec fn digits_value(s: Seq<u8>) -> int
    decreases s.len(),
{
    if s.len() == 0 {
        0
    } else {
        digits_value(s.drop_last()) * 10 + (s.last() - 48)
    }
}

/// The value of an integer written in decimal with an optional `+` or `-`
/// sign, or `None` when `s` is not such a text.
pub open spec fn signed_value(s: Seq<u8>) -> Option<int> {
    if s.len() > 0 && s[0] == 45 {
        if all_digits(s.subrange(1, s.len() as int)) {
            Some(-digits_value(s.subrange(1, s.len() as int)))
        } else {
            None
        }
    } else if s.len() > 0 && s[0] == 43 {
        if all_digits(s.subrange(1, s.len() as int)) {
            Some(digits_value(s.subrange(1, s.len() as int)))
        } else {
            None
        }
    } else if all_digits(s) {
        Some(digits_value(s))
    } else {
        None
    }
}

/// The `isize` that `s` writes, as std's integer parsing reads it: `None`
/// when `s` is no integer or its value does not fit.
pub open spec fn isize_of(s: Seq<u8>) -> Option<isize> {
    match signed_value(s) {
        Some(v) => if isize::MIN <= v <= isize::MAX { Some(v as isize) } else { None },
        None => None,
    }
}

/// The `usize` that `s` writes: an optional `+`, then digits.
pub open spec fn usize_of(s: Seq<u8>) -> Option<usize> {
    match signed_value(s) {
        Some(v) => if (s[0] != 45) && 0 <= v <= usize::MAX { Some(v as usize) } else { None },
        None => None,
    }
}

/// `min(v, cap)`.
pub open spec fn capped(v: int, cap: int) -> int {
    if v < cap { v } else { cap }
}

/// The value of the digits in `b[lo..hi]`, capped at `cap`, or `None` when
/// the range is empty or holds a byte that is no digit.
fn digits_capped(b: &[u8], lo: usize, hi: usize, cap: u128) -> (r: Option<u128>)
    requires
        lo <= hi <= b@.len(),
        cap <= 0x1_0000_0000_0000_0000,
    ensures
        r is Some <==> all_digits(b@.subrange(lo as int, hi as int)),
        r matches Some(v) ==> v == capped(digits_value(b@.subrange(lo as int, hi as int)), cap as int),
{
    if lo == hi {
        return None;
    }
    let mut acc: u128 = 0;
    let mut k = lo;
    while k < hi
        invariant
            lo <= k <= hi <= b@.len(),
            cap <= 0x1_0000_0000_0000_0000,
            forall|i: int| lo <= i < k ==> is_digit(#[trigger] b@[i]),
            acc == capped(digits_value(b@.subrange(lo as int, k as int)), cap as int),
        decreases hi - k,
    {
        let d = b[k];
        if d < 48 || d > 57 {
            proof {
                assert(b@.subrange(lo as int, hi as int)[k - lo] == d);
            }
            return None;
        }
        proof {
            let t = b@.subrange(lo as int, k as int + 1);
            assert(t.drop_last() =~= b@.subrange(lo as int, k as int));
            assert(t.last() == d);
            let v = digits_value(b@.subrange(lo as int, k as int));
            assert(v >= 0) by {
                let p = b@.subrange(lo as int, k as int);
                assert forall|i: int| 0 <= i < p.len() implies is_digit(#[trigger] p[i]) by {
                    assert(p[i] == b@[lo + i]);
                }
                lemma_digits_value_nonneg(p);
            }
        }
        let next = acc * 10 + (d - 48) as u128;
        acc = if next < cap { next } else { cap };
        k += 1;
    }
    proof {
        assert forall|i: int| 0 <= i < (hi - lo) implies is_digit(
            #[trigger] b@.subrange(lo as int, hi as int)[i],
        ) by {
            assert(b@.subrange(lo as int, hi as int)[i] == b@[lo + i]);
        }
    }
    Some(acc)
}

proof fn lemma_digits_value_nonneg(s: Seq<u8>)
    requires
        forall|i: int| 0 <= i < s.len() ==> is_digit(#[trigger] s[i]),
    ensures
        digits_value(s) >= 0,
    decreases s.len(),
{
    if s.len() > 0 {
        let t = s.drop_last();
        assert forall|i: int| 0 <= i < t.len() implies is_digit(#[trigger] t[i]) by {
            assert(t[i] == s[i]);
        }
        lemma_digits_value_nonneg(t);
        assert(is_digit(s[s.len() - 1]));
    }
}

/// The optional sign of the text in `b[lo..hi]`: whether it is negative,
/// and where its digits start.
fn sign_of(b: &[u8], lo: usize, hi: usize) -> (r: (bool, usize))
    requires
        lo <= hi <= b@.len(),
    ensures
        r.0 <==> (lo < hi && b@[lo as int] == 45),
        r.1 == (if lo < hi && (b@[lo as int] == 45 || b@[lo as int] == 43) { lo + 1 } else { lo as int }),
{
    if lo < hi && b[lo] == 45 {
        (true, lo + 1)
    } else if lo < hi && b[lo] == 43 {
        (false, lo + 1)
    } else {
        (false, lo)
    }
}

/// The `isize` that `b[lo..hi]` writes, as `isize_of` states.
pub fn parse_isize(b: &[u8], lo: usize, hi: usize) -> (r: Option<isize>)
    requires
        lo <= hi <= b@.len(),
    ensures
        r == isize_of(b@.subrange(lo as int, hi as int)),
{
    let ghost s = b@.subrange(lo as int, hi as int);
    let (neg, start) = sign_of(b, lo, hi);
    proof {
        if start == lo + 1 {
            assert(s.subrange(1, s.len() as int) =~= b@.subrange(start as int, hi as int));
        } else {
            assert(s =~= b@.subrange(start as int, hi as int));
        }
    }
    let cap: u128 = isize::MAX as u128 + 2;
    match digits_capped(b, start, hi, cap) {
        None => None,
        Some(v) => {
            if v == cap {
                None
            } else if neg {
                if v == isize::MAX as u128 + 1 {
                    Some(isize::MIN)
                } else {
                    Some(-(v as isize))
                }
            } else if v == cap - 1 {
                None
            } else {
                Some(v as isize)
            }
        },
    }
}

/// The `usize` that `b[lo..hi]` writes, as `usize_of` states.
pub fn parse_usize(b: &[u8], lo: usize, hi: usize) -> (r: Option<usize>)
    requires
        lo <= hi <= b@.len(),
    ensures
        r == usize_of(b@.subrange(lo as int, hi as int)),
{
    let ghost s = b@.subrange(lo as int, hi as int);
    let (neg, start) = sign_of(b, lo, hi);
    proof {
        if start == lo + 1 {
            assert(s.subrange(1, s.len() as int) =~= b@.subrange(start as int, hi as int));
        } else {
            assert(s =~= b@.subrange(start as int, hi as int));
        }
    }
    if neg {
        return None;
    }
    let cap: u128 = usize::MAX as u128 + 1;
    match digits_capped(b, start, hi, cap) {
        None => None,
        Some(v) => if v == cap {
            None
        } else {
            Some(v as usize)
        },
    }
}

/// The first position in `from..to` that holds `byte`, or `to`.
pub open spec fn next_byte(s: Seq<u8>, from: int, to: int, byte: u8) -> int
    decreases to - from,
{
    if from >= to {
        to
    } else if s[from] == byte {
        from
    } else {
        next_byte(s, from + 1, to, byte)
    }
}

/// Finds `next_byte(b@, from, to, byte)`.
pub fn find_byte(b: &[u8], from: usize, to: usize, byte: u8) -> (r: usize)
    requires
        from <= to <= b@.len(),
    ensures
        r == next_byte(b@, from as int, to as int, byte),
        from <= r <= to,
{
    let mut k = from;
    while k < to
        invariant
            from <= k <= to <= b@.len(),
            next_byte(b@, from as int, to as int, byte) == next_byte(b@, k as int, to as int, byte),
        decreases to - k,
    {
        if b[k] == byte {
            return k;
        }
        k += 1;
    }
    k
}

} // verus!
