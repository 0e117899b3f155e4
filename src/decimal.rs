//! Decimal integers as they stand in the text fields of the wire format.
use vstd::prelude::*;

verus! {

pub const PLUS: u8 = 43;

pub const MINUS: u8 = 45;

pub const ZERO: u8 = 48;

pub open spec fn is_digit(b: u8) -> bool {
    ZERO <= b <= 57
}

pub open spec fn all_digits(s: Seq<u8>) -> bool {
    forall|i: int| 0 <= i < s.len() ==> is_digit(#[trigger] s[i])
}

/// The value of a run of decimal digits, most significant first.
pub open spec fn digits_value(s: Seq<u8>) -> nat
    decreases s.len(),
{
    if s.len() == 0 {
        0
    } else {
        digits_value(s.drop_last()) * 10 + (s.last() - ZERO) as nat
    }
}

/// One or more decimal digits and nothing else.
pub open spec fn unsigned_value(s: Seq<u8>) -> Option<int> {
    if s.len() > 0 && all_digits(s) {
        Some(digits_value(s) as int)
    } else {
        None
    }
}

/// An integer in the text form that std's `FromStr` reads: an optional `+`
/// (or, where `allow_minus` holds, `-`) followed by one or more digits.
pub open spec fn integer_value(s: Seq<u8>, allow_minus: bool) -> Option<int> {
    if s.len() > 0 && s[0] == PLUS {
        unsigned_value(s.drop_first())
    } else if allow_minus && s.len() > 0 && s[0] == MINUS {
        match unsigned_value(s.drop_first()) {
            Some(v) => Some(-v),
            None => None,
        }
    } else {
        unsigned_value(s)
    }
}

/// The value of an integer field of type range `lo ..= hi`, or 0 where the
/// field is not such an integer: a corrupt field never discards a message.
pub open spec fn field_or_zero(s: Seq<u8>, lo: int, hi: int) -> int {
    match integer_value(s, lo < 0) {
        Some(v) => if lo <= v <= hi {
            v
        } else {
            0
        },
        None => 0,
    }
}

/// The shortest decimal digits of `n`.
pub open spec fn digits_of(n: nat) -> Seq<u8>
    decreases n,
{
    if n < 10 {
        seq![(ZERO + n) as u8]
    } else {
        digits_of(n / 10).push((ZERO + n % 10) as u8)
    }
}

/// The canonical text form of an integer: a `-` for negative values, then
/// the shortest digits of its magnitude.
pub open spec fn decimal_of(v: int) -> Seq<u8> {
    if v < 0 {
        seq![MINUS] + digits_of((-v) as nat)
    } else {
        digits_of(v as nat)
    }
}

proof fn lemma_digits_prefix_le(s: Seq<u8>, k: int)
    requires
        0 <= k <= s.len(),
        all_digits(s),
    ensures
        digits_value(s.take(k)) <= digits_value(s),
    decreases s.len(),
{
    if k < s.len() {
        assert(s.drop_last().take(k) =~= s.take(k));
        lemma_digits_prefix_le(s.drop_last(), k);
    } else {
        assert(s.take(k) =~= s);
    }
}

proof fn lemma_digits_of(n: nat)
    ensures
        digits_of(n).len() > 0,
        all_digits(digits_of(n)),
        digits_value(digits_of(n)) == n,
    decreases n,
{
    if n >= 10 {
        lemma_digits_of(n / 10);
        let s = digits_of(n);
        assert(s.drop_last() =~= digits_of(n / 10));
        assert(s.last() == (ZERO + n % 10) as u8);
        assert((n / 10) * 10 + n % 10 == n);
    } else {
        assert(digits_of(n).drop_last() =~= Seq::<u8>::empty());
        assert(digits_value(Seq::<u8>::empty()) == 0);
    }
}

/// Every integer is read back from its canonical text form.
pub proof fn lemma_decimal_round_trip(v: int)
    ensures
        integer_value(decimal_of(v), true) == Some(v),
        decimal_of(v).len() > 0,
        forall|i: int| 0 <= i < decimal_of(v).len() ==> MINUS <= #[trigger] decimal_of(v)[i] <= 57,
{
    if v < 0 {
        lemma_digits_of((-v) as nat);
        let d = digits_of((-v) as nat);
        assert((seq![MINUS] + d).drop_first() =~= d);
        assert forall|i: int| 0 <= i < decimal_of(v).len() implies MINUS <= #[trigger] decimal_of(v)[i] <= 57 by {
            if i > 0 {
                assert(decimal_of(v)[i] == d[i - 1]);
                assert(is_digit(d[i - 1]));
            }
        }
    } else {
        lemma_digits_of(v as nat);
        let d = digits_of(v as nat);
        assert(is_digit(d[0]));
        assert forall|i: int| 0 <= i < decimal_of(v).len() implies MINUS <= #[trigger] decimal_of(v)[i] <= 57 by {
            assert(is_digit(d[i]));
        }
    }
}

/// Reads the digits `s[start..end]` as a number no greater than `limit`.
fn read_digits(s: &[u8], start: usize, end: usize, limit: u64) -> (r: Option<u64>)
    requires
        start <= end <= s@.len(),
    ensures
        r == (match unsigned_value(s@.subrange(start as int, end as int)) {
            Some(v) => if v <= limit {
                Some(v as u64)
            } else {
                None::<u64>
            },
            None => None,
        }),
{
    let ghost whole = s@.subrange(start as int, end as int);
    if start == end {
        return None;
    }
    let mut acc: u64 = 0;
    let mut overflow = false;
    let mut i: usize = start;
    while i < end
        invariant
            start <= i <= end <= s@.len(),
            whole == s@.subrange(start as int, end as int),
            all_digits(whole.take(i - start)),
            !overflow ==> acc == digits_value(whole.take(i - start)) && acc <= limit,
            overflow ==> digits_value(whole.take(i - start)) > limit,
        decreases end - i,
    {
        let b = s[i];
        let ghost pre = whole.take(i - start);
        let ghost next = whole.take(i + 1 - start);
        assert(next.drop_last() =~= pre);
        if !(ZERO <= b && b <= 57) {
            assert(!is_digit(whole[i - start]));
            return None;
        }
        assert(all_digits(next));
        if !overflow {
            let v: u128 = acc as u128 * 10 + (b - ZERO) as u128;
            if v > limit as u128 {
                overflow = true;
            } else {
                acc = v as u64;
            }
        } else {
            assert(digits_value(next) >= digits_value(pre));
        }
        i = i + 1;
    }
    assert(whole.take(end - start) =~= whole);
    if overflow {
        None
    } else {
        Some(acc)
    }
}

/// Reads `s[start..end]` as an unsigned integer no greater than `limit`, in
/// the form that std's `FromStr` accepts.
pub fn read_unsigned(s: &[u8], start: usize, end: usize, limit: u64) -> (r: Option<u64>)
    requires
        start <= end <= s@.len(),
    ensures
        r == (match integer_value(s@.subrange(start as int, end as int), false) {
            Some(v) => if v <= limit {
                Some(v as u64)
            } else {
                None::<u64>
            },
            None => None,
        }),
{
    let ghost f = s@.subrange(start as int, end as int);
    if start < end && s[start] == PLUS {
        assert(f.drop_first() =~= s@.subrange(start + 1, end as int));
        read_digits(s, start + 1, end, limit)
    } else {
        read_digits(s, start, end, limit)
    }
}

/// Reads `s[start..end]` as a signed integer in `lo ..= hi`, in the form that
/// std's `FromStr` accepts.
pub fn read_signed(s: &[u8], start: usize, end: usize, lo: i64, hi: i64) -> (r: Option<i64>)
    requires
        start <= end <= s@.len(),
        lo < 0 <= hi,
    ensures
        r == (match integer_value(s@.subrange(start as int, end as int), true) {
            Some(v) => if lo <= v <= hi {
                Some(v as i64)
            } else {
                None::<i64>
            },
            None => None,
        }),
{
    let ghost f = s@.subrange(start as int, end as int);
    if start < end && (s[start] == PLUS || s[start] == MINUS) {
        assert(f.drop_first() =~= s@.subrange(start + 1, end as int));
        if s[start] == PLUS {
            match read_digits(s, start + 1, end, hi as u64) {
                Some(v) => Some(v as i64),
                None => None,
            }
        } else {
            let limit: u64 = (0i128 - lo as i128) as u64;
            match read_digits(s, start + 1, end, limit) {
                Some(v) => Some((0i128 - v as i128) as i64),
                None => None,
            }
        }
    } else {
        match read_digits(s, start, end, hi as u64) {
            Some(v) => Some(v as i64),
            None => None,
        }
    }
}

/// Reads `s[start..end]` as an integer in `lo ..= hi`, or 0 where it is not
/// one.
pub fn field_value(s: &[u8], start: usize, end: usize, lo: i64, hi: i64) -> (r: i64)
    requires
        start <= end <= s@.len(),
        lo < 0 <= hi,
    ensures
        r == field_or_zero(s@.subrange(start as int, end as int), lo as int, hi as int),
{
    match read_signed(s, start, end, lo, hi) {
        Some(v) => v,
        None => 0,
    }
}

/// Reads `s[start..end]` as an unsigned integer no greater than `hi`, or 0
/// where it is not one.
pub fn unsigned_field_value(s: &[u8], start: usize, end: usize, hi: u64) -> (r: u64)
    requires
        start <= end <= s@.len(),
    ensures
        r == field_or_zero(s@.subrange(start as int, end as int), 0, hi as int),
{
    match read_unsigned(s, start, end, hi) {
        Some(v) => v,
        None => 0,
    }
}

fn push_digits(out: &mut Vec<u8>, n: u64)
    ensures
        final(out)@ == old(out)@ + digits_of(n as nat),
    decreases n,
{
    if n >= 10 {
        push_digits(out, n / 10);
    }
    out.push(ZERO + (n % 10) as u8);
    assert(final(out)@ =~= old(out)@ + digits_of(n as nat));
}

/// Appends the canonical text form of `v`.
pub fn push_decimal(out: &mut Vec<u8>, v: i64)
    ensures
        final(out)@ == old(out)@ + decimal_of(v as int),
{
    if v < 0 {
        out.push(MINUS);
        let m: u64 = (0i128 - v as i128) as u64;
        push_digits(out, m);
        assert(final(out)@ =~= old(out)@ + decimal_of(v as int));
    } else {
        push_digits(out, v as u64);
    }
}

} // verus!
