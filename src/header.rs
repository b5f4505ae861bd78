use vstd::prelude::*;

verus! {

/// Ends the size field of a header.
pub const SPACE: u8 = 0x20;

/// ASCII `'0'`.
pub const DIGIT_ZERO: u8 = 0x30;

/// ASCII `'9'`.
pub const DIGIT_NINE: u8 = 0x39;

/// Index of the first `b` in `p` at or after `i`, or `p.len()` if none.
pub open spec fn first_from(p: Seq<u8>, b: u8, i: int) -> int
    decreases p.len() - i,
{
    if i >= p.len() {
        p.len() as int
    } else if p[i] == b {
        i
    } else {
        first_from(p, b, i + 1)
    }
}

pub open spec fn is_digit(c: u8) -> bool {
    DIGIT_ZERO <= c <= DIGIT_NINE
}

pub open spec fn all_digits(s: Seq<u8>) -> bool {
    forall|k: int| 0 <= k < s.len() ==> is_digit(#[trigger] s[k])
}

/// The number that a run of ASCII digits writes in decimal.
pub open spec fn decimal_value(s: Seq<u8>) -> int
    decreases s.len(),
{
    if s.len() == 0 {
        0
    } else {
        10 * decimal_value(s.drop_last()) + (s.last() - DIGIT_ZERO)
    }
}

/// The file length a handshake payload declares: the payload holds a
/// NUL-terminated file name, then decimal digits ended by a space. `None`
/// when it is not so shaped or the number does not fit in 32 bits.
pub open spec fn header_length(p: Seq<u8>) -> Option<u32> {
    let n = first_from(p, 0, 0);
    let sp = first_from(p, SPACE, n + 1);
    let digits = p.subrange(n + 1, sp);
    if n < p.len() && sp < p.len() && all_digits(digits) && decimal_value(digits) <= u32::MAX {
        Some(decimal_value(digits) as u32)
    } else {
        None
    }
}

proof fn lemma_first_from_bounds(p: Seq<u8>, b: u8, i: int)
    requires
        0 <= i <= p.len(),
    ensures
        i <= first_from(p, b, i) <= p.len(),
    decreases p.len() - i,
{
    if i < p.len() && p[i] != b {
        lemma_first_from_bounds(p, b, i + 1);
    }
}

/// A run of digits is worth at least as much as any of its prefixes.
proof fn lemma_decimal_prefix(s: Seq<u8>, k: int)
    requires
        all_digits(s),
        0 <= k <= s.len(),
    ensures
        decimal_value(s.subrange(0, k)) <= decimal_value(s),
    decreases s.len(),
{
    if k < s.len() {
        let t = s.drop_last();
        assert(all_digits(t)) by {
            assert forall|j: int| 0 <= j < t.len() implies is_digit(#[trigger] t[j]) by {
                assert(t[j] == s[j]);
            }
        }
        lemma_decimal_prefix(t, k);
        assert(t.subrange(0, k) =~= s.subrange(0, k));
        lemma_decimal_nonneg(t);
        assert(is_digit(s[s.len() - 1]));
    } else {
        assert(s.subrange(0, k) =~= s);
    }
}

proof fn lemma_decimal_nonneg(s: Seq<u8>)
    requires
        all_digits(s),
    ensures
        decimal_value(s) >= 0,
    decreases s.len(),
{
    if s.len() > 0 {
        let t = s.drop_last();
        assert(all_digits(t)) by {
            assert forall|j: int| 0 <= j < t.len() implies is_digit(#[trigger] t[j]) by {
                assert(t[j] == s[j]);
            }
        }
        lemma_decimal_nonneg(t);
        assert(is_digit(s[s.len() - 1]));
    }
}

/// Reads the declared file length out of a handshake payload.
pub fn parse_header(payload: &[u8]) -> (r: Option<u32>)
    ensures
        r == header_length(payload@),
{
    let ghost p = payload@;
    let mut i: usize = 0;
    while i < payload.len() && payload[i] != 0
        invariant
            p == payload@,
            i <= p.len(),
            first_from(p, 0, 0) == first_from(p, 0, i as int),
        decreases p.len() - i,
    {
        i = i + 1;
    }
    if i == payload.len() {
        return None;
    }
    let start: usize = i + 1;
    let mut j: usize = start;
    let mut value: u32 = 0;
    proof {
        lemma_first_from_bounds(p, SPACE, start as int);
        assert(p.subrange(start as int, start as int) =~= Seq::<u8>::empty());
    }
    while j < payload.len() && payload[j] != SPACE
        invariant
            p == payload@,
            start == first_from(p, 0, 0) + 1,
            start <= j <= p.len(),
            first_from(p, SPACE, start as int) == first_from(p, SPACE, j as int),
            all_digits(p.subrange(start as int, j as int)),
            value == decimal_value(p.subrange(start as int, j as int)),
        decreases p.len() - j,
    {
        let c = payload[j];
        let ghost sp = first_from(p, SPACE, start as int);
        proof {
            lemma_first_from_bounds(p, SPACE, j as int + 1);
        }
        if c < DIGIT_ZERO || c > DIGIT_NINE {
            proof {
                if sp < p.len() {
                    let d = p.subrange(start as int, sp);
                    assert(d[j - start] == c);
                }
            }
            return None;
        }
        let ghost next_digits = p.subrange(start as int, j + 1);
        assert(next_digits.drop_last() =~= p.subrange(start as int, j as int));
        if value > 429496729 || (value == 429496729 && c > 0x35) {
            proof {
                if sp < p.len() && all_digits(p.subrange(start as int, sp)) {
                    let d = p.subrange(start as int, sp);
                    lemma_decimal_prefix(d, j + 1 - start);
                    assert(d.subrange(0, j + 1 - start) =~= next_digits);
                }
            }
            return None;
        }
        value = value * 10 + (c - DIGIT_ZERO) as u32;
        j = j + 1;
    }
    if j == payload.len() {
        return None;
    }
    Some(value)
}

} // verus!
