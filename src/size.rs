use vstd::prelude::*;
use crate::text::chars_of;

verus! {

pub open spec fn is_digit(c: char) -> bool {
    '0' <= c <= '9'
}

/// The value of a string of decimal digits.
pub open spec fn digits_value(s: Seq<char>) -> int
    decreases s.len(),
{
    if s.len() == 0 {
        0
    } else {
        digits_value(s.drop_last()) * 10 + (s.last() as int - '0' as int)
    }
}

pub open spec fn all_digits(s: Seq<char>) -> bool {
    s.len() > 0 && forall|i: int| 0 <= i < s.len() ==> is_digit(#[trigger] s[i])
}

/// A decimal integer with an optional sign, as text, and its value.
pub open spec fn int_value(s: Seq<char>) -> Option<int> {
    if s.len() > 0 && (s[0] == '-' || s[0] == '+') {
        if all_digits(s.drop_first()) {
            Some(if s[0] == '-' { -digits_value(s.drop_first()) } else { digits_value(s.drop_first()) })
        } else {
            None
        }
    } else if all_digits(s) {
        Some(digits_value(s))
    } else {
        None
    }
}

/// The index of the first `x` at or after `from`, or the length.
pub open spec fn next_x(s: Seq<char>, from: int) -> int
    decreases s.len() - from,
{
    if from >= s.len() {
        s.len() as int
    } else if s[from] == 'x' {
        from
    } else {
        next_x(s, from + 1)
    }
}

/// The two leading `x`-separated fields of a `WIDTHxHEIGHT` text (anything
/// after a second `x` is ignored); `None` without an `x`.
pub open spec fn size_fields(s: Seq<char>) -> Option<(Seq<char>, Seq<char>)> {
    let i = next_x(s, 0);
    if i >= s.len() {
        None
    } else {
        let j = next_x(s, i + 1);
        Some((s.subrange(0, i), s.subrange(i + 1, j)))
    }
}

/// The size that a `WIDTHxHEIGHT` text gives: both fields integers that
/// fit in an `i32`.
pub open spec fn size_of_text(s: Seq<char>) -> Option<(i32, i32)> {
    match size_fields(s) {
        Some((a, b)) => match (int_value(a), int_value(b)) {
            (Some(w), Some(h)) => if i32::MIN <= w <= i32::MAX && i32::MIN <= h <= i32::MAX {
                Some((w as i32, h as i32))
            } else {
                None
            },
            _ => None,
        },
        None => None,
    }
}

proof fn lemma_next_x(s: Seq<char>, from: int)
    requires
        0 <= from <= s.len(),
    ensures
        from <= next_x(s, from) <= s.len(),
        next_x(s, from) < s.len() ==> s[next_x(s, from)] == 'x',
        forall|k: int| from <= k < next_x(s, from) ==> s[k] != 'x',
    decreases s.len() - from,
{
    if from < s.len() && s[from] != 'x' {
        lemma_next_x(s, from + 1);
    }
}

fn find_x(s: &Vec<char>, from: usize) -> (r: usize)
    requires
        from <= s@.len(),
    ensures
        r == next_x(s@, from as int),
{
    let mut i = from;
    while i < s.len() && s[i] != 'x'
        invariant
            from <= i <= s@.len(),
            next_x(s@, from as int) == next_x(s@, i as int),
        decreases s@.len() - i,
    {
        i = i + 1;
    }
    i
}

/// Parses the characters `s[from..to]` as an integer in `i32` range.
fn parse_int(s: &Vec<char>, from: usize, to: usize) -> (r: Option<i32>)
    requires
        from <= to <= s@.len(),
    ensures
        r == match int_value(s@.subrange(from as int, to as int)) {
            Some(v) => if i32::MIN <= v <= i32::MAX {
                Some(v as i32)
            } else {
                None::<i32>
            },
            None => None,
        },
{
    let ghost t = s@.subrange(from as int, to as int);
    let mut start = from;
    let mut negative = false;
    if from < to && (s[from] == '-' || s[from] == '+') {
        negative = s[from] == '-';
        start = from + 1;
    }
    let ghost d = s@.subrange(start as int, to as int);
    proof {
        if start == from + 1 {
            assert(d =~= t.drop_first());
        } else {
            assert(d =~= t);
        }
        assert(int_value(t) == if all_digits(d) {
            Some(if negative { -digits_value(d) } else { digits_value(d) })
        } else {
            None
        });
    }
    if start == to {
        return None;
    }
    // Accumulate the magnitude; anything past 2^31 is out of range either way.
    let mut v: i64 = 0;
    let mut i = start;
    while i < to
        invariant
            start <= i <= to,
            to <= s@.len(),
            d == s@.subrange(start as int, to as int),
            t == s@.subrange(from as int, to as int),
            int_value(t) == if all_digits(d) {
                Some(if negative { -digits_value(d) } else { digits_value(d) })
            } else {
                None
            },
            0 <= v <= 0x8000_0000,
            forall|k: int| start <= k < i ==> is_digit(#[trigger] s@[k]),
            v == digits_value(s@.subrange(start as int, i as int)),
        decreases to - i,
    {
        let c = s[i];
        if !('0' <= c && c <= '9') {
            proof {
                assert(d[i - start] == s@[i as int]);
                assert(!is_digit(d[i - start]));
                assert(!all_digits(d));
                assert(int_value(t) is None);
            }
            return None;
        }
        let nv = v * 10 + (c as i64 - '0' as i64);
        proof {
            assert(s@.subrange(start as int, i + 1).drop_last() =~= s@.subrange(start as int, i as int));
        }
        if nv > 0x8000_0000 {
            proof {
                if all_digits(d) {
                    lemma_digits_grow(d, (i + 1 - start) as nat);
                    assert(d.subrange(0, i + 1 - start) =~= s@.subrange(start as int, i + 1));
                    assert(digits_value(d) >= nv);
                    assert(int_value(t) is Some);
                }
            }
            return None;
        }
        v = nv;
        i = i + 1;
    }
    proof {
        assert(s@.subrange(start as int, i as int) =~= d);
        assert(all_digits(d));
    }
    if negative {
        Some((-v) as i32)
    } else if v <= 0x7fff_ffff {
        Some(v as i32)
    } else {
        None
    }
}

/// A digit string's value is at least that of any of its prefixes.
proof fn lemma_digits_grow(s: Seq<char>, n: nat)
    requires
        n <= s.len(),
        all_digits(s),
    ensures
        digits_value(s) >= digits_value(s.subrange(0, n as int)),
        digits_value(s.subrange(0, n as int)) >= 0,
    decreases s.len(),
{
    lemma_digits_nonneg(s);
    lemma_digits_nonneg(s.subrange(0, n as int));
    if n < s.len() {
        let init = s.drop_last();
        assert(init.subrange(0, n as int) =~= s.subrange(0, n as int));
        if init.len() > 0 {
            lemma_digits_grow(init, n);
        } else {
            assert(s.subrange(0, n as int) =~= Seq::<char>::empty());
        }
    } else {
        assert(s.subrange(0, n as int) =~= s);
    }
}

proof fn lemma_digits_nonneg(s: Seq<char>)
    requires
        forall|i: int| 0 <= i < s.len() ==> is_digit(#[trigger] s[i]),
    ensures
        digits_value(s) >= 0,
    decreases s.len(),
{
    if s.len() > 0 {
        lemma_digits_nonneg(s.drop_last());
    }
}

/// Reads a `WIDTHxHEIGHT` size, such as `80x24`.
pub fn parse_size(text: &str) -> (r: Option<(i32, i32)>)
    ensures
        r == size_of_text(text@),
{
    let s = chars_of(text);
    let i = find_x(&s, 0);
    proof {
        lemma_next_x(s@, 0);
    }
    if i >= s.len() {
        return None;
    }
    let j = find_x(&s, i + 1);
    proof {
        lemma_next_x(s@, i + 1);
    }
    let w = parse_int(&s, 0, i);
    let h = parse_int(&s, i + 1, j);
    match (w, h) {
        (Some(w), Some(h)) => Some((w, h)),
        _ => None,
    }
}

} // verus!
