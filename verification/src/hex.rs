//! Hexadecimal numbers as the memory map writes them.

use vstd::prelude::*;
use vstd::string::StrSliceExecFns;

verus! {

/// Whether `c` has the Unicode property White_Space.
pub open spec fn is_white_space(c: char) -> bool {
    let u = c as u32;
    ||| 0x09 <= u <= 0x0d
    ||| u == 0x20
    ||| u == 0x85
    ||| u == 0xa0
    ||| u == 0x1680
    ||| 0x2000 <= u <= 0x200a
    ||| u == 0x2028
    ||| u == 0x2029
    ||| u == 0x202f
    ||| u == 0x205f
    ||| u == 0x3000
}

/// `s` without the white space at its start.
pub open spec fn trim_start(s: Seq<char>) -> Seq<char>
    decreases s.len(),
{
    if s.len() > 0 && is_white_space(s[0]) {
        trim_start(s.skip(1))
    } else {
        s
    }
}

/// `s` without the white space at its end.
pub open spec fn trim_end(s: Seq<char>) -> Seq<char>
    decreases s.len(),
{
    if s.len() > 0 && is_white_space(s.last()) {
        trim_end(s.drop_last())
    } else {
        s
    }
}

/// `s` without the white space at both ends.
pub open spec fn trim(s: Seq<char>) -> Seq<char> {
    trim_end(trim_start(s))
}

/// `s` without a leading `0x` or `0X`.
pub open spec fn strip_hex_prefix(s: Seq<char>) -> Seq<char> {
    if s.len() >= 2 && s[0] == '0' && (s[1] == 'x' || s[1] == 'X') {
        s.skip(2)
    } else {
        s
    }
}

/// The value of a hexadecimal digit, in either case.
pub open spec fn hex_value(c: char) -> Option<nat> {
    let u = c as u32;
    if 0x30 <= u <= 0x39 {
        Some((u - 0x30) as nat)
    } else if 0x61 <= u <= 0x66 {
        Some((u - 0x61 + 10) as nat)
    } else if 0x41 <= u <= 0x46 {
        Some((u - 0x41 + 10) as nat)
    } else {
        None
    }
}

/// The number that the hexadecimal digits `s` spell, most significant digit
/// first; `None` where one of them is no digit.
pub open spec fn digits_value(s: Seq<char>) -> Option<nat>
    decreases s.len(),
{
    if s.len() == 0 {
        Some(0)
    } else {
        match (digits_value(s.drop_last()), hex_value(s.last())) {
            (Some(high), Some(low)) => Some(16 * high + low),
            _ => None,
        }
    }
}

/// The number as a `u64`, where there is one and it fits.
pub open spec fn in_u64(v: Option<nat>) -> Option<u64> {
    match v {
        Some(v) => if v <= u64::MAX {
            Some(v as u64)
        } else {
            None
        },
        None => None,
    }
}

/// The number that `s` spells in radix 16 as a `u64`: an optional `+`, then
/// one digit or more and nothing else, and a value that fits.
pub open spec fn radix16(s: Seq<char>) -> Option<u64> {
    let digits = if s.len() > 0 && s[0] == '+' {
        s.skip(1)
    } else {
        s
    };
    if digits.len() == 0 {
        None
    } else {
        in_u64(digits_value(digits))
    }
}

/// The number that a memory map text spells: white space at both ends is
/// passed over, a prefix `0x` or `0X` is optional, the rest is read in
/// radix 16.
pub open spec fn hex_number(s: Seq<char>) -> Option<u64> {
    radix16(strip_hex_prefix(trim(s)))
}

/// Whether `c` is white space.
pub fn white_space(c: char) -> (r: bool)
    ensures
        r == is_white_space(c),
{
    let u: u32 = c as u32;
    (0x09 <= u && u <= 0x0d) || u == 0x20 || u == 0x85 || u == 0xa0 || u == 0x1680 || (0x2000 <= u
        && u <= 0x200a) || u == 0x2028 || u == 0x2029 || u == 0x202f || u == 0x205f || u == 0x3000
}

/// The value of the hexadecimal digit `c`.
pub fn digit_value(c: char) -> (r: Option<u8>)
    ensures
        match r {
            Some(d) => hex_value(c) == Some(d as nat) && d < 16,
            None => hex_value(c) is None,
        },
{
    let u: u32 = c as u32;
    if 0x30 <= u && u <= 0x39 {
        Some((u - 0x30) as u8)
    } else if 0x61 <= u && u <= 0x66 {
        Some((u - 0x61 + 10) as u8)
    } else if 0x41 <= u && u <= 0x46 {
        Some((u - 0x41 + 10) as u8)
    } else {
        None
    }
}

/// Trimming the start of `s` takes away `s[..lo]` where that is white space
/// and `s[lo]` is not.
proof fn lemma_trim_start(s: Seq<char>, lo: int)
    requires
        0 <= lo <= s.len(),
        forall|i: int| 0 <= i < lo ==> is_white_space(s[i]),
        lo < s.len() ==> !is_white_space(s[lo]),
    ensures
        trim_start(s) == s.skip(lo),
    decreases lo,
{
    if lo == 0 {
        assert(s.skip(0) == s);
    } else {
        lemma_trim_start(s.skip(1), lo - 1);
        assert(s.skip(1).skip(lo - 1) == s.skip(lo));
    }
}

/// Trimming the end of `s` takes away `s[hi..]` where that is white space
/// and `s[hi - 1]` is not.
proof fn lemma_trim_end(s: Seq<char>, hi: int)
    requires
        0 <= hi <= s.len(),
        forall|i: int| hi <= i < s.len() ==> is_white_space(s[i]),
        hi > 0 ==> !is_white_space(s[hi - 1]),
    ensures
        trim_end(s) == s.take(hi),
    decreases s.len() - hi,
{
    if hi == s.len() {
        assert(s.take(hi) == s);
    } else {
        lemma_trim_end(s.drop_last(), hi);
        assert(s.drop_last().take(hi) == s.take(hi));
    }
}

/// Digits that spell a number start with digits that spell no more.
proof fn lemma_digits_grow(s: Seq<char>, i: int)
    requires
        0 <= i <= s.len(),
        digits_value(s) is Some,
    ensures
        digits_value(s.take(i)) is Some,
        digits_value(s.take(i))->0 <= digits_value(s)->0,
    decreases s.len() - i,
{
    if i == s.len() {
        assert(s.take(i) == s);
    } else {
        lemma_digits_grow(s.drop_last(), i);
        assert(s.drop_last().take(i) == s.take(i));
    }
}

/// Reads a hexadecimal number as the memory map writes it.
#[verifier::rlimit(50)]
pub fn parse_hex_u64(s: &str) -> (r: Option<u64>)
    ensures
        r == hex_number(s@),
{
    let n: usize = s.unicode_len();
    let mut lo: usize = 0;
    while lo < n && white_space(s.get_char(lo))
        invariant
            lo <= n,
            n == s@.len(),
            forall|i: int| 0 <= i < lo ==> is_white_space(s@[i]),
        decreases n - lo,
    {
        lo += 1;
    }
    let mut hi: usize = n;
    while hi > lo && white_space(s.get_char(hi - 1))
        invariant
            lo <= hi <= n,
            n == s@.len(),
            forall|i: int| hi <= i < n ==> is_white_space(s@[i]),
        decreases hi,
    {
        hi -= 1;
    }
    let ghost body = s@.subrange(lo as int, hi as int);
    proof {
        lemma_trim_start(s@, lo as int);
        let tail = s@.skip(lo as int);
        assert forall|i: int| hi - lo <= i < tail.len() implies is_white_space(tail[i]) by {
            assert(tail[i] == s@[i + lo]);
        }
        if hi > lo {
            assert(tail[hi - lo - 1] == s@[hi - 1]);
        }
        lemma_trim_end(tail, hi - lo);
        assert(tail.take(hi - lo) == body);
        assert(trim(s@) == body);
    }
    let mut at: usize = lo;
    if hi - lo >= 2 && s.get_char(lo) == '0' && (s.get_char(lo + 1) == 'x' || s.get_char(lo + 1)
        == 'X') {
        at = lo + 2;
    }
    let ghost number = s@.subrange(at as int, hi as int);
    proof {
        if at == lo {
            assert(number == body);
        } else {
            assert(body[0] == s@[lo as int] && body[1] == s@[lo + 1]);
            assert(number == body.skip(2));
        }
        assert(number == strip_hex_prefix(body));
    }
    if at < hi && s.get_char(at) == '+' {
        at = at + 1;
    }
    let ghost digits = s@.subrange(at as int, hi as int);
    proof {
        if number.len() > 0 {
            assert(number[0] == s@[hi - number.len()]);
        }
        if digits.len() < number.len() {
            assert(digits == number.skip(1));
        } else {
            assert(digits == number);
        }
    }
    if at == hi {
        return None;
    }
    let mut value: u64 = 0;
    let mut i: usize = at;
    proof {
        assert(digits.take(0) == Seq::<char>::empty());
        assert(hex_number(s@) == in_u64(digits_value(digits)));
    }
    while i < hi
        invariant
            at <= i <= hi <= n,
            n == s@.len(),
            digits == s@.subrange(at as int, hi as int),
            hex_number(s@) == in_u64(digits_value(digits)),
            digits_value(digits.take(i - at)) == Some(value as nat),
        decreases hi - i,
    {
        let ghost next = digits.take(i - at + 1);
        proof {
            assert(next.drop_last() == digits.take(i - at));
            assert(next.last() == s@[i as int]);
        }
        match digit_value(s.get_char(i)) {
            Some(d) => {
                if value > (u64::MAX - d as u64) / 16 {
                    proof {
                        assert(digits_value(next)->0 > u64::MAX);
                        if digits_value(digits) is Some {
                            lemma_digits_grow(digits, i - at + 1);
                        }
                    }
                    return None;
                }
                value = value * 16 + d as u64;
            },
            None => {
                proof {
                    if digits_value(digits) is Some {
                        lemma_digits_grow(digits, i - at + 1);
                    }
                }
                return None;
            },
        }
        i += 1;
    }
    proof {
        assert(digits.take(hi - at) == digits);
    }
    Some(value)
}

} // verus!
