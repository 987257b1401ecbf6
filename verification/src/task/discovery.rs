//! How far the fighters go: the highest fighter is found by walking an
//! index of minted tokens from the highest fighter already known.

use vstd::prelude::*;
use vstd::string::*;

verus! {

/// The fighter from which the walk begins where none is stored.
pub const BASELINE: u64 = 29000;

/// What a page of the index tells.
#[derive(Clone, Copy, Debug, PartialEq, Eq, Structural)]
pub enum Discovered {
    /// The index goes on: ask again from this token.
    More(u64),
    /// The index ends: fighters exist below this number.
    HighWater(u64),
}

/// A cursor of the index that is no number.
#[derive(Clone, Copy, Debug, PartialEq, Eq, Structural)]
pub struct InvalidCursor;

/// The value of a hexadecimal digit, in either case.
pub open spec fn hex_digit(c: char) -> Option<int> {
    let n = c as int;
    if 48 <= n <= 57 {
        Some(n - 48)
    } else if 97 <= n <= 102 {
        Some(n - 87)
    } else if 65 <= n <= 70 {
        Some(n - 55)
    } else {
        None
    }
}

/// Every character is a hexadecimal digit.
pub open spec fn all_hex(s: Seq<char>) -> bool {
    forall|i: int| 0 <= i < s.len() ==> (#[trigger] hex_digit(s[i])).is_some()
}

/// The number that hexadecimal digits write, most significant first.
pub open spec fn hex_value(s: Seq<char>) -> int
    decreases s.len(),
{
    if s.len() == 0 {
        0
    } else {
        hex_value(s.drop_last()) * 16 + hex_digit(s.last()).unwrap()
    }
}

/// The text begins with `0x`.
pub open spec fn has_prefix(s: Seq<char>) -> bool {
    s.len() >= 2 && s[0] == '0' && s[1] == 'x'
}

/// The text without the `0x` that it begins with, however often that is
/// repeated.
pub open spec fn strip_prefixes(s: Seq<char>) -> Seq<char>
    decreases s.len(),
{
    if has_prefix(s) {
        strip_prefixes(s.skip(2))
    } else {
        s
    }
}

/// The digits of a cursor: what follows the prefixes and one plus sign, if
/// the sign is not all that follows.
pub open spec fn cursor_digits(s: Seq<char>) -> Seq<char> {
    let t = strip_prefixes(s);
    if t.len() > 1 && t[0] == '+' {
        t.skip(1)
    } else {
        t
    }
}

/// The token that a cursor names: its digits read as a hexadecimal number,
/// if there is at least one, all are digits, and the number fits in 64
/// bits.
pub open spec fn spec_parse_cursor(s: Seq<char>) -> Option<u64> {
    let digits = cursor_digits(s);
    if digits.len() > 0 && all_hex(digits) && hex_value(digits) <= u64::MAX {
        Some(hex_value(digits) as u64)
    } else {
        None
    }
}

/// The fighter from which the walk begins: the highest one stored, or the
/// baseline.
pub fn first_token(stored_max: Option<i64>) -> (token: u64)
    ensures
        token == match stored_max {
            Some(id) => id as u64,
            None => BASELINE,
        },
{
    match stored_max {
        Some(id) => #[verifier::truncate]
        (id as u64),
        None => BASELINE,
    }
}

proof fn lemma_hex_value_bounds(s: Seq<char>)
    requires
        all_hex(s),
    ensures
        0 <= hex_value(s),
    decreases s.len(),
{
    if s.len() > 0 {
        assert(all_hex(s.drop_last())) by {
            assert forall|i: int| 0 <= i < s.drop_last().len() implies (#[trigger] hex_digit(
                s.drop_last()[i],
            )).is_some() by {
                assert(s.drop_last()[i] == s[i]);
            }
        }
        lemma_hex_value_bounds(s.drop_last());
        assert(hex_digit(s.last()).is_some());
    }
}

/// Digits that follow a number too large for 64 bits do not make it
/// smaller.
proof fn lemma_hex_value_grows(s: Seq<char>, k: int)
    requires
        all_hex(s),
        0 <= k <= s.len(),
    ensures
        hex_value(s.take(k)) <= hex_value(s),
    decreases s.len() - k,
{
    if k < s.len() {
        lemma_hex_value_grows(s, k + 1);
        assert(s.take(k + 1).drop_last() =~= s.take(k));
        assert(s.take(k + 1).last() == s[k]);
        assert(hex_digit(s[k]).is_some());
        assert(all_hex(s.take(k))) by {
            assert forall|i: int| 0 <= i < s.take(k).len() implies (#[trigger] hex_digit(
                s.take(k)[i],
            )).is_some() by {
                assert(s.take(k)[i] == s[i]);
            }
        }
        lemma_hex_value_bounds(s.take(k));
    } else {
        assert(s.take(k) =~= s);
    }
}

/// The value of a hexadecimal digit, in either case.
fn digit_of(c: char) -> (digit: Option<u64>)
    ensures
        digit.is_some() == hex_digit(c).is_some(),
        digit.is_some() ==> digit.unwrap() == hex_digit(c).unwrap() && digit.unwrap() < 16,
{
    let n = c as u32;
    if 48 <= n && n <= 57 {
        Some((n - 48) as u64)
    } else if 97 <= n && n <= 102 {
        Some((n - 87) as u64)
    } else if 65 <= n && n <= 70 {
        Some((n - 55) as u64)
    } else {
        None
    }
}

/// The characters of a text.
fn chars_of(text: &str) -> (chars: Vec<char>)
    ensures
        chars@ == text@,
{
    broadcast use axiom_spec_iter;

    let mut chars: Vec<char> = Vec::new();
    for c in it: text.chars()
        invariant
            it.seq() == text@,
            chars@ == text@.take(it.index()),
    {
        chars.push(c);
        assert(text@.take(it.index() + 1) =~= text@.take(it.index()).push(c));
    }
    assert(text@.take(text@.len() as int) =~= text@);
    chars
}

/// The token that a cursor of the index names.
pub fn parse_cursor(cursor: &str) -> (token: Result<u64, InvalidCursor>)
    ensures
        token.is_ok() <==> spec_parse_cursor(cursor@).is_some(),
        token.is_ok() ==> token.unwrap() == spec_parse_cursor(cursor@).unwrap(),
{
    let ghost s = cursor@;
    let chars = chars_of(cursor);
    let len = chars.len();
    // Past the prefixes.
    let mut at: usize = 0;
    assert(s.skip(0) =~= s);
    while len - at >= 2 && chars[at] == '0' && chars[at + 1] == 'x'
        invariant
            at <= len,
            len == s.len(),
            s == chars@,
            s == cursor@,
            strip_prefixes(s) == strip_prefixes(s.skip(at as int)),
        decreases len - at,
    {
        proof {
            assert(has_prefix(s.skip(at as int)));
            assert(s.skip(at as int).skip(2) =~= s.skip(at + 2));
        }
        at += 2;
    }
    proof {
        assert(!has_prefix(s.skip(at as int)));
        assert(strip_prefixes(s) == s.skip(at as int));
    }
    // Past the sign.
    if len - at > 1 && chars[at] == '+' {
        proof {
            assert(s.skip(at as int).skip(1) =~= s.skip(at + 1));
        }
        at += 1;
    }
    let ghost digits = s.skip(at as int);
    assert(digits == cursor_digits(s));
    if at == len {
        return Err(InvalidCursor);
    }
    let mut value: u64 = 0;
    let mut i: usize = at;
    while i < len
        invariant
            at <= i <= len,
            len == s.len(),
            s == chars@,
            s == cursor@,
            digits == s.skip(at as int),
            digits == cursor_digits(s),
            all_hex(digits.take(i - at)),
            value == hex_value(digits.take(i - at)),
        decreases len - i,
    {
        let c = chars[i];
        let digit: u64 = match digit_of(c) {
            Some(digit) => digit,
            None => {
                proof {
                    assert(digits[i - at] == c);
                    assert(!all_hex(digits));
                }
                return Err(InvalidCursor);
            },
        };
        proof {
            assert(digits[i - at] == c);
            assert(hex_digit(c) == Some(digit as int));
            assert(digits.take(i - at + 1).drop_last() =~= digits.take(i - at));
            assert(digits.take(i - at + 1).last() == c);
            assert(all_hex(digits.take(i - at + 1))) by {
                assert forall|j: int| 0 <= j < i - at + 1 implies (#[trigger] hex_digit(
                    digits.take(i - at + 1)[j],
                )).is_some() by {
                    if j < i - at {
                        assert(digits.take(i - at + 1)[j] == digits.take(i - at)[j]);
                    }
                }
            }
        }
        if value > (u64::MAX - digit) / 16 {
            proof {
                assert(hex_value(digits.take(i - at + 1)) == value * 16 + digit);
                assert(value * 16 + digit > u64::MAX);
                if all_hex(digits) {
                    lemma_hex_value_grows(digits, i - at + 1);
                }
            }
            return Err(InvalidCursor);
        }
        value = value * 16 + digit;
        i += 1;
    }
    proof {
        assert(digits.take(len - at) =~= digits);
    }
    Ok(value)
}

/// What a page of the index tells, the walk having come to `last_highest`.
/// A page with a cursor sends the walk on to the token that the cursor
/// names. A page without one ends it: the fighters go up to `last_highest`
/// and the `count` tokens of that page.
pub fn discover(last_highest: u64, count: usize, next_token: Option<&str>) -> (found: Result<
    Discovered,
    InvalidCursor,
>)
    requires
        next_token.is_none() ==> last_highest + count <= u64::MAX,
    ensures
        match next_token {
            Some(cursor) => match spec_parse_cursor(cursor@) {
                Some(token) => found == Ok::<Discovered, InvalidCursor>(Discovered::More(token)),
                None => found.is_err(),
            },
            None => found == Ok::<Discovered, InvalidCursor>(
                Discovered::HighWater((last_highest + count) as u64),
            ),
        },
{
    match next_token {
        Some(cursor) => match parse_cursor(cursor) {
            Ok(token) => Ok(Discovered::More(token)),
            Err(e) => Err(e),
        },
        None => Ok(Discovered::HighWater(last_highest + count as u64)),
    }
}

} // verus!
