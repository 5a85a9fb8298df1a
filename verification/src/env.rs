//! The configuration knobs read from the environment: token lifetimes
//! and the pending-queue cap. The boundary layer reads the raw
//! variable; here stands the verified parse-with-default step, which
//! accepts exactly what Rust's unsigned decimal parsing accepts (an
//! optional leading plus sign, then digits, value fitting the type).

use vstd::prelude::*;
use vstd::string::*;

verus! {

/// A decimal digit.
pub open spec fn is_ascii_digit_char(c: char) -> bool {
    0x30 <= c as u32 <= 0x39
}

/// The numeric value of a decimal digit.
pub open spec fn digit_val(c: char) -> int {
    c as u32 - 0x30
}

/// Every character is a decimal digit.
pub open spec fn all_digits(s: Seq<char>) -> bool {
    forall|i: int| 0 <= i < s.len() ==> is_ascii_digit_char(#[trigger] s[i])
}

/// The number written by the digit string, most significant first.
pub open spec fn digits_val(s: Seq<char>) -> int
    decreases s.len(),
{
    if s.len() == 0 {
        0
    } else {
        digits_val(s.drop_last()) * 10 + digit_val(s.last())
    }
}

/// A digit string names a non-negative number.
proof fn lemma_digits_val_nonneg(s: Seq<char>)
    requires
        all_digits(s),
    ensures
        digits_val(s) >= 0,
    decreases s.len(),
{
    if s.len() > 0 {
        assert(forall|i: int|
            0 <= i < s.drop_last().len() ==> is_ascii_digit_char(#[trigger] s.drop_last()[i]));
        lemma_digits_val_nonneg(s.drop_last());
    }
}

/// Appending digits never shrinks the number: a prefix names at most
/// the whole string's value.
proof fn lemma_digits_val_prefix_le(s: Seq<char>, k: int)
    requires
        all_digits(s),
        0 <= k <= s.len(),
    ensures
        digits_val(s.take(k)) <= digits_val(s),
    decreases s.len() - k,
{
    if k == s.len() {
        assert(s.take(k) =~= s);
    } else {
        assert(s.take(k + 1).drop_last() =~= s.take(k));
        assert(s.take(k + 1).last() == s[k]);
        assert(forall|i: int|
            0 <= i < s.take(k).len() ==> is_ascii_digit_char(#[trigger] s.take(k)[i]));
        lemma_digits_val_nonneg(s.take(k));
        assert(digits_val(s.take(k + 1)) == digits_val(s.take(k)) * 10 + digit_val(s[k]));
        lemma_digits_val_prefix_le(s, k + 1);
    }
}

/// What Rust's `str::parse::<u64>` answers: an optional leading plus
/// sign, then at least one digit, the value fitting the type.
pub open spec fn spec_parse_u64(s: Seq<char>) -> Option<u64> {
    let body = if s.len() > 0 && s[0] == '+' {
        s.skip(1)
    } else {
        s
    };
    if body.len() > 0 && all_digits(body) && digits_val(body) <= u64::MAX {
        Some(digits_val(body) as u64)
    } else {
        None
    }
}

/// Parses an unsigned decimal number as Rust's standard parsing does.
pub fn parse_u64(s: &str) -> (r: Option<u64>)
    ensures
        r == spec_parse_u64(s@),
{
    let n: usize = s.unicode_len();
    let plus: bool = n > 0 && s.get_char(0) == '+';
    let start: usize = if plus {
        1
    } else {
        0
    };
    let ghost body = if s@.len() > 0 && s@[0] == '+' {
        s@.skip(1)
    } else {
        s@
    };
    if n == start {
        return None;
    }
    let mut acc: u64 = 0;
    let mut i: usize = start;
    proof {
        assert(body.take(0) =~= Seq::<char>::empty());
    }
    while i < n
        invariant
            start <= i <= n,
            n == s@.len(),
            start == if s@.len() > 0 && s@[0] == '+' {
                1int
            } else {
                0int
            },
            body == if s@.len() > 0 && s@[0] == '+' {
                s@.skip(1)
            } else {
                s@
            },
            body.len() == n - start,
            all_digits(body.take(i - start)),
            acc == digits_val(body.take(i - start)),
        decreases n - i,
    {
        let c: char = s.get_char(i);
        let u: u32 = c as u32;
        proof {
            assert(body[i - start] == s@[i as int]);
        }
        if !(48 <= u && u <= 57) {
            proof {
                assert(!is_ascii_digit_char(body[i - start]));
            }
            return None;
        }
        let d: u64 = (u - 48) as u64;
        let limit: u64 = u64::MAX / 10;
        let last_digit: u64 = u64::MAX % 10;
        if acc > limit || (acc == limit && d > last_digit) {
            proof {
                assert(body.take(i - start + 1).drop_last() =~= body.take(i - start));
                assert(body.take(i - start + 1).last() == body[i - start]);
                assert(digits_val(body.take(i - start + 1)) == acc * 10 + d);
                assert(digits_val(body.take(i - start + 1)) > u64::MAX);
                if all_digits(body) {
                    lemma_digits_val_prefix_le(body, i - start + 1);
                }
            }
            return None;
        }
        proof {
            assert(body.take(i - start + 1).drop_last() =~= body.take(i - start));
            assert(body.take(i - start + 1).last() == body[i - start]);
            assert(forall|k: int|
                0 <= k < body.take(i - start + 1).len() ==> is_ascii_digit_char(
                    #[trigger] body.take(i - start + 1)[k],
                ));
            assert(acc * 10 + d <= u64::MAX);
        }
        acc = acc * 10 + d;
        i = i + 1;
    }
    proof {
        assert(body.take(n - start) =~= body);
    }
    Some(acc)
}

/// The raw environment value parsed as a number, or the default when
/// the variable is absent or unreadable.
pub fn get_int_env_with_default(value: Option<&str>, default: u64) -> (r: u64)
    ensures
        r == match value {
            Option::Some(s) => match spec_parse_u64(s@) {
                Option::Some(v) => v,
                Option::None => default,
            },
            Option::None => default,
        },
{
    match value {
        Some(s) => match parse_u64(s) {
            Some(v) => v,
            None => default,
        },
        None => default,
    }
}

/// Lifetime of an access token in seconds; 3600 unless configured.
pub fn get_access_token_expiry_time(raw: Option<&str>) -> (r: u64)
    ensures
        r == match raw {
            Option::Some(s) => match spec_parse_u64(s@) {
                Option::Some(v) => v,
                Option::None => 3600u64,
            },
            Option::None => 3600u64,
        },
{
    get_int_env_with_default(raw, 3600)
}

/// Lifetime of a refresh token in seconds; 43800 unless configured.
pub fn get_refresh_token_expiry_time(raw: Option<&str>) -> (r: u64)
    ensures
        r == match raw {
            Option::Some(s) => match spec_parse_u64(s@) {
                Option::Some(v) => v,
                Option::None => 43800u64,
            },
            Option::None => 43800u64,
        },
{
    get_int_env_with_default(raw, 43800)
}

/// Cap on a user's pending sentences; 250 unless configured.
pub fn get_maximum_pending_sentences(raw: Option<&str>) -> (r: u64)
    ensures
        r == match raw {
            Option::Some(s) => match spec_parse_u64(s@) {
                Option::Some(v) => v,
                Option::None => 250u64,
            },
            Option::None => 250u64,
        },
{
    get_int_env_with_default(raw, 250)
}

} // verus!
