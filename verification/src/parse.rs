//! Number and boolean syntax of query parameters, as `str::parse` reads it.
use vstd::prelude::*;

use crate::text::chars_of;

verus! {

/// `c` is an ASCII decimal digit.
pub open spec fn is_digit(c: char) -> bool {
    48 <= c as u32 && c as u32 <= 57
}

/// The value of a decimal digit.
pub open spec fn digit_value(c: char) -> int {
    c as u32 - 48
}

/// Every character of `d` is a decimal digit.
pub open spec fn all_digits(d: Seq<char>) -> bool {
    forall|i: int| 0 <= i < d.len() ==> is_digit(#[trigger] d[i])
}

/// The number that the decimal digits `d` write.
pub open spec fn digits_value(d: Seq<char>) -> int
    decreases d.len(),
{
    if d.len() == 0 {
        0
    } else {
        10 * digits_value(d.drop_last()) + digit_value(d.last())
    }
}

/// The number that `s` writes as an optional `+` or `-` followed by at least
/// one decimal digit, if it does.
pub open spec fn signed_value(s: Seq<char>) -> Option<int> {
    if s.len() == 0 {
        None
    } else {
        let d = if s[0] == '-' || s[0] == '+' {
            s.drop_first()
        } else {
            s
        };
        if d.len() > 0 && all_digits(d) {
            Some(
                if s[0] == '-' {
                    -digits_value(d)
                } else {
                    digits_value(d)
                },
            )
        } else {
            None
        }
    }
}

/// The number that `s` writes as an optional `+` followed by at least one
/// decimal digit, if it does.
pub open spec fn unsigned_value(s: Seq<char>) -> Option<int> {
    let d = if s.len() > 0 && s[0] == '+' {
        s.drop_first()
    } else {
        s
    };
    if d.len() > 0 && all_digits(d) {
        Some(digits_value(d))
    } else {
        None
    }
}

/// What `s.parse::<i64>()` gives, `None` standing for its error.
pub open spec fn i64_of(s: Seq<char>) -> Option<i64> {
    match signed_value(s) {
        Some(v) => if i64::MIN <= v <= i64::MAX {
            Some(v as i64)
        } else {
            None
        },
        None => None,
    }
}

/// What `s.parse::<u64>()` gives, `None` standing for its error.
pub open spec fn u64_of(s: Seq<char>) -> Option<u64> {
    match unsigned_value(s) {
        Some(v) => if v <= u64::MAX {
            Some(v as u64)
        } else {
            None
        },
        None => None,
    }
}

/// What `s.parse::<bool>()` gives, `None` standing for its error.
pub open spec fn bool_of(s: Seq<char>) -> Option<bool> {
    if s == seq!['t', 'r', 'u', 'e'] {
        Some(true)
    } else if s == seq!['f', 'a', 'l', 's', 'e'] {
        Some(false)
    } else {
        None
    }
}

/// The value of digits is never negative.
pub proof fn lemma_digits_value_nonneg(d: Seq<char>)
    requires
        all_digits(d),
    ensures
        digits_value(d) >= 0,
    decreases d.len(),
{
    if d.len() > 0 {
        assert(is_digit(d[d.len() - 1]));
        lemma_digits_value_nonneg(d.drop_last());
    }
}

/// The value of the decimal digits `v[start..]`, if they are all digits and
/// that value fits in a `u64`; `Err(true)` when a character is no digit,
/// `Err(false)` when all are digits but the value is too large.
fn digits_u64(v: &Vec<char>, start: usize) -> (r: Result<u64, bool>)
    requires
        start <= v.len(),
    ensures
        match r {
            Ok(x) => all_digits(v@.subrange(start as int, v.len() as int)) && x == digits_value(
                v@.subrange(start as int, v.len() as int),
            ),
            Err(non_digit) => if non_digit {
                !all_digits(v@.subrange(start as int, v.len() as int))
            } else {
                all_digits(v@.subrange(start as int, v.len() as int)) && digits_value(
                    v@.subrange(start as int, v.len() as int),
                ) > u64::MAX
            },
        },
{
    let n = v.len();
    let ghost d = v@.subrange(start as int, n as int);
    let mut acc: u64 = 0;
    let mut i = start;
    let mut overflow = false;
    while i < n
        invariant
            n == v@.len(),
            start <= i <= n,
            d == v@.subrange(start as int, n as int),
            all_digits(v@.subrange(start as int, i as int)),
            !overflow ==> acc == digits_value(v@.subrange(start as int, i as int)),
            overflow ==> digits_value(v@.subrange(start as int, i as int)) > u64::MAX,
        decreases n - i,
    {
        let c = v[i];
        let u = c as u32;
        if !(48 <= u && u <= 57) {
            assert(d[i - start] == c);
            assert(!is_digit(d[i - start]));
            return Err(true);
        }
        let ghost pre = v@.subrange(start as int, i as int);
        let ghost next = v@.subrange(start as int, i + 1);
        assert(next.drop_last() == pre);
        assert(next.last() == c);
        assert(all_digits(next));
        proof {
            lemma_digits_value_nonneg(pre);
        }
        if !overflow {
            let dv = (u - 48) as u64;
            match acc.checked_mul(10) {
                Some(t) => match t.checked_add(dv) {
                    Some(u) => {
                        acc = u;
                    },
                    None => {
                        overflow = true;
                    },
                },
                None => {
                    overflow = true;
                },
            }
        }
        i = i + 1;
    }
    if overflow {
        Err(false)
    } else {
        Ok(acc)
    }
}

/// `s.parse::<i64>()`, `None` standing for its error.
pub fn parse_i64(s: &str) -> (r: Option<i64>)
    ensures
        r == i64_of(s@),
{
    let v = chars_of(s);
    let n = v.len();
    if n == 0 {
        return None;
    }
    let neg = v[0] == '-';
    let start: usize = if v[0] == '-' || v[0] == '+' {
        1
    } else {
        0
    };
    if start == n {
        return None;
    }
    proof {
        assert(v@.subrange(start as int, n as int) == (if start == 1 {
            v@.drop_first()
        } else {
            v@
        }));
    }
    match digits_u64(&v, start) {
        Ok(x) => {
            if neg {
                if x <= 9223372036854775808u64 {
                    if x == 9223372036854775808u64 {
                        Some(i64::MIN)
                    } else {
                        Some(-(x as i64))
                    }
                } else {
                    None
                }
            } else if x <= 9223372036854775807u64 {
                Some(x as i64)
            } else {
                None
            }
        },
        Err(_) => None,
    }
}

/// `s.parse::<u64>()`, `None` standing for its error.
pub fn parse_u64(s: &str) -> (r: Option<u64>)
    ensures
        r == u64_of(s@),
{
    let v = chars_of(s);
    let n = v.len();
    let start: usize = if n > 0 && v[0] == '+' {
        1
    } else {
        0
    };
    if start == n {
        return None;
    }
    proof {
        assert(v@.subrange(start as int, n as int) == (if start == 1 {
            v@.drop_first()
        } else {
            v@
        }));
    }
    match digits_u64(&v, start) {
        Ok(x) => Some(x),
        Err(_) => None,
    }
}

/// `s.parse::<bool>()`, `None` standing for its error.
pub fn parse_bool(s: &str) -> (r: Option<bool>)
    ensures
        r == bool_of(s@),
{
    let v = chars_of(s);
    if v.len() == 4 && v[0] == 't' && v[1] == 'r' && v[2] == 'u' && v[3] == 'e' {
        assert(v@ == seq!['t', 'r', 'u', 'e']);
        Some(true)
    } else if v.len() == 5 && v[0] == 'f' && v[1] == 'a' && v[2] == 'l' && v[3] == 's' && v[4]
        == 'e' {
        assert(v@ == seq!['f', 'a', 'l', 's', 'e']);
        Some(false)
    } else {
        None
    }
}

} // verus!
