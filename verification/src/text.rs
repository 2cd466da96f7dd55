//! Small verified utilities over strings and characters: equality of string
//! slices, the whitespace test used by the extraction policy, and integer
//! parsing for numeric HTML attributes.

use vstd::prelude::*;
use vstd::string::StrSliceExecFns;

verus! {

/// Character-by-character equality of two string slices.
pub fn str_eq(a: &str, b: &str) -> (r: bool)
    ensures
        r <==> a@ == b@,
{
    let alen = a.unicode_len();
    let blen = b.unicode_len();
    if alen != blen {
        return false;
    }
    let mut i: usize = 0;
    while i < alen
        invariant
            alen == a@.len(),
            blen == b@.len(),
            alen == blen,
            i <= alen,
            forall|k: int| 0 <= k < i ==> a@[k] == b@[k],
        decreases alen - i,
    {
        if a.get_char(i) != b.get_char(i) {
            return false;
        }
        i += 1;
    }
    proof {
        assert(a@ =~= b@);
    }
    true
}

/// The views of a sequence of strings, as sequences of characters.
pub open spec fn str_views(v: Seq<String>) -> Seq<Seq<char>> {
    v.map_values(|s: String| s@)
}

/// The Unicode white-space characters, the set that `str::trim` removes.
pub open spec fn is_ws_char(c: char) -> bool {
    let u = c as u32;
    u == 32 || (9 <= u && u <= 13) || u == 0x85 || u == 0xA0 || u == 0x1680 || (0x2000 <= u
        && u <= 0x200A) || u == 0x2028 || u == 0x2029 || u == 0x202F || u == 0x205F || u == 0x3000
}

/// Whether `s` holds at least one character that is not white space,
/// i.e. whether trimming `s` leaves it non-empty.
pub open spec fn has_non_ws(s: Seq<char>) -> bool {
    exists|i: int| 0 <= i < s.len() && !is_ws_char(s[i])
}

pub fn is_ws(c: char) -> (r: bool)
    ensures
        r == is_ws_char(c),
{
    let u = c as u32;
    u == 32 || (9 <= u && u <= 13) || u == 0x85 || u == 0xA0 || u == 0x1680 || (0x2000 <= u
        && u <= 0x200A) || u == 0x2028 || u == 0x2029 || u == 0x202F || u == 0x205F || u == 0x3000
}

pub fn contains_non_ws(s: &str) -> (r: bool)
    ensures
        r == has_non_ws(s@),
{
    let n = s.unicode_len();
    let mut i: usize = 0;
    while i < n
        invariant
            n == s@.len(),
            i <= n,
            forall|k: int| 0 <= k < i ==> is_ws_char(s@[k]),
        decreases n - i,
    {
        if !is_ws(s.get_char(i)) {
            return true;
        }
        i += 1;
    }
    false
}

/// Whether a text node with this content is kept as a leaf: inside a
/// preformatted context any non-empty text survives, outside one the text
/// must hold a character that is not white space.
pub open spec fn keep_text(text: Seq<char>, in_pre: bool) -> bool {
    if in_pre {
        text.len() > 0
    } else {
        has_non_ws(text)
    }
}

pub open spec fn is_digit(c: char) -> bool {
    48 <= c as u32 && c as u32 <= 57
}

pub open spec fn all_digits(s: Seq<char>) -> bool {
    forall|i: int| 0 <= i < s.len() ==> is_digit(s[i])
}

/// The integer denoted by a sequence of decimal digits.
pub open spec fn digits_val(s: Seq<char>) -> int
    decreases s.len(),
{
    if s.len() == 0 {
        0
    } else {
        digits_val(s.drop_last()) * 10 + (s.last() as u32 - 48)
    }
}

/// What `str::parse::<i64>` accepts: an optional sign, then one or more
/// decimal digits, denoting a value that fits in an `i64`.
pub open spec fn parse_i64_spec(s: Seq<char>) -> Option<i64> {
    let neg = s.len() > 0 && s[0] == '-';
    let digits = if s.len() > 0 && (s[0] == '+' || s[0] == '-') {
        s.skip(1)
    } else {
        s
    };
    let value = if neg {
        -digits_val(digits)
    } else {
        digits_val(digits)
    };
    if digits.len() > 0 && all_digits(digits) && i64::MIN <= value <= i64::MAX {
        Some(value as i64)
    } else {
        None
    }
}

proof fn lemma_digits_val_bounds(s: Seq<char>)
    requires
        all_digits(s),
    ensures
        digits_val(s) >= 0,
        s.len() > 0 ==> digits_val(s) >= digits_val(s.drop_last()),
    decreases s.len(),
{
    if s.len() > 0 {
        assert(all_digits(s.drop_last())) by {
            assert(forall|i: int|
                0 <= i < s.drop_last().len() ==> s.drop_last()[i] == s[i] && is_digit(s[i]));
        }
        lemma_digits_val_bounds(s.drop_last());
    }
}

proof fn lemma_digits_val_prefix(s: Seq<char>, i: int)
    requires
        all_digits(s),
        0 <= i <= s.len(),
    ensures
        digits_val(s.take(i)) <= digits_val(s),
    decreases s.len() - i,
{
    if i < s.len() {
        assert(s.take(i + 1).drop_last() =~= s.take(i));
        assert(s.take(i + 1).last() == s[i]);
        assert(all_digits(s.take(i))) by {
            assert(forall|k: int| 0 <= k < i ==> s.take(i)[k] == s[k] && is_digit(s[k]));
        }
        lemma_digits_val_bounds(s.take(i));
        assert(digits_val(s.take(i + 1)) == digits_val(s.take(i)) * 10 + (s[i] as u32 - 48));
        assert(digits_val(s.take(i)) * 10 >= digits_val(s.take(i))) by (nonlinear_arith)
            requires
                digits_val(s.take(i)) >= 0,
        ;
        lemma_digits_val_prefix(s, i + 1);
    } else {
        assert(s.take(i) =~= s);
    }
}

/// Parsing of a decimal string exactly as `str::parse::<i64>` does it:
/// an optional leading `+` or `-`, then one or more digits; anything else,
/// or a value outside the range of `i64`, yields `None`.
pub fn parse_i64(s: &str) -> (r: Option<i64>)
    ensures
        r == parse_i64_spec(s@),
{
    let n = s.unicode_len();
    let mut start: usize = 0;
    let mut neg = false;
    if n > 0 {
        let c0 = s.get_char(0);
        if c0 == '+' {
            start = 1;
        } else if c0 == '-' {
            neg = true;
            start = 1;
        }
    }
    let ghost digits: Seq<char> = if start == 1 {
        s@.skip(1)
    } else {
        s@
    };
    if start >= n {
        // no digits at all
        return None;
    }
    let bound: u64 = 9223372036854775808u64;  // 2^63, the magnitude of i64::MIN
    let mut acc: u64 = 0;
    let mut j: usize = start;
    while j < n
        invariant
            n == s@.len(),
            start <= j <= n,
            start <= 1,
            digits == if start == 1 {
                s@.skip(1)
            } else {
                s@
            },
            (start == 1) == (s@.len() > 0 && (s@[0] == '+' || s@[0] == '-')),
            neg == (s@.len() > 0 && s@[0] == '-'),
            digits.len() == n - start,
            bound == 9223372036854775808u64,
            acc <= bound,
            all_digits(digits.take(j - start)),
            acc == digits_val(digits.take(j - start)),
        decreases n - j,
    {
        let c = s.get_char(j);
        let u = c as u32;
        if !(48 <= u && u <= 57) {
            proof {
                assert(digits[j - start] == s@[j as int]);
                assert(!is_digit(digits[j - start]));
            }
            return None;
        }
        let d = (u - 48) as u64;
        proof {
            assert(digits.take(j - start + 1).drop_last() =~= digits.take(j - start));
            assert(digits.take(j - start + 1).last() == digits[j - start] == s@[j as int]);
        }
        if acc > (bound - d) / 10 {
            // the digits already read denote more than 2^63, so the full
            // digit string cannot denote a value of i64 either way
            proof {
                assert(acc * 10 + d > bound) by (nonlinear_arith)
                    requires
                        acc > (bound - d) / 10,
                        d <= bound,
                ;
                let pre = digits.take(j - start + 1);
                assert(forall|k: int| 0 <= k < j - start ==> pre[k] == digits.take(j - start)[k]);
                assert(pre[j - start] == digits[j - start] == s@[j as int]);
                assert(all_digits(pre));
                assert(digits_val(pre) == acc * 10 + d);
                if all_digits(digits) {
                    lemma_digits_val_prefix(digits, j - start + 1);
                    assert(digits_val(digits) > 9223372036854775808);
                }
            }
            return None;
        }
        proof {
            assert(acc * 10 + d <= bound) by (nonlinear_arith)
                requires
                    acc <= (bound - d) / 10,
                    d <= bound,
            ;
        }
        acc = acc * 10 + d;
        j += 1;
    }
    proof {
        assert(digits.take(n - start) =~= digits);
    }
    if neg {
        if acc == bound {
            Some(i64::MIN)
        } else {
            Some(-(acc as i64))
        }
    } else {
        if acc == bound {
            None
        } else {
            Some(acc as i64)
        }
    }
}

} // verus!
