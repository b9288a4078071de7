//! Verified parsing of unsigned numbers from hexadecimal and decimal text.
//!
//! The connection tables encode every numeric field (addresses, ports,
//! connection state) as hexadecimal and the owner id as decimal. These
//! parsers accept digits only — no sign, no radix prefix, no surrounding
//! whitespace — and reject empty tokens, stray characters and values that
//! do not fit the target integer type.

use vstd::prelude::*;

verus! {

/// A hexadecimal digit: `0-9`, `a-f` or `A-F`.
pub open spec fn is_hex_digit(c: char) -> bool {
    ('0' as u32 <= c as u32 && c as u32 <= '9' as u32) || ('a' as u32 <= c as u32 && c as u32
        <= 'f' as u32) || ('A' as u32 <= c as u32 && c as u32 <= 'F' as u32)
}

/// The value of one hexadecimal digit.
pub open spec fn hex_digit_val(c: char) -> nat {
    if '0' as u32 <= c as u32 && c as u32 <= '9' as u32 {
        (c as u32 - '0' as u32) as nat
    } else if 'a' as u32 <= c as u32 && c as u32 <= 'f' as u32 {
        (c as u32 - 'a' as u32 + 10) as nat
    } else if 'A' as u32 <= c as u32 && c as u32 <= 'F' as u32 {
        (c as u32 - 'A' as u32 + 10) as nat
    } else {
        0
    }
}

/// A decimal digit: `0-9`.
pub open spec fn is_dec_digit(c: char) -> bool {
    '0' as u32 <= c as u32 && c as u32 <= '9' as u32
}

/// The value of one decimal digit.
pub open spec fn dec_digit_val(c: char) -> nat {
    if is_dec_digit(c) {
        (c as u32 - '0' as u32) as nat
    } else {
        0
    }
}

/// Every character of `s` is a hexadecimal digit.
pub open spec fn is_hex_seq(s: Seq<char>) -> bool {
    forall|i: int| 0 <= i < s.len() ==> is_hex_digit(#[trigger] s[i])
}

/// Every character of `s` is a decimal digit.
pub open spec fn is_dec_seq(s: Seq<char>) -> bool {
    forall|i: int| 0 <= i < s.len() ==> is_dec_digit(#[trigger] s[i])
}

/// The value of `s` read as a big-endian hexadecimal numeral.
pub open spec fn hex_val(s: Seq<char>) -> nat
    decreases s.len(),
{
    if s.len() == 0 {
        0
    } else {
        16 * hex_val(s.drop_last()) + hex_digit_val(s.last())
    }
}

/// The value of `s` read as a big-endian decimal numeral.
pub open spec fn dec_val(s: Seq<char>) -> nat
    decreases s.len(),
{
    if s.len() == 0 {
        0
    } else {
        10 * dec_val(s.drop_last()) + dec_digit_val(s.last())
    }
}

/// `s` is a hexadecimal numeral whose value fits in a `u32`.
pub open spec fn u32_hex_ok(s: Seq<char>) -> bool {
    s.len() > 0 && is_hex_seq(s) && hex_val(s) <= u32::MAX
}

/// `s` is a decimal numeral whose value fits in a `u32`.
pub open spec fn u32_dec_ok(s: Seq<char>) -> bool {
    s.len() > 0 && is_dec_seq(s) && dec_val(s) <= u32::MAX
}

/// `s` is a hexadecimal numeral whose value fits in an `i32`.
pub open spec fn i32_hex_ok(s: Seq<char>) -> bool {
    s.len() > 0 && is_hex_seq(s) && hex_val(s) <= i32::MAX
}

/// `s` is a decimal numeral whose value fits in an `i32`.
pub open spec fn i32_dec_ok(s: Seq<char>) -> bool {
    s.len() > 0 && is_dec_seq(s) && dec_val(s) <= i32::MAX
}

/// A longer hexadecimal numeral is worth at least as much as any prefix.
proof fn lemma_hex_val_take_monotone(s: Seq<char>, i: int, j: int)
    requires
        0 <= i <= j <= s.len(),
    ensures
        hex_val(s.take(j)) >= hex_val(s.take(i)),
    decreases j - i,
{
    if i < j {
        lemma_hex_val_take_monotone(s, i, j - 1);
        assert(s.take(j).drop_last() =~= s.take(j - 1));
    }
}

/// A longer decimal numeral is worth at least as much as any prefix.
proof fn lemma_dec_val_take_monotone(s: Seq<char>, i: int, j: int)
    requires
        0 <= i <= j <= s.len(),
    ensures
        dec_val(s.take(j)) >= dec_val(s.take(i)),
    decreases j - i,
{
    if i < j {
        lemma_dec_val_take_monotone(s, i, j - 1);
        assert(s.take(j).drop_last() =~= s.take(j - 1));
    }
}

/// The value of one hexadecimal digit character, or `None` if `c` is no
/// such digit.
pub fn hex_digit_value(c: char) -> (r: Option<u32>)
    ensures
        match r {
            Some(v) => is_hex_digit(c) && v == hex_digit_val(c) && v < 16,
            None => !is_hex_digit(c),
        },
{
    let u = c as u32;
    if 48 <= u && u <= 57 {
        Some(u - 48)
    } else if 97 <= u && u <= 102 {
        Some(u - 87)
    } else if 65 <= u && u <= 70 {
        Some(u - 55)
    } else {
        None
    }
}

/// The value of one decimal digit character, or `None` if `c` is no such
/// digit.
pub fn dec_digit_value(c: char) -> (r: Option<u32>)
    ensures
        match r {
            Some(v) => is_dec_digit(c) && v == dec_digit_val(c) && v < 10,
            None => !is_dec_digit(c),
        },
{
    let u = c as u32;
    if 48 <= u && u <= 57 {
        Some(u - 48)
    } else {
        None
    }
}

/// Parses `s` as an unsigned hexadecimal numeral. Returns the value exactly
/// when `s` is nonempty, all hexadecimal digits, and worth at most
/// `u32::MAX`.
pub fn parse_u32_hex(s: &str) -> (r: Option<u32>)
    ensures
        match r {
            Some(v) => u32_hex_ok(s@) && v == hex_val(s@),
            None => !u32_hex_ok(s@),
        },
{
    let n = s.unicode_len();
    if n == 0 {
        return None;
    }
    let mut val: u32 = 0;
    let mut i: usize = 0;
    while i < n
        invariant
            i <= n,
            n == s@.len(),
            is_hex_seq(s@.take(i as int)),
            val == hex_val(s@.take(i as int)),
        decreases n - i,
    {
        let c = s.get_char(i);
        proof {
            assert(s@.take(i as int + 1).drop_last() =~= s@.take(i as int));
            assert(s@.take(i as int + 1).last() == s@[i as int]);
        }
        match hex_digit_value(c) {
            None => {
                return None;
            },
            Some(d) => {
                if val > 0x0FFF_FFFF {
                    proof {
                        assert(hex_val(s@.take(i as int + 1)) > u32::MAX);
                        lemma_hex_val_take_monotone(s@, i as int + 1, n as int);
                        assert(s@.take(n as int) =~= s@);
                    }
                    return None;
                }
                val = val * 16 + d;
                i = i + 1;
            },
        }
    }
    proof {
        assert(s@.take(n as int) =~= s@);
    }
    Some(val)
}

/// Parses `s` as an unsigned decimal numeral. Returns the value exactly
/// when `s` is nonempty, all decimal digits, and worth at most `u32::MAX`.
pub fn parse_u32_dec(s: &str) -> (r: Option<u32>)
    ensures
        match r {
            Some(v) => u32_dec_ok(s@) && v == dec_val(s@),
            None => !u32_dec_ok(s@),
        },
{
    let n = s.unicode_len();
    if n == 0 {
        return None;
    }
    let mut val: u32 = 0;
    let mut i: usize = 0;
    while i < n
        invariant
            i <= n,
            n == s@.len(),
            is_dec_seq(s@.take(i as int)),
            val == dec_val(s@.take(i as int)),
        decreases n - i,
    {
        let c = s.get_char(i);
        proof {
            assert(s@.take(i as int + 1).drop_last() =~= s@.take(i as int));
            assert(s@.take(i as int + 1).last() == s@[i as int]);
        }
        match dec_digit_value(c) {
            None => {
                return None;
            },
            Some(d) => {
                if val > 429496729 || (val == 429496729 && d > 5) {
                    proof {
                        assert(dec_val(s@.take(i as int + 1)) > u32::MAX);
                        lemma_dec_val_take_monotone(s@, i as int + 1, n as int);
                        assert(s@.take(n as int) =~= s@);
                    }
                    return None;
                }
                val = val * 10 + d;
                i = i + 1;
            },
        }
    }
    proof {
        assert(s@.take(n as int) =~= s@);
    }
    Some(val)
}

/// Parses `s` as a hexadecimal numeral that must fit in an `i32` (the
/// kernel emits its state codes as nonnegative hexadecimal).
pub fn parse_i32_hex(s: &str) -> (r: Option<i32>)
    ensures
        match r {
            Some(v) => i32_hex_ok(s@) && v == hex_val(s@),
            None => !i32_hex_ok(s@),
        },
{
    match parse_u32_hex(s) {
        None => None,
        Some(v) => {
            if v <= 0x7FFF_FFFF {
                Some(v as i32)
            } else {
                None
            }
        },
    }
}

/// Parses `s` as a decimal numeral that must fit in an `i32` (the kernel
/// emits owner ids as nonnegative decimal).
pub fn parse_i32_dec(s: &str) -> (r: Option<i32>)
    ensures
        match r {
            Some(v) => i32_dec_ok(s@) && v == dec_val(s@),
            None => !i32_dec_ok(s@),
        },
{
    match parse_u32_dec(s) {
        None => None,
        Some(v) => {
            if v <= 0x7FFF_FFFF {
                Some(v as i32)
            } else {
                None
            }
        },
    }
}

} // verus!
