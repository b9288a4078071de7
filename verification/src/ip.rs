//! The address codec.
//!
//! The kernel prints each 4-byte word of an address as the word's raw
//! memory bytes, most significant hex digit first. On a little-endian host
//! that leaves the human-readable byte order reversed, so decoding a token
//! means parsing it as hexadecimal and swapping the bytes within each
//! 32-bit word — once for an IPv4 address, four times for an IPv6 one.

use vstd::prelude::*;

use crate::radix::{
    dec_val, hex_digit_val, hex_val, is_dec_seq, is_hex_digit, is_hex_seq, parse_u32_dec,
    parse_u32_hex,
};
use crate::util::{split_char, split_spec};

verus! {

/// Why an address token was rejected: it was not a numeral of the expected
/// radix (`ParseInt`), or it had the wrong shape — wrong length, or wrong
/// number of fields (`Format`).
#[derive(Clone, Copy, Debug, PartialEq, Eq, Structural)]
pub enum IpError {
    ParseInt,
    Format,
}

/// A decoded network address, in canonical (network) byte order: a 32-bit
/// IPv4 value, or four 32-bit IPv6 words.
#[derive(Clone, Copy, Debug, PartialEq, Eq, Structural)]
pub enum Address {
    V4(u32),
    V6(u32, u32, u32, u32),
}

/// The byte swap that undoes the kernel's little-endian word encoding:
/// output byte 0 is input byte 3, byte 1 is byte 2, and so on.
pub open spec fn swap32(x: u32) -> u32 {
    ((x << 24) & 0xFF00_0000) | ((x << 8) & 0x00FF_0000) | ((x >> 8) & 0x0000_FF00) | ((x >> 24)
        & 0x0000_00FF)
}

/// `s` is a well-formed IPv4 token: exactly 8 hexadecimal digits.
pub open spec fn v4_token_ok(s: Seq<char>) -> bool {
    s.len() == 8 && is_hex_seq(s)
}

/// `s` is a well-formed IPv6 token: exactly 32 hexadecimal digits.
pub open spec fn v6_token_ok(s: Seq<char>) -> bool {
    s.len() == 32 && is_hex_seq(s)
}

/// The address denoted by a well-formed IPv4 token: its value as
/// hexadecimal, with the byte order reversed.
pub open spec fn v4_of_token(s: Seq<char>) -> Address {
    Address::V4(swap32(hex_val(s) as u32))
}

/// Word `k` of the address denoted by a well-formed IPv6 token: the `k`-th
/// 8-digit quartet as hexadecimal, with the byte order reversed within the
/// word.
pub open spec fn v6_word_of_token(s: Seq<char>, k: int) -> u32 {
    swap32(hex_val(s.subrange(8 * k, 8 * k + 8)) as u32)
}

/// The address denoted by a well-formed IPv6 token.
pub open spec fn v6_of_token(s: Seq<char>) -> Address {
    Address::V6(
        v6_word_of_token(s, 0),
        v6_word_of_token(s, 1),
        v6_word_of_token(s, 2),
        v6_word_of_token(s, 3),
    )
}

/// What decoding an IPv4 token yields: the address for a well-formed
/// token, `Format` for a wrong length, `ParseInt` for a stray character.
pub open spec fn v4_addr_spec(s: Seq<char>) -> Result<Address, IpError> {
    if s.len() != 8 {
        Err(IpError::Format)
    } else if !is_hex_seq(s) {
        Err(IpError::ParseInt)
    } else {
        Ok(v4_of_token(s))
    }
}

/// What decoding an IPv6 token yields.
pub open spec fn v6_addr_spec(s: Seq<char>) -> Result<Address, IpError> {
    if s.len() != 32 {
        Err(IpError::Format)
    } else if !is_hex_seq(s) {
        Err(IpError::ParseInt)
    } else {
        Ok(v6_of_token(s))
    }
}

/// 16 to the power `n`.
pub open spec fn pow16(n: nat) -> nat
    decreases n,
{
    if n == 0 {
        1
    } else {
        16 * pow16((n - 1) as nat)
    }
}

/// A hexadecimal numeral of `n` digits is worth less than 16^n.
proof fn lemma_hex_val_bound(s: Seq<char>)
    ensures
        hex_val(s) < pow16(s.len()),
    decreases s.len(),
{
    if s.len() > 0 {
        lemma_hex_val_bound(s.drop_last());
    }
}

/// 16 to a smaller power is no larger.
proof fn lemma_pow16_le(m: nat, n: nat)
    requires
        m <= n,
    ensures
        pow16(m) <= pow16(n),
    decreases n,
{
    if m < n {
        lemma_pow16_le(m, (n - 1) as nat);
    }
}

/// An 8-digit hexadecimal numeral fits in a `u32`.
proof fn lemma_hex_val_u32(s: Seq<char>)
    requires
        s.len() <= 8,
    ensures
        hex_val(s) <= u32::MAX,
{
    lemma_hex_val_bound(s);
    lemma_pow16_le(s.len(), 8);
    assert(pow16(8) == 0x1_0000_0000) by {
        reveal_with_fuel(pow16, 9);
    }
}

/// Swaps the byte order within a 32-bit word.
pub fn swap_bytes_u32(x: u32) -> (r: u32)
    ensures
        r == swap32(x),
{
    ((x << 24u32) & 0xFF00_0000) | ((x << 8u32) & 0x00FF_0000) | ((x >> 8u32) & 0x0000_FF00) | ((x
        >> 24u32) & 0x0000_00FF)
}

/// Decodes an IPv4 address token from a connection table: 8 hexadecimal
/// digits whose byte order is reversed. For example, `"010000FF"` decodes
/// to the address value `0xFF000001`.
pub fn proc_str_to_ip4(ip_string: &str) -> (r: Result<Address, IpError>)
    ensures
        r == v4_addr_spec(ip_string@),
{
    let n = ip_string.unicode_len();
    if n != 8 {
        return Err(IpError::Format);
    }
    match parse_u32_hex(ip_string) {
        None => {
            proof {
                lemma_hex_val_u32(ip_string@);
            }
            Err(IpError::ParseInt)
        },
        Some(v) => Ok(Address::V4(swap_bytes_u32(v))),
    }
}

/// Decodes an IPv6 address token from a connection table: 32 hexadecimal
/// digits holding four little-endian 32-bit words; the byte order is
/// reversed within each word.
pub fn proc_str_to_ip6(ip_string: &str) -> (r: Result<Address, IpError>)
    ensures
        r == v6_addr_spec(ip_string@),
{
    let n = ip_string.unicode_len();
    if n != 32 {
        return Err(IpError::Format);
    }
    let mut words: [u32; 4] = [0, 0, 0, 0];
    let mut k: usize = 0;
    while k < 4
        invariant
            k <= 4,
            ip_string@.len() == 32,
            forall|j: int|
                0 <= j < k ==> is_hex_seq(
                    #[trigger] ip_string@.subrange(8 * j, 8 * j + 8),
                ),
            forall|j: int| 0 <= j < k ==> words@[j] == v6_word_of_token(ip_string@, j),
        decreases 4 - k,
    {
        let quartet = ip_string.substring_char(8 * k, 8 * k + 8);
        match parse_u32_hex(quartet) {
            None => {
                proof {
                    lemma_hex_val_u32(quartet@);
                    let j = choose|j: int|
                        0 <= j < quartet@.len() && !is_hex_digit(quartet@[j]);
                    assert(!is_hex_digit(ip_string@[8 * k + j]));
                }
                return Err(IpError::ParseInt);
            },
            Some(v) => {
                let w = swap_bytes_u32(v);
                words[k] = w;
                k = k + 1;
            },
        }
    }
    proof {
        assert forall|i: int| 0 <= i < 32 implies is_hex_digit(#[trigger] ip_string@[i]) by {
            let j = i / 8;
            assert(is_hex_seq(ip_string@.subrange(8 * j, 8 * j + 8)));
            assert(ip_string@.subrange(8 * j, 8 * j + 8)[i - 8 * j] == ip_string@[i]);
        }
    }
    Ok(Address::V6(words[0], words[1], words[2], words[3]))
}

/// The uppercase character for one hexadecimal digit value.
pub open spec fn hex_digit_char(d: nat) -> char {
    if d == 0 {
        '0'
    } else if d == 1 {
        '1'
    } else if d == 2 {
        '2'
    } else if d == 3 {
        '3'
    } else if d == 4 {
        '4'
    } else if d == 5 {
        '5'
    } else if d == 6 {
        '6'
    } else if d == 7 {
        '7'
    } else if d == 8 {
        '8'
    } else if d == 9 {
        '9'
    } else if d == 10 {
        'A'
    } else if d == 11 {
        'B'
    } else if d == 12 {
        'C'
    } else if d == 13 {
        'D'
    } else if d == 14 {
        'E'
    } else {
        'F'
    }
}

/// The last `n` hexadecimal digits of `v`, most significant first.
pub open spec fn to_hex_rec(v: nat, n: nat) -> Seq<char>
    decreases n,
{
    if n == 0 {
        Seq::empty()
    } else {
        to_hex_rec(v / 16, (n - 1) as nat).push(hex_digit_char(v % 16))
    }
}

/// The 8-digit uppercase hexadecimal numeral of a 32-bit value.
pub open spec fn to_hex8(v: u32) -> Seq<char> {
    to_hex_rec(v as nat, 8)
}

/// The table token that denotes the IPv4 address `addr`: the byte-swapped
/// value written as 8 uppercase hexadecimal digits.
pub open spec fn encode_ipv4_spec(addr: u32) -> Seq<char> {
    to_hex8(swap32(addr))
}

/// The digit characters round-trip through their values.
proof fn lemma_hex_digit_char_val(d: nat)
    requires
        d < 16,
    ensures
        is_hex_digit(hex_digit_char(d)),
        hex_digit_val(hex_digit_char(d)) == d,
{
}

/// A rendered numeral consists of hexadecimal digits and reads back as the
/// value it was rendered from.
proof fn lemma_to_hex_rec_val(v: nat, n: nat)
    requires
        v < pow16(n),
    ensures
        to_hex_rec(v, n).len() == n,
        is_hex_seq(to_hex_rec(v, n)),
        hex_val(to_hex_rec(v, n)) == v,
    decreases n,
{
    if n > 0 {
        assert(v / 16 < pow16((n - 1) as nat)) by {
            assert(pow16(n) == 16 * pow16((n - 1) as nat));
        }
        lemma_to_hex_rec_val(v / 16, (n - 1) as nat);
        lemma_hex_digit_char_val(v % 16);
        let t = to_hex_rec(v, n);
        assert(t.drop_last() =~= to_hex_rec(v / 16, (n - 1) as nat));
        assert forall|i: int| 0 <= i < t.len() implies is_hex_digit(#[trigger] t[i]) by {
            if i < n - 1 {
                assert(t[i] == t.drop_last()[i]);
            }
        }
        assert(hex_val(t) == 16 * (v / 16) + v % 16);
    }
}

/// The byte swap is its own inverse.
pub proof fn lemma_swap32_involution(x: u32)
    ensures
        swap32(swap32(x)) == x,
{
    assert(swap32(swap32(x)) == x) by (bit_vector);
}

/// The round-trip law of the IPv4 codec: decoding a valid token, encoding
/// the address again, and decoding the encoded token yields the very
/// address the token decoded to.
pub proof fn lemma_ipv4_round_trip(t: Seq<char>)
    requires
        v4_token_ok(t),
    ensures
        v4_addr_spec(t) == Ok::<Address, IpError>(v4_of_token(t)),
        v4_addr_spec(encode_ipv4_spec(swap32(hex_val(t) as u32))) == v4_addr_spec(t),
{
    lemma_hex_val_u32(t);
    let a = swap32(hex_val(t) as u32);
    let w = swap32(a);
    assert(pow16(8) == 0x1_0000_0000) by {
        reveal_with_fuel(pow16, 9);
    }
    lemma_to_hex_rec_val(w as nat, 8);
    lemma_swap32_involution(hex_val(t) as u32);
    assert(v4_of_token(encode_ipv4_spec(a)) == v4_of_token(t));
}

/// Encodes an IPv4 address value back into the kernel's table form: the
/// byte-swapped value as 8 uppercase hexadecimal digits. Inverse of
/// [`proc_str_to_ip4`].
pub fn encode_ipv4_hex(addr: u32) -> (r: String)
    ensures
        r@ == encode_ipv4_spec(addr),
{
    let x = swap_bytes_u32(addr);
    let mut out = String::new();
    let mut v = x;
    let mut k: usize = 0;
    while k < 8
        invariant
            k <= 8,
            to_hex_rec(x as nat, 8) == to_hex_rec(v as nat, (8 - k) as nat) + out@,
        decreases 8 - k,
    {
        let d = v % 16;
        let piece = hex_digit_str(d);
        proof {
            assert(to_hex_rec(v as nat, (8 - k) as nat) == to_hex_rec(
                (v / 16) as nat,
                (8 - (k + 1)) as nat,
            ).push(hex_digit_char((v % 16) as nat)));
            assert(to_hex_rec((v / 16) as nat, (8 - (k + 1)) as nat).push(
                hex_digit_char(d as nat),
            ) + out@ =~= to_hex_rec((v / 16) as nat, (8 - (k + 1)) as nat) + (seq![
                hex_digit_char(d as nat),
            ] + out@));
        }
        out = piece.to_owned().concat(out.as_str());
        v = v / 16;
        k = k + 1;
    }
    proof {
        assert(to_hex_rec(v as nat, 0) + out@ =~= out@);
    }
    out
}

/// The uppercase character of one hexadecimal digit value, as a string.
fn hex_digit_str(d: u32) -> (r: &'static str)
    requires
        d < 16,
    ensures
        r@ == seq![hex_digit_char(d as nat)],
{
    proof {
        reveal_strlit("0");
        reveal_strlit("1");
        reveal_strlit("2");
        reveal_strlit("3");
        reveal_strlit("4");
        reveal_strlit("5");
        reveal_strlit("6");
        reveal_strlit("7");
        reveal_strlit("8");
        reveal_strlit("9");
        reveal_strlit("A");
        reveal_strlit("B");
        reveal_strlit("C");
        reveal_strlit("D");
        reveal_strlit("E");
        reveal_strlit("F");
    }
    if d == 0 {
        "0"
    } else if d == 1 {
        "1"
    } else if d == 2 {
        "2"
    } else if d == 3 {
        "3"
    } else if d == 4 {
        "4"
    } else if d == 5 {
        "5"
    } else if d == 6 {
        "6"
    } else if d == 7 {
        "7"
    } else if d == 8 {
        "8"
    } else if d == 9 {
        "9"
    } else if d == 10 {
        "A"
    } else if d == 11 {
        "B"
    } else if d == 12 {
        "C"
    } else if d == 13 {
        "D"
    } else if d == 14 {
        "E"
    } else {
        "F"
    }
}

/// `s` is a decimal numeral whose value fits in one byte.
pub open spec fn u8_dec_ok(s: Seq<char>) -> bool {
    s.len() > 0 && is_dec_seq(s) && dec_val(s) <= 255
}

/// What converting a dotted-decimal IPv4 string yields: the name
/// `localhost` or exactly four dot-separated byte values.
pub open spec fn str_to_ip4_spec(s: Seq<char>) -> Result<Address, IpError> {
    if s == "localhost"@ {
        Ok(Address::V4(0x7F00_0001))
    } else {
        let parts = split_spec(s, '.');
        if parts.len() != 4 {
            Err(IpError::Format)
        } else if !(u8_dec_ok(parts[0]) && u8_dec_ok(parts[1]) && u8_dec_ok(parts[2]) && u8_dec_ok(
            parts[3],
        )) {
            Err(IpError::ParseInt)
        } else {
            Ok(
                Address::V4(
                    (dec_val(parts[0]) * 0x100_0000 + dec_val(parts[1]) * 0x1_0000 + dec_val(
                        parts[2],
                    ) * 0x100 + dec_val(parts[3])) as u32,
                ),
            )
        }
    }
}

/// Whether the views of two strings are equal.
fn str_eq(a: &str, b: &str) -> (r: bool)
    ensures
        r == (a@ == b@),
{
    let sa = a.to_owned();
    let sb = b.to_owned();
    sa == sb
}

/// Parses one dotted-decimal byte field.
fn parse_u8_dec(s: &str) -> (r: Option<u32>)
    ensures
        match r {
            Some(v) => u8_dec_ok(s@) && v == dec_val(s@) && v <= 255,
            None => !u8_dec_ok(s@),
        },
{
    match parse_u32_dec(s) {
        None => None,
        Some(v) => {
            if v <= 255 {
                Some(v)
            } else {
                None
            }
        },
    }
}

/// Converts a dotted-decimal IPv4 string such as `"127.0.0.1"` (or the
/// name `"localhost"`) into an address, already in canonical byte order.
pub fn str_to_ip4(ip: &str) -> (r: Result<Address, IpError>)
    ensures
        r == str_to_ip4_spec(ip@),
{
    if str_eq(ip, "localhost") {
        return Ok(Address::V4(0x7F00_0001));
    }
    let parts = split_char(ip, '.');
    if parts.len() != 4 {
        return Err(IpError::Format);
    }
    let p0 = parse_u8_dec(parts[0].as_str());
    let p1 = parse_u8_dec(parts[1].as_str());
    let p2 = parse_u8_dec(parts[2].as_str());
    let p3 = parse_u8_dec(parts[3].as_str());
    match (p0, p1, p2, p3) {
        (Some(a), Some(b), Some(c), Some(d)) => Ok(
            Address::V4(a * 0x100_0000 + b * 0x1_0000 + c * 0x100 + d),
        ),
        _ => Err(IpError::ParseInt),
    }
}

} // verus!
