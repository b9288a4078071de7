//! The record decoder and the table parser.
//!
//! A connection table consists of one header line followed by one line per
//! connection. [`parse_table`] skips the header and decodes every data row
//! in order, stopping at the first malformed row; [`decode_row`] turns one
//! tokenized row into an [`Entry`]. Reading the table file itself is left
//! to the caller, who supplies the lines; [`get_path_from_mode`] names the
//! file that holds each mode's table.

use vstd::prelude::*;

use crate::info::{mode_is_v6, Entry, Mode};
use crate::ip::{v4_addr_spec, v6_addr_spec, proc_str_to_ip4, proc_str_to_ip6, Address, IpError};
use crate::radix::{
    dec_val, hex_val, i32_dec_ok, i32_hex_ok, parse_i32_dec, parse_i32_hex, parse_u32_hex,
    u32_hex_ok,
};
use crate::util::{split_and_remove_empty, split_char, split_spec, tokens_spec};

verus! {

/// Why a table failed to parse: a numeric field was not a numeral of the
/// expected radix or did not fit its type (`ParseInt`), the line source
/// could not be read (`Io`, raised only by callers that do the reading),
/// or an address token or the row itself was malformed (`Ip`).
#[derive(Clone, Copy, Debug, PartialEq, Eq, Structural)]
pub enum ParseError {
    ParseInt,
    Io,
    Ip(IpError),
}

/// What decoding an address token yields under `mode`: 8 byte-swapped
/// hexadecimal digits for the IPv4 modes, 32 for the IPv6 modes.
pub open spec fn addr_spec(s: Seq<char>, mode: Mode) -> Result<Address, IpError> {
    if mode_is_v6(mode) {
        v6_addr_spec(s)
    } else {
        v4_addr_spec(s)
    }
}

/// What decoding one tokenized row yields. The row layout is fixed: token
/// 1 is `local_address:port`, token 2 is `remote_address:port`, token 3 is
/// the connection state in hexadecimal, token 7 the owner id in decimal; a
/// row of fewer than 8 tokens is malformed. Ports are plain hexadecimal
/// (no byte swap). The first failing field decides the error, in the order
/// local address, remote address, local port, remote port, owner id,
/// state.
pub open spec fn decode_row_spec(tokens: Seq<Seq<char>>, mode: Mode) -> Result<Entry, ParseError> {
    if tokens.len() < 8 {
        Err(ParseError::Ip(IpError::Format))
    } else {
        let local_parts = split_spec(tokens[1], ':');
        let remote_parts = split_spec(tokens[2], ':');
        match addr_spec(local_parts[0], mode) {
            Err(e) => Err(ParseError::Ip(e)),
            Ok(local_address) => match addr_spec(remote_parts[0], mode) {
                Err(e) => Err(ParseError::Ip(e)),
                Ok(remote_address) => {
                    if local_parts.len() < 2 {
                        Err(ParseError::Ip(IpError::Format))
                    } else if !u32_hex_ok(local_parts[1]) {
                        Err(ParseError::ParseInt)
                    } else if remote_parts.len() < 2 {
                        Err(ParseError::Ip(IpError::Format))
                    } else if !u32_hex_ok(remote_parts[1]) {
                        Err(ParseError::ParseInt)
                    } else if !i32_dec_ok(tokens[7]) {
                        Err(ParseError::ParseInt)
                    } else if !i32_hex_ok(tokens[3]) {
                        Err(ParseError::ParseInt)
                    } else {
                        Ok(
                            Entry {
                                local_address,
                                local_port: hex_val(local_parts[1]) as u32,
                                remote_address,
                                remote_port: hex_val(remote_parts[1]) as u32,
                                connection_state: hex_val(tokens[3]) as i32,
                                uid: dec_val(tokens[7]) as i32,
                                mode,
                            },
                        )
                    }
                },
            },
        }
    }
}

/// A decoded entry is well formed: its addresses carry the variant that
/// its mode calls for, and its mode is the one it was decoded under.
pub proof fn lemma_decode_row_wf(tokens: Seq<Seq<char>>, mode: Mode)
    ensures
        decode_row_spec(tokens, mode) matches Ok(e) ==> e.wf() && e.mode == mode,
{
}

/// What decoding every row in order yields: the entries of all rows when
/// each decodes, otherwise the error of the first row that fails.
pub open spec fn parse_rows_spec(rows: Seq<Seq<char>>, mode: Mode) -> Result<Seq<Entry>, ParseError>
    decreases rows.len(),
{
    if rows.len() == 0 {
        Ok(Seq::empty())
    } else {
        match decode_row_spec(tokens_spec(rows[0]), mode) {
            Err(e) => Err(e),
            Ok(entry) => match parse_rows_spec(rows.skip(1), mode) {
                Err(e) => Err(e),
                Ok(rest) => Ok(seq![entry] + rest),
            },
        }
    }
}

/// What parsing a whole table yields: the first line is the header and is
/// discarded, every following line is one row.
pub open spec fn parse_table_spec(lines: Seq<Seq<char>>, mode: Mode) -> Result<
    Seq<Entry>,
    ParseError,
> {
    if lines.len() == 0 {
        Ok(Seq::empty())
    } else {
        parse_rows_spec(lines.skip(1), mode)
    }
}

/// The entries of the first `i` rows, each of which must decode.
pub open spec fn rows_prefix_entries(rows: Seq<Seq<char>>, mode: Mode, i: int) -> Seq<Entry> {
    Seq::new(i as nat, |j: int| decode_row_spec(tokens_spec(rows[j]), mode)->Ok_0)
}

/// While every row decoded so far, the whole parse is the prefix of
/// entries followed by whatever the remaining rows yield.
proof fn lemma_parse_rows_prefix(rows: Seq<Seq<char>>, mode: Mode, i: int)
    requires
        0 <= i <= rows.len(),
        forall|j: int| 0 <= j < i ==> decode_row_spec(tokens_spec(#[trigger] rows[j]), mode) is Ok,
    ensures
        parse_rows_spec(rows, mode) == match parse_rows_spec(rows.skip(i), mode) {
            Ok(rest) => Ok::<Seq<Entry>, ParseError>(rows_prefix_entries(rows, mode, i) + rest),
            Err(e) => Err::<Seq<Entry>, ParseError>(e),
        },
    decreases i,
{
    if i == 0 {
        assert(rows.skip(0) =~= rows);
        match parse_rows_spec(rows, mode) {
            Ok(rest) => {
                assert(rows_prefix_entries(rows, mode, 0) + rest =~= rest);
            },
            Err(_) => {},
        }
    } else {
        lemma_parse_rows_prefix(rows, mode, i - 1);
        assert(rows.skip(i - 1)[0] == rows[i - 1]);
        assert(rows.skip(i - 1).skip(1) =~= rows.skip(i));
        let entry = decode_row_spec(tokens_spec(rows[i - 1]), mode)->Ok_0;
        match parse_rows_spec(rows.skip(i), mode) {
            Ok(rest) => {
                assert(rows_prefix_entries(rows, mode, i - 1) + (seq![entry] + rest)
                    =~= rows_prefix_entries(rows, mode, i) + rest);
            },
            Err(_) => {},
        }
    }
}

/// A table with any malformed row fails to parse as a whole: no truncated
/// partial result is ever returned.
pub proof fn lemma_parse_table_rejects_bad_row(lines: Seq<Seq<char>>, mode: Mode, i: int)
    requires
        1 <= i < lines.len(),
        decode_row_spec(tokens_spec(lines[i]), mode) is Err,
    ensures
        parse_table_spec(lines, mode) is Err,
{
    lemma_parse_rows_err(lines.skip(1), mode, i - 1);
}

/// Rows after a failing one cannot rescue the parse.
proof fn lemma_parse_rows_err(rows: Seq<Seq<char>>, mode: Mode, i: int)
    requires
        0 <= i < rows.len(),
        decode_row_spec(tokens_spec(rows[i]), mode) is Err,
    ensures
        parse_rows_spec(rows, mode) is Err,
    decreases i,
{
    if i > 0 {
        match decode_row_spec(tokens_spec(rows[0]), mode) {
            Err(_) => {},
            Ok(_) => {
                assert(rows.skip(1)[i - 1] == rows[i]);
                lemma_parse_rows_err(rows.skip(1), mode, i - 1);
            },
        }
    }
}

/// The table file that holds a mode's connection table.
pub fn get_path_from_mode(mode: &Mode) -> (r: String)
    ensures
        *mode == Mode::Tcp ==> r@ == "/proc/net/tcp"@,
        *mode == Mode::Tcp6 ==> r@ == "/proc/net/tcp6"@,
        *mode == Mode::Udp ==> r@ == "/proc/net/udp"@,
        *mode == Mode::Udp6 ==> r@ == "/proc/net/udp6"@,
{
    let path = match *mode {
        Mode::Tcp => "/proc/net/tcp",
        Mode::Tcp6 => "/proc/net/tcp6",
        Mode::Udp => "/proc/net/udp",
        Mode::Udp6 => "/proc/net/udp6",
    };
    path.to_owned()
}

/// Decodes an address token under `mode`.
fn decode_addr(token: &str, mode: &Mode) -> (r: Result<Address, IpError>)
    ensures
        r == addr_spec(token@, *mode),
{
    match *mode {
        Mode::Tcp | Mode::Udp => proc_str_to_ip4(token),
        Mode::Tcp6 | Mode::Udp6 => proc_str_to_ip6(token),
    }
}

/// Decodes one tokenized row into an entry; see [`decode_row_spec`] for
/// the row layout and the error of each malformed field.
pub fn decode_row(tokens: &Vec<String>, mode: Mode) -> (r: Result<Entry, ParseError>)
    ensures
        r == decode_row_spec(tokens.deep_view(), mode),
        r matches Ok(e) ==> e.wf() && e.mode == mode,
{
    proof {
        lemma_decode_row_wf(tokens.deep_view(), mode);
    }
    if tokens.len() < 8 {
        return Err(ParseError::Ip(IpError::Format));
    }
    let local_parts = split_char(tokens[1].as_str(), ':');
    let remote_parts = split_char(tokens[2].as_str(), ':');
    proof {
        crate::util::lemma_split_len(tokens.deep_view()[1], ':');
        crate::util::lemma_split_len(tokens.deep_view()[2], ':');
    }
    let local_address = match decode_addr(local_parts[0].as_str(), &mode) {
        Err(e) => {
            return Err(ParseError::Ip(e));
        },
        Ok(a) => a,
    };
    let remote_address = match decode_addr(remote_parts[0].as_str(), &mode) {
        Err(e) => {
            return Err(ParseError::Ip(e));
        },
        Ok(a) => a,
    };
    if local_parts.len() < 2 {
        return Err(ParseError::Ip(IpError::Format));
    }
    let local_port = match parse_u32_hex(local_parts[1].as_str()) {
        None => {
            return Err(ParseError::ParseInt);
        },
        Some(p) => p,
    };
    if remote_parts.len() < 2 {
        return Err(ParseError::Ip(IpError::Format));
    }
    let remote_port = match parse_u32_hex(remote_parts[1].as_str()) {
        None => {
            return Err(ParseError::ParseInt);
        },
        Some(p) => p,
    };
    let uid = match parse_i32_dec(tokens[7].as_str()) {
        None => {
            return Err(ParseError::ParseInt);
        },
        Some(u) => u,
    };
    let connection_state = match parse_i32_hex(tokens[3].as_str()) {
        None => {
            return Err(ParseError::ParseInt);
        },
        Some(c) => c,
    };
    Ok(
        Entry {
            local_address,
            local_port,
            remote_address,
            remote_port,
            connection_state,
            uid,
            mode,
        },
    )
}

/// Parses a whole connection table from its lines: the first line is the
/// header and is discarded, every later line is tokenized and decoded as
/// one row, in order. Succeeds with the entries of all rows exactly when
/// every row decodes; the first malformed row aborts the parse with its
/// error and no partial result.
pub fn parse_table(lines: &Vec<String>, mode: Mode) -> (r: Result<Vec<Entry>, ParseError>)
    ensures
        match r {
            Ok(v) => parse_table_spec(lines.deep_view(), mode) == Ok::<Seq<Entry>, ParseError>(v@),
            Err(e) => parse_table_spec(lines.deep_view(), mode) == Err::<Seq<Entry>, ParseError>(e),
        },
        r matches Ok(v) ==> forall|j: int|
            0 <= j < v@.len() ==> (#[trigger] v@[j]).wf() && v@[j].mode == mode,
{
    let mut result: Vec<Entry> = Vec::new();
    let n = lines.len();
    if n == 0 {
        return Ok(result);
    }
    let ghost rows = lines.deep_view().skip(1);
    proof {
        assert(result@ =~= rows_prefix_entries(rows, mode, 0));
    }
    let mut i: usize = 1;
    while i < n
        invariant
            1 <= i <= n,
            n == lines@.len(),
            rows == lines.deep_view().skip(1),
            rows.len() == n - 1,
            forall|j: int|
                0 <= j < i - 1 ==> decode_row_spec(tokens_spec(#[trigger] rows[j]), mode) is Ok,
            result@ == rows_prefix_entries(rows, mode, i - 1),
            forall|j: int| 0 <= j < result@.len() ==> (#[trigger] result@[j]).wf()
                && result@[j].mode == mode,
        decreases n - i,
    {
        proof {
            assert(rows[i - 1] == lines.deep_view()[i as int]);
        }
        let tokens = split_and_remove_empty(lines[i].as_str());
        match decode_row(&tokens, mode) {
            Err(e) => {
                proof {
                    lemma_parse_rows_err(rows, mode, i - 1);
                    lemma_parse_rows_prefix(rows, mode, i - 1);
                    assert(rows.skip(i - 1)[0] == rows[i - 1]);
                }
                return Err(e);
            },
            Ok(entry) => {
                result.push(entry);
                proof {
                    assert(result@ =~= rows_prefix_entries(rows, mode, i as int));
                }
                i = i + 1;
            },
        }
    }
    proof {
        lemma_parse_rows_prefix(rows, mode, n - 1);
        assert(rows.skip(n - 1) =~= Seq::<Seq<char>>::empty());
        assert(rows_prefix_entries(rows, mode, n - 1) + Seq::<Entry>::empty() =~= result@);
    }
    Ok(result)
}

} // verus!
