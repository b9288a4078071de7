//! Per-mode entry points over a supplied line source.
//!
//! Each function parses one mode's connection table from the lines the
//! caller read out of that mode's table file (named by
//! [`crate::file::get_path_from_mode`]). Reading the file is the caller's
//! side of the bargain; everything from the raw lines to the typed entries
//! happens here.

use vstd::prelude::*;

use crate::file::{parse_table, parse_table_spec, ParseError};
use crate::info::{Entry, Mode};

verus! {

/// Parses the connection table of `mode` from its lines; see
/// [`parse_table`].
pub fn get_conn(lines: &Vec<String>, mode: Mode) -> (r: Result<Vec<Entry>, ParseError>)
    ensures
        match r {
            Ok(v) => parse_table_spec(lines.deep_view(), mode) == Ok::<Seq<Entry>, ParseError>(v@),
            Err(e) => parse_table_spec(lines.deep_view(), mode) == Err::<Seq<Entry>, ParseError>(e),
        },
{
    parse_table(lines, mode)
}

/// Parses an IPv6 TCP table from its lines.
pub fn get_tcp6(lines: &Vec<String>) -> (r: Result<Vec<Entry>, ParseError>)
    ensures
        match r {
            Ok(v) => parse_table_spec(lines.deep_view(), Mode::Tcp6) == Ok::<
                Seq<Entry>,
                ParseError,
            >(v@),
            Err(e) => parse_table_spec(lines.deep_view(), Mode::Tcp6) == Err::<
                Seq<Entry>,
                ParseError,
            >(e),
        },
{
    get_conn(lines, Mode::Tcp6)
}

/// Parses an IPv4 TCP table from its lines.
pub fn get_tcp(lines: &Vec<String>) -> (r: Result<Vec<Entry>, ParseError>)
    ensures
        match r {
            Ok(v) => parse_table_spec(lines.deep_view(), Mode::Tcp) == Ok::<
                Seq<Entry>,
                ParseError,
            >(v@),
            Err(e) => parse_table_spec(lines.deep_view(), Mode::Tcp) == Err::<
                Seq<Entry>,
                ParseError,
            >(e),
        },
{
    get_conn(lines, Mode::Tcp)
}

/// Parses an IPv4 UDP table from its lines.
pub fn get_udp(lines: &Vec<String>) -> (r: Result<Vec<Entry>, ParseError>)
    ensures
        match r {
            Ok(v) => parse_table_spec(lines.deep_view(), Mode::Udp) == Ok::<
                Seq<Entry>,
                ParseError,
            >(v@),
            Err(e) => parse_table_spec(lines.deep_view(), Mode::Udp) == Err::<
                Seq<Entry>,
                ParseError,
            >(e),
        },
{
    get_conn(lines, Mode::Udp)
}

/// Parses an IPv6 UDP table from its lines.
pub fn get_udp6(lines: &Vec<String>) -> (r: Result<Vec<Entry>, ParseError>)
    ensures
        match r {
            Ok(v) => parse_table_spec(lines.deep_view(), Mode::Udp6) == Ok::<
                Seq<Entry>,
                ParseError,
            >(v@),
            Err(e) => parse_table_spec(lines.deep_view(), Mode::Udp6) == Err::<
                Seq<Entry>,
                ParseError,
            >(e),
        },
{
    get_conn(lines, Mode::Udp6)
}

} // verus!
