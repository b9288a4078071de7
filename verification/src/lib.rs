//! Decoding and filtering of the kernel's textual connection tables.
//!
//! The Linux kernel exposes active sockets as whitespace-aligned text tables
//! (`/proc/net/tcp`, `/proc/net/udp`, and their IPv6 counterparts). This
//! library turns the rows of such a table into typed [`info::Entry`] records
//! and selects subsets of them by connection mode, address and port. It is a
//! pure text-to-record transform: reading the table file itself is left to
//! the caller, who hands the lines in as plain strings.

pub mod conninfo;
pub mod file;
pub mod info;
pub mod ip;
pub mod radix;
pub mod util;
