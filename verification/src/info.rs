//! Typed connection records and the filter engine.
//!
//! An [`Entry`] is one decoded row of a connection table. [`filter_by`]
//! selects the entries that satisfy every supplied criterion, keeping
//! their original order.

use vstd::prelude::*;

use crate::ip::Address;

verus! {

/// Which connection table a row belongs to. The mode decides both the
/// table file and whether address tokens decode as 4-byte or 16-byte
/// values.
#[derive(Clone, Copy, Debug, PartialEq, Eq, Structural)]
pub enum Mode {
    Tcp,
    Udp,
    Tcp6,
    Udp6,
}

/// Whether a mode's addresses are IPv6.
pub open spec fn mode_is_v6(mode: Mode) -> bool {
    mode == Mode::Tcp6 || mode == Mode::Udp6
}

/// One decoded row of a connection table.
#[derive(Clone, Copy, Debug, PartialEq, Eq, Structural)]
pub struct Entry {
    pub local_address: Address,
    pub local_port: u32,
    pub remote_address: Address,
    pub remote_port: u32,
    pub connection_state: i32,
    pub uid: i32,
    pub mode: Mode,
}

impl Entry {
    /// Both addresses carry the variant that the entry's mode calls for:
    /// V4 for `Tcp`/`Udp`, V6 for `Tcp6`/`Udp6`.
    pub open spec fn wf(self) -> bool {
        match (self.local_address, self.remote_address) {
            (Address::V4(_), Address::V4(_)) => !mode_is_v6(self.mode),
            (Address::V6(_, _, _, _), Address::V6(_, _, _, _)) => mode_is_v6(self.mode),
            _ => false,
        }
    }
}

/// Whether an entry satisfies every supplied criterion: its mode must
/// equal `mode`, and each `Some` criterion must equal the corresponding
/// field.
pub open spec fn entry_matches(
    e: Entry,
    mode: Mode,
    local_address: Option<Address>,
    remote_address: Option<Address>,
    local_port: Option<u32>,
    remote_port: Option<u32>,
) -> bool {
    &&& (local_address matches Some(a) ==> e.local_address == a)
    &&& (remote_address matches Some(a) ==> e.remote_address == a)
    &&& e.mode == mode
    &&& (local_port matches Some(p) ==> e.local_port == p)
    &&& (remote_port matches Some(p) ==> e.remote_port == p)
}

/// The subsequence of `entries` whose elements satisfy every supplied
/// criterion, in their original order.
pub open spec fn filter_spec(
    entries: Seq<Entry>,
    mode: Mode,
    local_address: Option<Address>,
    remote_address: Option<Address>,
    local_port: Option<u32>,
    remote_port: Option<u32>,
) -> Seq<Entry> {
    entries.filter(
        |e: Entry| entry_matches(e, mode, local_address, remote_address, local_port, remote_port),
    )
}

/// Filters with pointwise-equal predicates select the same subsequence.
proof fn lemma_filter_congruence<A>(s: Seq<A>, p: spec_fn(A) -> bool, q: spec_fn(A) -> bool)
    requires
        forall|x: A| #[trigger] p(x) == q(x),
    ensures
        s.filter(p) == s.filter(q),
    decreases s.len(),
{
    reveal(Seq::filter);
    if s.len() > 0 {
        lemma_filter_congruence(s.drop_last(), p, q);
    }
}

/// A filter whose predicate already holds of every element changes
/// nothing.
proof fn lemma_filter_all_true<A>(s: Seq<A>, p: spec_fn(A) -> bool)
    requires
        forall|i: int| 0 <= i < s.len() ==> p(#[trigger] s[i]),
    ensures
        s.filter(p) == s,
    decreases s.len(),
{
    reveal(Seq::filter);
    if s.len() > 0 {
        lemma_filter_all_true(s.drop_last(), p);
    }
}

/// With every criterion but the mode unset, filtering keeps exactly the
/// entries of that mode; fixing a local address further narrows the
/// selection to the entries whose local address equals it.
pub proof fn lemma_filter_mode_only(entries: Seq<Entry>, mode: Mode, local_address: Option<Address>)
    ensures
        filter_spec(entries, mode, None, None, None, None) == entries.filter(
            (|e: Entry| e.mode == mode),
        ),
        filter_spec(entries, mode, local_address, None, None, None) == entries.filter(
            (
            |e: Entry|
                e.mode == mode && (local_address matches Some(a) ==> e.local_address == a)
            ),
        ),
{
    lemma_filter_congruence(
        entries,
        |e: Entry| entry_matches(e, mode, None, None, None, None),
        |e: Entry| e.mode == mode,
    );
    lemma_filter_congruence(
        entries,
        |e: Entry| entry_matches(e, mode, local_address, None, None, None),
        |e: Entry| e.mode == mode && (local_address matches Some(a) ==> e.local_address == a),
    );
}

/// Filtering is idempotent: running the same criteria over their own
/// output is a no-op.
pub proof fn lemma_filter_idempotent(
    entries: Seq<Entry>,
    mode: Mode,
    local_address: Option<Address>,
    remote_address: Option<Address>,
    local_port: Option<u32>,
    remote_port: Option<u32>,
)
    ensures
        filter_spec(
            filter_spec(entries, mode, local_address, remote_address, local_port, remote_port),
            mode,
            local_address,
            remote_address,
            local_port,
            remote_port,
        ) == filter_spec(entries, mode, local_address, remote_address, local_port, remote_port),
{
    broadcast use Seq::lemma_filter_pred;

    let once = filter_spec(entries, mode, local_address, remote_address, local_port, remote_port);
    lemma_filter_all_true(
        once,
        |e: Entry| entry_matches(e, mode, local_address, remote_address, local_port, remote_port),
    );
}

/// Selects the entries that match all supplied criteria: the mode always,
/// each address or port only where a value is given. The result is a
/// subsequence of `entries` in the original order; the input is not
/// changed.
pub fn filter_by(
    entries: &Vec<Entry>,
    mode: &Mode,
    local_address: Option<Address>,
    remote_address: Option<Address>,
    local_port: Option<u32>,
    remote_port: Option<u32>,
) -> (r: Vec<Entry>)
    ensures
        r@ == filter_spec(entries@, *mode, local_address, remote_address, local_port, remote_port),
{
    let mut out: Vec<Entry> = Vec::new();
    let mut j: usize = 0;
    let n = entries.len();
    while j < n
        invariant
            j <= n,
            n == entries@.len(),
            out@ == filter_spec(
                entries@.take(j as int),
                *mode,
                local_address,
                remote_address,
                local_port,
                remote_port,
            ),
        decreases n - j,
    {
        proof {
            broadcast use Seq::lemma_filter_push;

            assert(entries@.take(j as int + 1) =~= entries@.take(j as int).push(
                entries@[j as int],
            ));
        }
        let e = entries[j];
        let local_ok = match local_address {
            Some(a) => e.local_address == a,
            None => true,
        };
        let remote_ok = match remote_address {
            Some(a) => e.remote_address == a,
            None => true,
        };
        let mode_ok = e.mode == *mode;
        let lport_ok = match local_port {
            Some(p) => e.local_port == p,
            None => true,
        };
        let rport_ok = match remote_port {
            Some(p) => e.remote_port == p,
            None => true,
        };
        if local_ok && remote_ok && mode_ok && lport_ok && rport_ok {
            out.push(e);
        }
        j = j + 1;
    }
    proof {
        assert(entries@.take(n as int) =~= entries@);
    }
    out
}

} // verus!
