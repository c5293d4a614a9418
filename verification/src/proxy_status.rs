//! The list of proxied connections that is shown to users.
use vstd::multiset::Multiset;
use vstd::prelude::*;

use crate::addr::{PeerId, SocketAddress};

verus! {

/// The number of connections that are shown.
pub const MAX_STATUS_ENTRIES: usize = 256;

#[derive(Clone, Copy, Debug, PartialEq, Eq, Structural)]
pub enum TcpProxyEntryState {
    SynReceived,
    ConnectingDst,
    Connected,
    ClosingSrc,
    ClosingDst,
    Closed,
}

#[derive(Clone, Copy, Debug, PartialEq, Eq, Structural)]
pub enum TcpProxyEntryTransportType {
    Tcp,
    Kcp,
    Quic,
}

/// What is shown of a proxied connection.
#[derive(Debug)]
pub struct TcpProxyEntry {
    pub src: Option<SocketAddress>,
    pub dst: Option<SocketAddress>,
    pub start_time: u64,
    pub state: TcpProxyEntryState,
    pub transport_type: TcpProxyEntryTransportType,
    pub requested_transport: String,
    pub selected_transport: String,
    pub fallback_reason: String,
    pub dst_peer_id: PeerId,
    pub transport_degraded: bool,
    pub consecutive_failures: u32,
    pub consecutive_successes: u32,
    pub generation: u64,
    pub ambiguous_timeout_strikes: u32,
}

impl Default for TcpProxyEntry {
    fn default() -> (r: Self)
        ensures
            r.src is None,
            r.dst is None,
            r.start_time == 0,
            r.state == TcpProxyEntryState::SynReceived,
            r.transport_type == TcpProxyEntryTransportType::Tcp,
            r.requested_transport@ == Seq::<char>::empty(),
            r.selected_transport@ == Seq::<char>::empty(),
            r.fallback_reason@ == Seq::<char>::empty(),
            r.dst_peer_id == 0,
            !r.transport_degraded,
            r.consecutive_failures == 0,
            r.consecutive_successes == 0,
            r.generation == 0,
            r.ambiguous_timeout_strikes == 0,
    {
        TcpProxyEntry {
            src: None,
            dst: None,
            start_time: 0,
            state: TcpProxyEntryState::SynReceived,
            transport_type: TcpProxyEntryTransportType::Tcp,
            requested_transport: String::new(),
            selected_transport: String::new(),
            fallback_reason: String::new(),
            dst_peer_id: 0,
            transport_degraded: false,
            consecutive_failures: 0,
            consecutive_successes: 0,
            generation: 0,
            ambiguous_timeout_strikes: 0,
        }
    }
}

/// `a` is no older than `b`: it started later or, at the same time, with a higher generation.
pub open spec fn no_older(a: TcpProxyEntry, b: TcpProxyEntry) -> bool {
    a.start_time > b.start_time || (a.start_time == b.start_time && a.generation >= b.generation)
}

/// The entries stand from the newest to the oldest.
pub open spec fn newest_first(entries: Seq<TcpProxyEntry>) -> bool {
    forall|i: int, j: int|
        0 <= i <= j < entries.len() ==> no_older(#[trigger] entries[i], #[trigger] entries[j])
}

/// `kept` are the newest of `all`, as many as are shown, from the newest to the oldest.
pub open spec fn latest_of(all: Seq<TcpProxyEntry>, kept: Seq<TcpProxyEntry>) -> bool {
    &&& kept.len() == if all.len() <= MAX_STATUS_ENTRIES {
        all.len()
    } else {
        MAX_STATUS_ENTRIES as nat
    }
    &&& newest_first(kept)
    &&& exists|dropped: Seq<TcpProxyEntry>|
        #![trigger dropped.to_multiset()]
        kept.to_multiset().add(dropped.to_multiset()) == all.to_multiset() && forall|
            i: int,
            j: int,
        |
            0 <= i < kept.len() && 0 <= j < dropped.len() ==> no_older(
                #[trigger] kept[i],
                #[trigger] dropped[j],
            )
}

fn is_no_older(a: &TcpProxyEntry, b: &TcpProxyEntry) -> (r: bool)
    ensures
        r == no_older(*a, *b),
{
    a.start_time > b.start_time || (a.start_time == b.start_time && a.generation >= b.generation)
}

fn newest_place(entries: &Vec<TcpProxyEntry>) -> (r: usize)
    requires
        entries@.len() > 0,
    ensures
        r < entries@.len(),
        forall|j: int| 0 <= j < entries@.len() ==> no_older(entries@[r as int], #[trigger] entries@[j]),
{
    let mut best: usize = 0;
    let mut i: usize = 1;
    while i < entries.len()
        invariant
            best < i <= entries@.len(),
            forall|j: int| 0 <= j < i ==> no_older(entries@[best as int], #[trigger] entries@[j]),
        decreases entries@.len() - i,
    {
        if !is_no_older(&entries[best], &entries[i]) {
            best = i;
        }
        i += 1;
    }
    best
}

proof fn lemma_moved<A>(rest: Seq<A>, out: Seq<A>, place: int)
    requires
        0 <= place < rest.len(),
    ensures
        out.push(rest[place]).to_multiset().add(rest.remove(place).to_multiset())
            == out.to_multiset().add(rest.to_multiset()),
{
    broadcast use {vstd::seq_lib::group_to_multiset_ensures, vstd::multiset::group_multiset_axioms};

    assert(out.push(rest[place]).to_multiset() =~= out.to_multiset().insert(rest[place]));
    assert(rest.remove(place).to_multiset() =~= rest.to_multiset().remove(rest[place]));
    assert(rest.to_multiset().count(rest[place]) > 0) by {
        assert(rest.contains(rest[place]));
    }
    assert(out.push(rest[place]).to_multiset().add(rest.remove(place).to_multiset())
        =~= out.to_multiset().add(rest.to_multiset()));
}

/// Keeps the newest entries, from the newest to the oldest.
pub fn retain_latest_statuses(statuses: &mut Vec<TcpProxyEntry>)
    ensures
        latest_of(old(statuses)@, final(statuses)@),
{
    let mut rest: Vec<TcpProxyEntry> = Vec::new();
    std::mem::swap(&mut rest, statuses);
    let mut out: Vec<TcpProxyEntry> = Vec::new();
    let ghost all = rest@;
    proof {
        broadcast use vstd::seq_lib::group_to_multiset_ensures;

        assert(out@ =~= Seq::<TcpProxyEntry>::empty());
        assert(out@.to_multiset().add(rest@.to_multiset()) =~= all.to_multiset());
    }
    while out.len() < MAX_STATUS_ENTRIES && rest.len() > 0
        invariant
            out@.len() + rest@.len() == all.len(),
            out@.len() <= MAX_STATUS_ENTRIES,
            newest_first(out@),
            forall|i: int, j: int|
                0 <= i < out@.len() && 0 <= j < rest@.len() ==> no_older(
                    #[trigger] out@[i],
                    #[trigger] rest@[j],
                ),
            out@.to_multiset().add(rest@.to_multiset()) == all.to_multiset(),
        decreases rest@.len(),
    {
        let place = newest_place(&rest);
        let ghost out_before = out@;
        let ghost rest_before = rest@;
        let newest = rest.remove(place);
        out.push(newest);
        proof {
            lemma_moved(rest_before, out_before, place as int);
            assert forall|i: int, j: int| 0 <= i < out@.len() && 0 <= j < rest@.len() implies no_older(
                #[trigger] out@[i],
                #[trigger] rest@[j],
            ) by {
                let j0 = if j < place {
                    j
                } else {
                    j + 1
                };
                assert(rest@[j] == rest_before[j0]);
                if i < out_before.len() {
                    assert(out@[i] == out_before[i]);
                }
            }
            assert forall|i: int, j: int| 0 <= i <= j < out@.len() implies no_older(
                #[trigger] out@[i],
                #[trigger] out@[j],
            ) by {
                if i < out_before.len() {
                    assert(out@[i] == out_before[i]);
                }
                if j < out_before.len() {
                    assert(out@[j] == out_before[j]);
                }
            }
        }
    }
    *statuses = out;
    proof {
        let dropped = rest@;
        assert(statuses@.to_multiset().add(dropped.to_multiset()) == all.to_multiset());
    }
}

/// However many connections there are, the list is bounded and starts with the newest.
pub proof fn law_status_list_is_bounded(all: Seq<TcpProxyEntry>, kept: Seq<TcpProxyEntry>)
    requires
        latest_of(all, kept),
    ensures
        kept.len() <= MAX_STATUS_ENTRIES,
        forall|i: int| 0 <= i < all.len() && kept.len() > 0 ==> no_older(kept[0], #[trigger] all[i]),
{
    broadcast use vstd::seq_lib::group_to_multiset_ensures;

    let dropped = choose|dropped: Seq<TcpProxyEntry>|
        #![trigger dropped.to_multiset()]
        kept.to_multiset().add(dropped.to_multiset()) == all.to_multiset() && forall|
            i: int,
            j: int,
        |
            0 <= i < kept.len() && 0 <= j < dropped.len() ==> no_older(
                #[trigger] kept[i],
                #[trigger] dropped[j],
            );
    assert forall|i: int| 0 <= i < all.len() && kept.len() > 0 implies no_older(
        kept[0],
        #[trigger] all[i],
    ) by {
        assert(all.contains(all[i]));
        assert(all.to_multiset().count(all[i]) > 0);
        assert(kept.to_multiset().count(all[i]) > 0 || dropped.to_multiset().count(all[i]) > 0);
        if kept.to_multiset().count(all[i]) > 0 {
            assert(kept.contains(all[i]));
            let k = choose|k: int| 0 <= k < kept.len() && kept[k] == all[i];
            assert(no_older(kept[0], kept[k]));
        } else {
            assert(dropped.contains(all[i]));
            let k = choose|k: int| 0 <= k < dropped.len() && dropped[k] == all[i];
            assert(no_older(kept[0], dropped[k]));
        }
    }
}

/// The list shows as many connections as there are, up to 256; those that started later come first and,
/// of those that started at the same time, those with the higher generation.
pub proof fn law_newest_connections_are_shown(
    all: Seq<TcpProxyEntry>,
    kept: Seq<TcpProxyEntry>,
    i: int,
    j: int,
)
    requires
        latest_of(all, kept),
        0 <= i < j < kept.len(),
    ensures
        all.len() <= 256 ==> kept.len() == all.len(),
        all.len() > 256 ==> kept.len() == 256,
        kept[i].start_time >= kept[j].start_time,
        kept[i].start_time == kept[j].start_time ==> kept[i].generation >= kept[j].generation,
{
    assert(no_older(kept[i], kept[j]));
}

/// Every connection that is shown is one of those that there are.
pub proof fn law_shown_connections_exist(all: Seq<TcpProxyEntry>, kept: Seq<TcpProxyEntry>, i: int)
    requires
        latest_of(all, kept),
        0 <= i < kept.len(),
    ensures
        all.contains(kept[i]),
{
    broadcast use vstd::seq_lib::group_to_multiset_ensures;

    let dropped = choose|dropped: Seq<TcpProxyEntry>|
        #![trigger dropped.to_multiset()]
        kept.to_multiset().add(dropped.to_multiset()) == all.to_multiset() && forall|
            i: int,
            j: int,
        |
            0 <= i < kept.len() && 0 <= j < dropped.len() ==> no_older(
                #[trigger] kept[i],
                #[trigger] dropped[j],
            );
    assert(kept.contains(kept[i]));
    assert(kept.to_multiset().count(kept[i]) > 0);
    assert(all.to_multiset().count(kept[i]) > 0);
}

} // verus!
