//! Proxies TCP connections into networks behind this node. Packets of a proxied connection are
//! readdressed so that a local listener accepts it; what the listener sends back is readdressed
//! so that the peer sees the destination that it asked for. Times are in nanoseconds.
use vstd::prelude::*;

use crate::addr::{IpAddress, PeerId, SocketAddress};
use crate::global_ctx::GlobalCtx;
use crate::ip_range::Ipv4Inet;
use crate::indexed_table::IndexedTable;
use crate::packet::{
    be16, be32, has_ipv4_header, has_tcp_header, ipv4_payload, ipv4_payload_start,
    ipv4_payload_stop, is_tcp_in_ipv4, parse_tcp_packet, set_ipv4_destination, set_ipv4_source,
    set_tcp_destination, set_tcp_source, tcp_checksum, tcp_over_ipv4, update_ip_packet_checksum,
    update_tcp_packet_checksum, with_be16, with_be32, with_ipv4_checksum, with_tcp_checksum,
    TcpPacketFields,
};
use crate::prepared_store::{
    claimable, waiting, FlowKey, PreparedPlace, PreparedProxyStore, PreparedStreams,
};
use crate::proxy_status::{TcpProxyEntry, TcpProxyEntryState, TcpProxyEntryTransportType};
use crate::transport_health::{time_since, ProxyTransport};

verus! {

/// How long a connection waits to be accepted.
pub const SYN_ENTRY_TTL: u64 = 30_000_000_000;

/// The port at which the node's own network stack is listened on.
pub const SMOLTCP_LOCAL_PORT: u16 = 8899;

/// The address and prefix length of the node in the network stack of its own.
pub const SMOLTCP_LOCAL_IP: u32 = 0xc058_63fe;

pub const SMOLTCP_PREFIX_LENGTH: u8 = 24;

/// A proxied connection.
#[derive(Clone, Copy, Debug, PartialEq, Eq, Structural)]
pub struct NatDstEntry {
    pub id: u64,
    pub src: SocketAddress,
    pub real_dst: SocketAddress,
    pub mapped_dst: SocketAddress,
    pub start_time: u64,
    pub start_time_unix: u64,
    pub state: TcpProxyEntryState,
    pub initial_sequence: Option<u32>,
    /// The prepared stream that carries the connection on.
    pub claimed_stream: Option<u64>,
}

impl NatDstEntry {
    pub fn new(
        id: u64,
        src: SocketAddress,
        real_dst: SocketAddress,
        mapped_dst: SocketAddress,
        initial_sequence: Option<u32>,
        claimed_stream: Option<u64>,
        now: u64,
        now_unix: u64,
    ) -> (r: Self)
        ensures
            r == (NatDstEntry {
                id,
                src,
                real_dst,
                mapped_dst,
                start_time: now,
                start_time_unix: now_unix,
                state: TcpProxyEntryState::SynReceived,
                initial_sequence,
                claimed_stream,
            }),
    {
        NatDstEntry {
            id,
            src,
            real_dst,
            mapped_dst,
            start_time: now,
            start_time_unix: now_unix,
            state: TcpProxyEntryState::SynReceived,
            initial_sequence,
            claimed_stream,
        }
    }

    /// The shown entry tells of the connection.
    pub open spec fn shown_as(
        self,
        transport_type: TcpProxyEntryTransportType,
        entry: TcpProxyEntry,
    ) -> bool {
        &&& entry.src == Some(self.src)
        &&& entry.dst == Some(self.real_dst)
        &&& entry.start_time == self.start_time_unix
        &&& entry.state == self.state
        &&& entry.transport_type == transport_type
        &&& entry.requested_transport@.len() == 0
        &&& entry.selected_transport@.len() == 0
        &&& entry.fallback_reason@.len() == 0
        &&& entry.dst_peer_id == 0
        &&& !entry.transport_degraded
        &&& entry.consecutive_failures == 0
        &&& entry.consecutive_successes == 0
        &&& entry.generation == 0
        &&& entry.ambiguous_timeout_strikes == 0
    }

    fn parse_as_pb(&self, transport_type: TcpProxyEntryTransportType) -> (r: TcpProxyEntry)
        ensures
            self.shown_as(transport_type, r),
    {
        let mut entry = TcpProxyEntry::default();
        entry.src = Some(self.src);
        entry.dst = Some(self.real_dst);
        entry.start_time = self.start_time_unix;
        entry.state = self.state;
        entry.transport_type = transport_type;
        entry
    }
}

/// The address that stands for the node itself in packets that its network stack has to answer:
/// another host of its network or, in a network of one, its own.
pub open spec fn fake_local_ipv4(local: Ipv4Inet) -> int {
    if local.last - local.first <= 0 {
        local.address as int
    } else if local.last - local.first == 1 {
        if local.address == local.first {
            local.last as int
        } else {
            local.first as int
        }
    } else if local.first + 1 == local.address {
        local.first + 2
    } else {
        local.first + 1
    }
}

pub fn get_fake_local_ipv4(local_ip: &Ipv4Inet) -> (r: u32)
    requires
        local_ip.wf(),
    ensures
        r == fake_local_ipv4(*local_ip),
{
    let first = local_ip.first;
    let last = local_ip.last;
    let local = local_ip.address;
    let span = last.saturating_sub(first);
    if span == 0 {
        local
    } else if span == 1 {
        if local == first {
            last
        } else {
            first
        }
    } else {
        let first_host = first + 1;
        if first_host == local {
            first_host + 1
        } else {
            first_host
        }
    }
}

/// The stand-in lies in the node's network. In a network of more than one address it is not the
/// node's own; in one of more than two it is neither the first nor the last address.
pub proof fn law_stand_in_is_another_host(local: Ipv4Inet)
    requires
        local.wf(),
    ensures
        local.first <= fake_local_ipv4(local) <= local.last,
        local.last > local.first ==> fake_local_ipv4(local) != local.address,
        local.last - local.first > 2 ==> fake_local_ipv4(local) != local.first && fake_local_ipv4(
            local,
        ) != local.last,
{
}

/// Carries proxied connections on to their destinations.
pub trait NatDstConnector: Sized {
    /// Some packets may be proxied at all.
    spec fn may_proxy(&self, cidr_set_is_empty: bool, ctx: &GlobalCtx) -> bool;

    /// A packet to the address is proxied.
    spec fn proxies(&self, ctx: &GlobalCtx, in_cidr_set: bool, is_exit_node: bool, ipv4: u32) -> bool;

    /// The transport whose prepared streams the connections use.
    spec fn claims(&self) -> Option<ProxyTransport>;

    spec fn carried_by(&self) -> TcpProxyEntryTransportType;

    fn check_packet_from_peer_fast(&self, cidr_set_is_empty: bool, ctx: &GlobalCtx) -> (r: bool)
        ensures
            r == self.may_proxy(cidr_set_is_empty, ctx),
    ;

    fn check_packet_from_peer(
        &self,
        ctx: &GlobalCtx,
        in_cidr_set: bool,
        is_exit_node: bool,
        ipv4: u32,
    ) -> (r: bool)
        ensures
            r == self.proxies(ctx, in_cidr_set, is_exit_node, ipv4),
    ;

    fn claimed_transport(&self) -> (r: Option<ProxyTransport>)
        ensures
            r == self.claims(),
    ;

    fn transport_type(&self) -> (r: TcpProxyEntryTransportType)
        ensures
            r == self.carried_by(),
    ;
}

/// Carries connections on over TCP.
#[derive(Clone, Copy, Debug)]
pub struct NatDstTcpConnector;

impl NatDstConnector for NatDstTcpConnector {
    open spec fn may_proxy(&self, cidr_set_is_empty: bool, ctx: &GlobalCtx) -> bool {
        !cidr_set_is_empty || ctx.flags.enable_exit_node || ctx.flags.no_tun
    }

    open spec fn proxies(
        &self,
        ctx: &GlobalCtx,
        in_cidr_set: bool,
        is_exit_node: bool,
        ipv4: u32,
    ) -> bool {
        in_cidr_set || is_exit_node || (ctx.flags.no_tun && ctx.ipv4 is Some && ctx.ipv4->0.address
            == ipv4)
    }

    open spec fn claims(&self) -> Option<ProxyTransport> {
        None
    }

    open spec fn carried_by(&self) -> TcpProxyEntryTransportType {
        TcpProxyEntryTransportType::Tcp
    }

    fn check_packet_from_peer_fast(&self, cidr_set_is_empty: bool, ctx: &GlobalCtx) -> (r: bool) {
        !cidr_set_is_empty || ctx.flags.enable_exit_node || ctx.flags.no_tun
    }

    fn check_packet_from_peer(
        &self,
        ctx: &GlobalCtx,
        in_cidr_set: bool,
        is_exit_node: bool,
        ipv4: u32,
    ) -> (r: bool) {
        in_cidr_set || is_exit_node || (ctx.flags.no_tun && match ctx.ipv4 {
            Some(inet) => inet.address == ipv4,
            None => false,
        })
    }

    fn claimed_transport(&self) -> (r: Option<ProxyTransport>) {
        None
    }

    fn transport_type(&self) -> (r: TcpProxyEntryTransportType) {
        TcpProxyEntryTransportType::Tcp
    }
}

/// The connections of a proxy: those that wait to be accepted, by their source; those that have
/// been accepted; and which of these a source stands for.
#[verifier::ext_equal]
pub ghost struct TcpProxyState {
    pub syn: Map<SocketAddress, NatDstEntry>,
    pub conn: Map<u64, NatDstEntry>,
    pub addr: Map<SocketAddress, u64>,
    pub next_id: u64,
}

impl TcpProxyState {
    pub open spec fn wf(self) -> bool {
        &&& forall|src: SocketAddress| #[trigger]
            self.syn.contains_key(src) ==> self.syn[src].src == src && self.syn[src].mapped_dst is V4
                && self.syn[src].state is SynReceived && self.syn[src].id < self.next_id
                && !self.conn.contains_key(self.syn[src].id)
        &&& forall|id: u64| #[trigger]
            self.conn.contains_key(id) ==> self.conn[id].id == id && self.conn[id].mapped_dst is V4
                && id < self.next_id
        &&& forall|src: SocketAddress| #[trigger]
            self.addr.contains_key(src) ==> self.conn.contains_key(self.addr[src])
                && self.conn[self.addr[src]].src == src
        &&& forall|a: SocketAddress, b: SocketAddress|
            #![trigger self.syn.contains_key(a), self.syn.contains_key(b)]
            self.syn.contains_key(a) && self.syn.contains_key(b) && a != b ==> self.syn[a].id
                != self.syn[b].id
    }

    /// The connection of exactly this source.
    pub open spec fn exact(self, src: SocketAddress) -> Option<NatDstEntry> {
        if self.addr.contains_key(src) {
            Some(self.conn[self.addr[src]])
        } else if self.syn.contains_key(src) {
            Some(self.syn[src])
        } else {
            None
        }
    }

    /// The source is one of a connection that is proxied.
    pub open spec fn knows(self, src: SocketAddress) -> bool {
        self.syn.contains_key(src) || self.addr.contains_key(src)
    }
}

/// The address stands for the node itself.
pub open spec fn stands_in(observed: SocketAddress, local: Ipv4Inet) -> bool {
    observed.spec_ip() == IpAddress::V4(fake_local_ipv4(local) as u32)
}

/// The node's own address with the same port.
pub open spec fn own_address(observed: SocketAddress, local: Ipv4Inet) -> SocketAddress {
    observed.with_ip(IpAddress::V4(local.address))
}

impl TcpProxyState {
    /// The waiting connection that an accepted one is: the one of its source or, if that is the
    /// stand-in for the node, the one of the node's own address.
    pub open spec fn waiting_for(
        self,
        observed_src: SocketAddress,
        local: Option<Ipv4Inet>,
    ) -> Option<(NatDstEntry, SocketAddress)> {
        if self.syn.contains_key(observed_src) {
            Some((self.syn[observed_src], observed_src))
        } else if local is Some && stands_in(observed_src, local->0) && self.syn.contains_key(
            own_address(observed_src, local->0),
        ) {
            Some(
                (
                    self.syn[own_address(observed_src, local->0)],
                    own_address(observed_src, local->0),
                ),
            )
        } else {
            None
        }
    }

    /// The connection to which an answer belongs, the source that it is known by, and whether that
    /// was found through the stand-in for the node.
    pub open spec fn answered(
        self,
        observed_dst: SocketAddress,
        local: Ipv4Inet,
        allow_fake_local_fallback: bool,
    ) -> Option<(NatDstEntry, SocketAddress, bool)> {
        if self.exact(observed_dst) is Some {
            Some((self.exact(observed_dst)->0, observed_dst, false))
        } else if allow_fake_local_fallback && stands_in(observed_dst, local) && self.exact(
            own_address(observed_dst, local),
        ) is Some {
            Some(
                (
                    self.exact(own_address(observed_dst, local))->0,
                    own_address(observed_dst, local),
                    true,
                ),
            )
        } else {
            None
        }
    }
}

/// A connection of exactly the observed address is found whatever else there is; the stand-in for
/// the node is looked at only where there is none.
pub proof fn law_exact_match_wins(
    state: TcpProxyState,
    observed: SocketAddress,
    local: Ipv4Inet,
    allow_fake_local_fallback: bool,
)
    ensures
        state.exact(observed) is Some ==> state.answered(observed, local, allow_fake_local_fallback)
            == Some((state.exact(observed)->0, observed, false)),
        state.syn.contains_key(observed) ==> state.waiting_for(observed, Some(local)) == Some(
            (state.syn[observed], observed),
        ),
        state.answered(observed, local, allow_fake_local_fallback) matches Some((_, _, true))
            ==> allow_fake_local_fallback && !state.knows(observed),
{
}

/// The packet with another source and, if the answer goes to the node itself, another
/// destination.
pub open spec fn readdressed_answer(
    bytes: Seq<u8>,
    source: u32,
    source_port: u16,
    own_destination: Option<u32>,
) -> Seq<u8> {
    let sourced = with_be32(bytes, 12, source);
    let addressed = match own_destination {
        Some(ip) => with_be32(sourced, 16, ip),
        None => sourced,
    };
    let ported = with_be16(addressed, ipv4_payload_start(addressed), source_port);
    with_ipv4_checksum(
        with_tcp_checksum(ported, source, be32(addressed, 16) as u32),
    )
}

/// The packet as the local listener is to get it.
pub open spec fn readdressed_request(
    bytes: Seq<u8>,
    stand_in_source: Option<u32>,
    destination: u32,
    destination_port: u16,
) -> Seq<u8> {
    let sourced = match stand_in_source {
        Some(ip) => with_be32(bytes, 12, ip),
        None => bytes,
    };
    let addressed = with_be32(sourced, 16, destination);
    let ported = with_be16(addressed, ipv4_payload_start(addressed) + 2, destination_port);
    with_ipv4_checksum(
        with_tcp_checksum(ported, be32(addressed, 12) as u32, destination),
    )
}

/// Setting an address or a port of a packet leaves where its parts begin and end.
proof fn lemma_addresses_keep_the_shape(bytes: Seq<u8>, value: u32, port: u16, offset: int)
    requires
        has_ipv4_header(bytes),
        has_tcp_header(ipv4_payload(bytes)),
        0 <= offset < 19,
    ensures
        ({
            let sourced = with_be32(bytes, 12, value);
            let addressed = with_be32(bytes, 16, value);
            let ported = with_be16(bytes, ipv4_payload_start(bytes) + offset, port);
            &&& sourced.len() == bytes.len()
            &&& addressed.len() == bytes.len()
            &&& ported.len() == bytes.len()
            &&& ipv4_payload_start(sourced) == ipv4_payload_start(bytes)
            &&& ipv4_payload_start(addressed) == ipv4_payload_start(bytes)
            &&& ipv4_payload_start(ported) == ipv4_payload_start(bytes)
            &&& ipv4_payload(sourced).len() == ipv4_payload(bytes).len()
            &&& ipv4_payload(addressed).len() == ipv4_payload(bytes).len()
            &&& ipv4_payload(ported).len() == ipv4_payload(bytes).len()
            &&& be32(sourced, 16) == be32(bytes, 16)
            &&& be32(addressed, 12) == be32(bytes, 12)
        }),
{
}

proof fn lemma_read_back(bytes: Seq<u8>, i: int, value: u32)
    requires
        0 <= i,
        i + 4 <= bytes.len(),
    ensures
        be32(with_be32(bytes, i, value), i) == value,
{
    let high = (value / 0x1_0000) as u16;
    let low = (value % 0x1_0000) as u16;
    assert(value == high as int * 0x1_0000 + low);
    let after = with_be32(bytes, i, value);
    assert(after[i] == (high / 0x100) as u8);
    assert(after[i + 1] == (high % 0x100) as u8);
    assert(after[i + 2] == (low / 0x100) as u8);
    assert(after[i + 3] == (low % 0x100) as u8);
}

/// Of a segment and the packet around it, only the addresses, the ports and the checksums differ:
/// the packets are of one length, carry the same in the same place, and differ in no flag, number
/// or option.
pub open spec fn same_but_for_addresses(a: Seq<u8>, b: Seq<u8>) -> bool {
    let start = ipv4_payload_start(a);
    &&& a.len() == b.len()
    &&& start == ipv4_payload_start(b)
    &&& ipv4_payload_stop(a) == ipv4_payload_stop(b)
    &&& forall|k: int|
        0 <= k < a.len() && !(10 <= k < 20) && !(start <= k < start + 4) && !(start + 16 <= k < start
            + 18) ==> #[trigger] a[k] == b[k]
}

/// The two bytes of a segment, read from its packet.
proof fn lemma_segment_bytes(bytes: Seq<u8>, i: int)
    requires
        has_ipv4_header(bytes),
        has_tcp_header(ipv4_payload(bytes)),
        0 <= i,
        i + 2 <= ipv4_payload(bytes).len(),
    ensures
        be16(ipv4_payload(bytes), i) == be16(bytes, ipv4_payload_start(bytes) + i),
{
}

/// Setting the checksums of a packet right touches nothing else.
proof fn lemma_checksums_stay_apart(bytes: Seq<u8>, source: u32, destination: u32)
    requires
        has_ipv4_header(bytes),
        has_tcp_header(ipv4_payload(bytes)),
    ensures
        ({
            let start = ipv4_payload_start(bytes);
            let summed = with_ipv4_checksum(with_tcp_checksum(bytes, source, destination));
            &&& summed.len() == bytes.len()
            &&& ipv4_payload_start(summed) == start
            &&& ipv4_payload_stop(summed) == ipv4_payload_stop(bytes)
            &&& has_tcp_header(ipv4_payload(summed))
            &&& forall|k: int|
                0 <= k < bytes.len() && !(10 <= k < 12) && !(start + 16 <= k < start + 18)
                    ==> #[trigger] summed[k] == bytes[k]
        }),
{
}

/// A readdressed answer comes from the given address and port; its destination is the one it had
/// or, where it goes to the node itself, the node's. Nothing else of it changes but the checksums.
pub proof fn law_answer_is_readdressed(
    bytes: Seq<u8>,
    source: u32,
    source_port: u16,
    own_destination: Option<u32>,
)
    requires
        has_ipv4_header(bytes),
        has_tcp_header(ipv4_payload(bytes)),
    ensures
        ({
            let answer = readdressed_answer(bytes, source, source_port, own_destination);
            &&& same_but_for_addresses(bytes, answer)
            &&& be32(answer, 12) == source
            &&& be32(answer, 16) == (match own_destination {
                Some(ip) => ip as int,
                None => be32(bytes, 16),
            })
            &&& be16(ipv4_payload(answer), 0) == source_port
            &&& be16(ipv4_payload(answer), 2) == be16(ipv4_payload(bytes), 2)
        }),
{
    let start = ipv4_payload_start(bytes);
    let sourced = with_be32(bytes, 12, source);
    lemma_read_back(bytes, 12, source);
    lemma_addresses_keep_the_shape(bytes, source, 0, 0);
    let addressed = match own_destination {
        Some(ip) => with_be32(sourced, 16, ip),
        None => sourced,
    };
    if let Some(ip) = own_destination {
        lemma_read_back(sourced, 16, ip);
        lemma_addresses_keep_the_shape(sourced, ip, 0, 0);
    }
    let ported = with_be16(addressed, start, source_port);
    lemma_addresses_keep_the_shape(addressed, 0, source_port, 0);
    assert(be16(ported, start) == source_port);
    assert(ported[start + 2] == bytes[start + 2] && ported[start + 3] == bytes[start + 3]);
    let answer = with_ipv4_checksum(with_tcp_checksum(ported, source, be32(addressed, 16) as u32));
    lemma_checksums_stay_apart(ported, source, be32(addressed, 16) as u32);
    lemma_segment_bytes(bytes, 2);
    lemma_segment_bytes(answer, 0);
    lemma_segment_bytes(answer, 2);
}

/// A readdressed request goes to the given address and port; its source is the one it had or,
/// where the node asks itself, the stand-in. Nothing else of it changes but the checksums.
pub proof fn law_request_is_readdressed(
    bytes: Seq<u8>,
    stand_in_source: Option<u32>,
    destination: u32,
    destination_port: u16,
)
    requires
        has_ipv4_header(bytes),
        has_tcp_header(ipv4_payload(bytes)),
    ensures
        ({
            let request = readdressed_request(
                bytes,
                stand_in_source,
                destination,
                destination_port,
            );
            &&& same_but_for_addresses(bytes, request)
            &&& be32(request, 12) == (match stand_in_source {
                Some(ip) => ip as int,
                None => be32(bytes, 12),
            })
            &&& be32(request, 16) == destination
            &&& be16(ipv4_payload(request), 0) == be16(ipv4_payload(bytes), 0)
            &&& be16(ipv4_payload(request), 2) == destination_port
        }),
{
    let start = ipv4_payload_start(bytes);
    let sourced = match stand_in_source {
        Some(ip) => with_be32(bytes, 12, ip),
        None => bytes,
    };
    if let Some(ip) = stand_in_source {
        lemma_read_back(bytes, 12, ip);
        lemma_addresses_keep_the_shape(bytes, ip, 0, 0);
    }
    let addressed = with_be32(sourced, 16, destination);
    lemma_read_back(sourced, 16, destination);
    lemma_addresses_keep_the_shape(sourced, destination, 0, 0);
    let ported = with_be16(addressed, start + 2, destination_port);
    lemma_addresses_keep_the_shape(addressed, 0, destination_port, 2);
    assert(be16(ported, start + 2) == destination_port);
    assert(ported[start] == bytes[start] && ported[start + 1] == bytes[start + 1]);
    let request = with_ipv4_checksum(with_tcp_checksum(ported, be32(addressed, 12) as u32, destination));
    lemma_checksums_stay_apart(ported, be32(addressed, 12) as u32, destination);
    lemma_segment_bytes(bytes, 0);
    lemma_segment_bytes(request, 0);
    lemma_segment_bytes(request, 2);
}

/// What becomes of a packet that answers a proxied connection.
#[derive(Clone, Copy, Debug, PartialEq, Eq, Structural)]
pub struct NicRewrite {
    /// The peer that the packet is handed to, where it goes to the node itself. The packet is not
    /// to be proxied again.
    pub to_peer_id: Option<PeerId>,
}

/// What a peer's header says of a packet.
#[derive(Clone, Copy, Debug, PartialEq, Eq, Structural)]
pub struct PeerPacketHeader {
    /// The packet carries data, in one of the forms that proxies use.
    pub is_data: bool,
    pub no_proxy: bool,
    pub exit_node: bool,
    pub deferred_proxy: bool,
}

/// What the proxied networks say of a destination.
#[derive(Clone, Copy, Debug, PartialEq, Eq, Structural)]
pub struct CidrLookup {
    pub is_empty: bool,
    /// The real address of a destination that lies in one of the networks.
    pub real_dst: Option<u32>,
}

/// What becomes of a packet from a peer.
#[derive(Clone, Copy, Debug, PartialEq, Eq, Structural)]
pub enum PeerPacketResult {
    /// The packet is not proxied.
    NotProxied,
    /// The packet belongs to a connection that is gone.
    Dropped,
    /// The packet has been readdressed, as plain data, for the local listener. For one that opens
    /// a connection the network stack of the node's own needs a listener.
    Readdressed { opens_connection: bool },
}

pub struct TcpProxy<C> {
    pub my_peer_id: PeerId,
    pub local_port: u16,
    pub enable_smoltcp: bool,
    pub connector: C,
    pub syn_map: IndexedTable<SocketAddress, NatDstEntry>,
    pub conn_map: IndexedTable<u64, NatDstEntry>,
    pub addr_conn_map: IndexedTable<SocketAddress, u64>,
    pub next_id: u64,
}

impl<C> View for TcpProxy<C> {
    type V = TcpProxyState;

    open spec fn view(&self) -> TcpProxyState {
        TcpProxyState {
            syn: self.syn_map@,
            conn: self.conn_map@,
            addr: self.addr_conn_map@,
            next_id: self.next_id,
        }
    }
}

impl<C: NatDstConnector> TcpProxy<C> {
    pub open spec fn wf(&self) -> bool {
        &&& self.syn_map.wf()
        &&& self.conn_map.wf()
        &&& self.addr_conn_map.wf()
        &&& self@.wf()
    }

    /// Only the connections differ.
    pub open spec fn same_setup(&self, other: &Self) -> bool {
        self.my_peer_id == other.my_peer_id && self.local_port == other.local_port
            && self.enable_smoltcp == other.enable_smoltcp && self.connector == other.connector
    }

    pub fn new(my_peer_id: PeerId, connector: C) -> (r: Self)
        ensures
            r.wf(),
            r.my_peer_id == my_peer_id,
            r.local_port == 0,
            r.enable_smoltcp,
            r.connector == connector,
            r@ == (TcpProxyState {
                syn: Map::empty(),
                conn: Map::empty(),
                addr: Map::empty(),
                next_id: 0,
            }),
    {
        TcpProxy {
            my_peer_id,
            local_port: 0,
            enable_smoltcp: true,
            connector,
            syn_map: IndexedTable::new(),
            conn_map: IndexedTable::new(),
            addr_conn_map: IndexedTable::new(),
            next_id: 0,
        }
    }

    /// Tells whether the node's own network stack is used in place of the kernel's: where that is
    /// wanted, without a virtual device, and on mobile platforms.
    pub fn uses_smoltcp(use_smoltcp: bool, no_tun: bool, is_mobile: bool) -> (r: bool)
        ensures
            r == (use_smoltcp || no_tun || is_mobile),
    {
        use_smoltcp || no_tun || is_mobile
    }

    /// Takes in which network stack is listened on: the node's own at its fixed port, or else the
    /// kernel's at the port that it has chosen.
    pub fn listen_on(&mut self, smoltcp: bool, kernel_port: u16)
        ensures
            *final(self) == (TcpProxy {
                enable_smoltcp: smoltcp,
                local_port: if smoltcp {
                    SMOLTCP_LOCAL_PORT
                } else {
                    kernel_port
                },
                ..*old(self)
            }),
    {
        self.enable_smoltcp = smoltcp;
        self.local_port = if smoltcp {
            SMOLTCP_LOCAL_PORT
        } else {
            kernel_port
        };
    }

    pub fn get_local_port(&self) -> (r: u16)
        ensures
            r == self.local_port,
    {
        self.local_port
    }

    pub fn get_my_peer_id(&self) -> (r: PeerId)
        ensures
            r == self.my_peer_id,
    {
        self.my_peer_id
    }

    pub fn is_smoltcp_enabled(&self) -> (r: bool)
        ensures
            r == self.enable_smoltcp,
    {
        self.enable_smoltcp
    }

    pub fn get_transport_type(&self) -> (r: TcpProxyEntryTransportType)
        ensures
            r == self.connector.carried_by(),
    {
        self.connector.transport_type()
    }

    /// The node's address in the network stack that is in use.
    pub open spec fn local_inet(&self, ctx: &GlobalCtx) -> Option<Ipv4Inet> {
        if self.enable_smoltcp {
            Ipv4Inet::of(SMOLTCP_LOCAL_IP, SMOLTCP_PREFIX_LENGTH)
        } else {
            ctx.ipv4
        }
    }

    pub fn get_local_inet(&self, ctx: &GlobalCtx) -> (r: Option<Ipv4Inet>)
        requires
            ctx.ipv4 is Some ==> ctx.ipv4->0.wf(),
        ensures
            r == self.local_inet(ctx),
            r is Some ==> r->0.wf(),
            self.enable_smoltcp ==> r is Some,
    {
        if self.enable_smoltcp {
            Ipv4Inet::new(SMOLTCP_LOCAL_IP, SMOLTCP_PREFIX_LENGTH)
        } else {
            ctx.ipv4
        }
    }

    pub fn get_local_ip(&self, ctx: &GlobalCtx) -> (r: Option<u32>)
        requires
            ctx.ipv4 is Some ==> ctx.ipv4->0.wf(),
        ensures
            r == (match self.local_inet(ctx) {
                Some(inet) => Some(inet.address),
                None => None::<u32>,
            }),
    {
        match self.get_local_inet(ctx) {
            Some(inet) => Some(inet.address),
            None => None,
        }
    }

    fn find_exact(&self, src: &SocketAddress) -> (r: Option<NatDstEntry>)
        requires
            self.wf(),
        ensures
            r == self@.exact(*src),
    {
        match self.addr_conn_map.get(src) {
            Some(id) => self.conn_map.get(&id),
            None => self.syn_map.get(src),
        }
    }

    pub fn find_syn_entry_for_accept(
        &self,
        observed_src: SocketAddress,
        my_ipv4_inet: Option<&Ipv4Inet>,
    ) -> (r: Option<(NatDstEntry, SocketAddress)>)
        requires
            self.wf(),
            my_ipv4_inet is Some ==> my_ipv4_inet->0.wf(),
        ensures
            r == self@.waiting_for(
                observed_src,
                match my_ipv4_inet {
                    Some(inet) => Some(*inet),
                    None => None,
                },
            ),
    {
        if let Some(entry) = self.syn_map.get(&observed_src) {
            return Some((entry, observed_src));
        }
        let my_ipv4_inet = match my_ipv4_inet {
            None => {
                return None;
            },
            Some(inet) => inet,
        };
        if observed_src.ip() != IpAddress::V4(get_fake_local_ipv4(my_ipv4_inet)) {
            return None;
        }
        let mut translated_src = observed_src;
        translated_src.set_ip(IpAddress::V4(my_ipv4_inet.address));
        match self.syn_map.get(&translated_src) {
            Some(entry) => Some((entry, translated_src)),
            None => None,
        }
    }

    pub fn find_nat_entry_for_nic(
        &self,
        observed_dst: SocketAddress,
        my_ipv4_inet: &Ipv4Inet,
        allow_fake_local_fallback: bool,
    ) -> (r: Option<(NatDstEntry, SocketAddress, bool)>)
        requires
            self.wf(),
            my_ipv4_inet.wf(),
        ensures
            r == self@.answered(observed_dst, *my_ipv4_inet, allow_fake_local_fallback),
    {
        if let Some(entry) = self.find_exact(&observed_dst) {
            return Some((entry, observed_dst, false));
        }
        if !allow_fake_local_fallback || observed_dst.ip() != IpAddress::V4(
            get_fake_local_ipv4(my_ipv4_inet),
        ) {
            return None;
        }
        let mut translated_dst = observed_dst;
        translated_dst.set_ip(IpAddress::V4(my_ipv4_inet.address));
        match self.find_exact(&translated_dst) {
            Some(entry) => Some((entry, translated_dst, true)),
            None => None,
        }
    }

    /// The packet comes from the local listener, as far as its addresses tell.
    pub open spec fn from_listener(&self, ctx: &GlobalCtx, bytes: Seq<u8>, bypass: bool) -> bool {
        !bypass && self.local_inet(ctx) is Some && is_tcp_in_ipv4(bytes) && be32(bytes, 12)
            == self.local_inet(ctx)->0.address
    }

    /// The connection that a packet from the local listener answers.
    pub open spec fn answers(&self, ctx: &GlobalCtx, bytes: Seq<u8>) -> Option<
        (NatDstEntry, SocketAddress, bool),
    > {
        if be16(ipv4_payload(bytes), 0) != self.local_port {
            None
        } else {
            self@.answered(
                SocketAddress::V4 {
                    ipv4: be32(bytes, 16) as u32,
                    port: be16(ipv4_payload(bytes), 2) as u16,
                },
                self.local_inet(ctx)->0,
                !self.enable_smoltcp,
            )
        }
    }

    /// Readdresses a packet with which the local listener answers a proxied connection. Other
    /// packets are left alone.
    pub fn try_process_packet_from_nic(
        &self,
        ctx: &GlobalCtx,
        packet: &mut Vec<u8>,
        bypass: bool,
    ) -> (r: Option<NicRewrite>)
        requires
            self.wf(),
            ctx.ipv4 is Some ==> ctx.ipv4->0.wf(),
            !bypass && self.local_inet(ctx) is Some ==> has_ipv4_header(old(packet)@),
            self.from_listener(ctx, old(packet)@, bypass) ==> has_tcp_header(
                ipv4_payload(old(packet)@),
            ),
        ensures
            ({
                let found = if self.from_listener(ctx, old(packet)@, bypass) {
                    self.answers(ctx, old(packet)@)
                } else {
                    None
                };
                match found {
                    None => r is None && final(packet)@ == old(packet)@,
                    Some((entry, _, to_self)) => {
                        &&& r == Some(
                            NicRewrite {
                                to_peer_id: if to_self {
                                    Some(self.my_peer_id)
                                } else {
                                    None
                                },
                            },
                        )
                        &&& final(packet)@ == readdressed_answer(
                            old(packet)@,
                            entry.mapped_dst->ipv4,
                            entry.real_dst.spec_port(),
                            if to_self {
                                Some(self.local_inet(ctx)->0.address)
                            } else {
                                None
                            },
                        )
                    },
                }
            }),
    {
        if bypass {
            return None;
        }
        let my_ipv4_inet = match self.get_local_inet(ctx) {
            None => {
                return None;
            },
            Some(inet) => inet,
        };
        let my_ipv4 = my_ipv4_inet.address;
        let fields = match tcp_over_ipv4(packet.as_slice()) {
            None => {
                return None;
            },
            Some(ip) => {
                if ip.source != my_ipv4 {
                    return None;
                }
                match parse_tcp_packet(packet.as_slice()) {
                    None => {
                        return None;
                    },
                    Some(fields) => fields,
                }
            },
        };
        if fields.tcp.source != self.local_port {
            return None;
        }
        let (entry, dst_addr, to_self) = match self.find_nat_entry_for_nic(
            fields.dst(),
            &my_ipv4_inet,
            !self.enable_smoltcp,
        ) {
            None => {
                return None;
            },
            Some(found) => found,
        };
        proof {
            assert(entry.src == dst_addr);
            assert(entry.mapped_dst is V4);
        }
        let source = match entry.mapped_dst {
            SocketAddress::V4 { ipv4, .. } => ipv4,
            SocketAddress::V6 { .. } => 0,
        };
        let ghost given = packet@;
        proof {
            lemma_addresses_keep_the_shape(given, source, 0, 0);
            lemma_addresses_keep_the_shape(with_be32(given, 12, source), my_ipv4, 0, 0);
            lemma_read_back(with_be32(given, 12, source), 16, my_ipv4);
        }
        set_ipv4_source(packet, source);
        let destination = if to_self {
            set_ipv4_destination(packet, my_ipv4);
            my_ipv4
        } else {
            fields.ip.destination
        };
        let ghost addressed = packet@;
        proof {
            assert(be32(addressed, 16) == destination);
            lemma_addresses_keep_the_shape(addressed, 0, entry.real_dst.spec_port(), 0);
        }
        set_tcp_source(packet, entry.real_dst.port());
        proof {
            lemma_addresses_keep_the_shape(
                packet@,
                0,
                tcp_checksum(ipv4_payload(packet@), source, destination),
                16,
            );
        }
        update_tcp_packet_checksum(packet, source, destination);
        update_ip_packet_checksum(packet);
        Some(
            NicRewrite {
                to_peer_id: if to_self {
                    Some(self.my_peer_id)
                } else {
                    None
                },
            },
        )
    }
}

/// A packet from a peer with what is said of it.
#[derive(Clone, Copy, Debug, PartialEq, Eq, Structural)]
pub struct PeerPacketFacts {
    pub header: PeerPacketHeader,
    pub cidr: CidrLookup,
    pub now: u64,
    pub now_unix: u64,
}

/// The stream that a connector takes for a connection, and the streams that are left.
pub open spec fn claim_result(
    streams: PreparedStreams,
    transport: Option<ProxyTransport>,
    flow: FlowKey,
    initial_sequence: u32,
    now: u64,
) -> (Option<u64>, PreparedStreams) {
    match transport {
        None => (None, streams),
        Some(transport) => {
            let place = PreparedPlace { flow, transport };
            if claimable(streams, place, initial_sequence, now) {
                (Some(streams[place].stream), waiting(streams, now).remove(place))
            } else {
                (None, waiting(streams, now))
            }
        },
    }
}

impl<C: NatDstConnector> TcpProxy<C> {
    /// The packet is one that is proxied.
    pub open spec fn is_proxied(&self, ctx: &GlobalCtx, bytes: Seq<u8>, facts: PeerPacketFacts) -> bool {
        &&& self.connector.may_proxy(facts.cidr.is_empty, ctx)
        &&& self.local_inet(ctx) is Some
        &&& facts.header.is_data
        &&& !facts.header.no_proxy
        &&& is_tcp_in_ipv4(bytes)
        &&& self.connector.proxies(
            ctx,
            facts.cidr.real_dst is Some,
            facts.header.exit_node,
            be32(bytes, 16) as u32,
        )
    }

    /// The packet as the local listener is to get it.
    pub open spec fn for_listener(&self, ctx: &GlobalCtx, bytes: Seq<u8>) -> Seq<u8> {
        let local = self.local_inet(ctx)->0;
        readdressed_request(
            bytes,
            if !self.enable_smoltcp && be32(bytes, 12) == local.address {
                Some(fake_local_ipv4(local) as u32)
            } else {
                None
            },
            local.address,
            self.local_port,
        )
    }

    /// The connection that a packet opens.
    pub open spec fn opened(
        &self,
        fields: TcpPacketFields,
        facts: PeerPacketFacts,
        claimed_stream: Option<u64>,
    ) -> NatDstEntry {
        NatDstEntry {
            id: self.next_id,
            src: fields.spec_src(),
            real_dst: SocketAddress::V4 {
                ipv4: match facts.cidr.real_dst {
                    Some(ip) => ip,
                    None => fields.ip.destination,
                },
                port: fields.tcp.destination,
            },
            mapped_dst: fields.spec_dst(),
            start_time: facts.now,
            start_time_unix: facts.now_unix,
            state: TcpProxyEntryState::SynReceived,
            initial_sequence: if facts.header.deferred_proxy {
                Some(fields.tcp.sequence)
            } else {
                None
            },
            claimed_stream,
        }
    }

    /// The packet repeats the opening of a deferred connection that is known.
    pub open spec fn repeats(&self, fields: TcpPacketFields, facts: PeerPacketFacts) -> bool {
        let src = fields.spec_src();
        facts.header.deferred_proxy && (self@.addr.contains_key(src) || (self@.syn.contains_key(src)
            && self@.syn[src].initial_sequence == Some(fields.tcp.sequence)
            && self@.syn[src].mapped_dst == fields.spec_dst()))
    }

    /// What becomes of a packet that is proxied.
    pub open spec fn handles(
        &self,
        ctx: &GlobalCtx,
        bytes: Seq<u8>,
        fields: TcpPacketFields,
        facts: PeerPacketFacts,
        streams: PreparedStreams,
        result: PeerPacketResult,
        after: TcpProxyState,
        bytes_after: Seq<u8>,
        streams_after: PreparedStreams,
    ) -> bool {
        let src = fields.spec_src();
        if !fields.tcp.initial() {
            &&& after == self@
            &&& streams_after == streams
            &&& if self@.knows(src) {
                result == (PeerPacketResult::Readdressed { opens_connection: false }) && bytes_after
                    == self.for_listener(ctx, bytes)
            } else {
                result == PeerPacketResult::NotProxied && bytes_after == bytes
            }
        } else if self.repeats(fields, facts) {
            &&& after == self@
            &&& streams_after == streams
            &&& result == (PeerPacketResult::Readdressed { opens_connection: true })
            &&& bytes_after == self.for_listener(ctx, bytes)
        } else {
            let claim = if facts.header.deferred_proxy {
                claim_result(
                    streams,
                    self.connector.claims(),
                    FlowKey { src, dst: fields.spec_dst() },
                    fields.tcp.sequence,
                    facts.now,
                )
            } else {
                (None, streams)
            };
            &&& streams_after == claim.1
            &&& if facts.header.deferred_proxy && claim.0 is None {
                result == PeerPacketResult::Dropped && after == self@ && bytes_after == bytes
            } else {
                &&& result == (PeerPacketResult::Readdressed { opens_connection: true })
                &&& bytes_after == self.for_listener(ctx, bytes)
                &&& after == (TcpProxyState {
                    syn: self@.syn.insert(src, self.opened(fields, facts, claim.0)),
                    next_id: (self@.next_id + 1) as u64,
                    ..self@
                })
            }
        }
    }

    fn readdress_for_listener(&self, local: &Ipv4Inet, fields: &TcpPacketFields, packet: &mut Vec<u8>)
        requires
            local.wf(),
            fields.of(old(packet)@),
            has_ipv4_header(old(packet)@),
            has_tcp_header(ipv4_payload(old(packet)@)),
        ensures
            final(packet)@ == readdressed_request(
                old(packet)@,
                if !self.enable_smoltcp && be32(old(packet)@, 12) == local.address {
                    Some(fake_local_ipv4(*local) as u32)
                } else {
                    None
                },
                local.address,
                self.local_port,
            ),
    {
        let ghost given = packet@;
        let mut source = fields.ip.source;
        if !self.enable_smoltcp && source == local.address {
            // The answer has to come back through the virtual interface.
            source = get_fake_local_ipv4(local);
            proof {
                lemma_addresses_keep_the_shape(given, source, 0, 0);
                lemma_read_back(given, 12, source);
            }
            set_ipv4_source(packet, source);
        }
        let ghost sourced = packet@;
        proof {
            assert(be32(sourced, 12) == source);
            lemma_addresses_keep_the_shape(sourced, local.address, 0, 0);
        }
        set_ipv4_destination(packet, local.address);
        proof {
            lemma_addresses_keep_the_shape(packet@, 0, self.local_port, 2);
        }
        set_tcp_destination(packet, self.local_port);
        proof {
            lemma_addresses_keep_the_shape(
                packet@,
                0,
                tcp_checksum(ipv4_payload(packet@), source, local.address),
                16,
            );
        }
        update_tcp_packet_checksum(packet, source, local.address);
        update_ip_packet_checksum(packet);
    }

    fn claim_deferred_stream(
        &self,
        prepared: &mut PreparedProxyStore,
        flow: FlowKey,
        initial_sequence: u32,
        now: u64,
    ) -> (r: Option<u64>)
        requires
            old(prepared).wf(),
        ensures
            final(prepared).wf(),
            (r, final(prepared)@) == claim_result(
                old(prepared)@,
                self.connector.claims(),
                flow,
                initial_sequence,
                now,
            ),
    {
        match self.connector.claimed_transport() {
            None => None,
            Some(transport) => prepared.claim_for_syn(flow, transport, initial_sequence, now),
        }
    }

    fn enter_syn(&mut self, entry: NatDstEntry)
        requires
            old(self).wf(),
            entry.id == old(self).next_id,
            old(self).next_id < u64::MAX,
            entry.mapped_dst is V4,
            entry.state is SynReceived,
        ensures
            final(self).wf(),
            final(self).same_setup(old(self)),
            final(self)@ == (TcpProxyState {
                syn: old(self)@.syn.insert(entry.src, entry),
                next_id: (old(self)@.next_id + 1) as u64,
                ..old(self)@
            }),
    {
        self.next_id = self.next_id + 1;
        self.syn_map.insert(entry.src, entry);
        assert(self@ =~= (TcpProxyState {
            syn: old(self)@.syn.insert(entry.src, entry),
            next_id: (old(self)@.next_id + 1) as u64,
            ..old(self)@
        }));
    }

    /// Takes in a packet from a peer. One that is proxied is readdressed for the local listener;
    /// one that opens a connection is remembered. A deferred connection needs the stream that has
    /// been prepared for it.
    pub fn try_handle_peer_packet(
        &mut self,
        ctx: &GlobalCtx,
        packet: &mut Vec<u8>,
        facts: PeerPacketFacts,
        prepared: &mut PreparedProxyStore,
    ) -> (r: PeerPacketResult)
        requires
            old(self).wf(),
            old(self).next_id < u64::MAX,
            old(prepared).wf(),
            ctx.ipv4 is Some ==> ctx.ipv4->0.wf(),
            old(self).is_proxied(ctx, old(packet)@, facts) ==> has_tcp_header(
                ipv4_payload(old(packet)@),
            ),
        ensures
            final(self).wf(),
            final(prepared).wf(),
            final(self).same_setup(old(self)),
            !old(self).is_proxied(ctx, old(packet)@, facts) ==> r == PeerPacketResult::NotProxied
                && final(self)@ == old(self)@ && final(packet)@ == old(packet)@ && final(prepared)@
                == old(prepared)@,
            old(self).is_proxied(ctx, old(packet)@, facts) ==> exists|fields: TcpPacketFields|
                #[trigger] fields.of(old(packet)@) && old(self).handles(
                    ctx,
                    old(packet)@,
                    fields,
                    facts,
                    old(prepared)@,
                    r,
                    final(self)@,
                    final(packet)@,
                    final(prepared)@,
                ),
    {
        if !self.connector.check_packet_from_peer_fast(facts.cidr.is_empty, ctx) {
            return PeerPacketResult::NotProxied;
        }
        let local = match self.get_local_inet(ctx) {
            None => {
                return PeerPacketResult::NotProxied;
            },
            Some(inet) => inet,
        };
        if !facts.header.is_data || facts.header.no_proxy {
            return PeerPacketResult::NotProxied;
        }
        let ip = match tcp_over_ipv4(packet.as_slice()) {
            None => {
                return PeerPacketResult::NotProxied;
            },
            Some(ip) => ip,
        };
        if !self.connector.check_packet_from_peer(
            ctx,
            facts.cidr.real_dst.is_some(),
            facts.header.exit_node,
            ip.destination,
        ) {
            return PeerPacketResult::NotProxied;
        }
        let fields = match parse_tcp_packet(packet.as_slice()) {
            None => {
                return PeerPacketResult::NotProxied;
            },
            Some(fields) => fields,
        };
        assert(fields.of(packet@));
        let src = fields.src();
        let mapped_dst = fields.dst();
        let opens_connection = fields.tcp.is_initial();
        if opens_connection {
            let initial_sequence = fields.tcp.sequence;
            let known = facts.header.deferred_proxy && (self.addr_conn_map.contains_key(&src)
                || match self.syn_map.get(&src) {
                Some(entry) => match entry.initial_sequence {
                    Some(sequence) => sequence == initial_sequence && entry.mapped_dst == mapped_dst,
                    None => false,
                },
                None => false,
            });
            if !known {
                let mut claimed_stream: Option<u64> = None;
                if facts.header.deferred_proxy {
                    claimed_stream = self.claim_deferred_stream(
                        prepared,
                        FlowKey { src, dst: mapped_dst },
                        initial_sequence,
                        facts.now,
                    );
                    if claimed_stream.is_none() {
                        return PeerPacketResult::Dropped;
                    }
                }
                let real_ip = match facts.cidr.real_dst {
                    Some(ip) => ip,
                    None => fields.ip.destination,
                };
                let entry = NatDstEntry::new(
                    self.next_id,
                    src,
                    SocketAddress::V4 { ipv4: real_ip, port: fields.tcp.destination },
                    mapped_dst,
                    if facts.header.deferred_proxy {
                        Some(initial_sequence)
                    } else {
                        None
                    },
                    claimed_stream,
                    facts.now,
                    facts.now_unix,
                );
                self.enter_syn(entry);
            }
        } else if !self.addr_conn_map.contains_key(&src) && !self.syn_map.contains_key(&src) {
            return PeerPacketResult::NotProxied;
        }
        self.readdress_for_listener(&local, &fields, packet);
        PeerPacketResult::Readdressed { opens_connection }
    }

    pub fn is_tcp_proxy_connection(&self, src: SocketAddress) -> (r: bool)
        requires
            self.wf(),
        ensures
            r == self@.knows(src),
    {
        self.syn_map.contains_key(&src) || self.addr_conn_map.contains_key(&src)
    }

    /// Takes in that the local listener has accepted a connection. Gives the connection's number,
    /// or nothing for a source of which nothing is known.
    pub fn accept(&mut self, ctx: &GlobalCtx, observed_src: SocketAddress) -> (r: Option<u64>)
        requires
            old(self).wf(),
            ctx.ipv4 is Some ==> ctx.ipv4->0.wf(),
        ensures
            final(self).wf(),
            final(self).same_setup(old(self)),
            match old(self)@.waiting_for(observed_src, ctx.ipv4) {
                None => r is None && final(self)@ == old(self)@,
                Some((entry, src)) => r == Some(entry.id) && final(self)@ == (TcpProxyState {
                    syn: old(self)@.syn.remove(src),
                    conn: old(self)@.conn.insert(
                        entry.id,
                        NatDstEntry { state: TcpProxyEntryState::ConnectingDst, ..entry },
                    ),
                    addr: old(self)@.addr.insert(src, entry.id),
                    ..old(self)@
                }),
            },
    {
        let found = match &ctx.ipv4 {
            Some(inet) => self.find_syn_entry_for_accept(observed_src, Some(inet)),
            None => self.find_syn_entry_for_accept(observed_src, None),
        };
        match found {
            None => None,
            Some((entry, src)) => {
                let mut accepted = entry;
                accepted.state = TcpProxyEntryState::ConnectingDst;
                self.addr_conn_map.insert(src, entry.id);
                self.conn_map.insert(entry.id, accepted);
                let removed = self.syn_map.remove(&src);
                assert(self@ =~= (TcpProxyState {
                    syn: old(self)@.syn.remove(src),
                    conn: old(self)@.conn.insert(entry.id, accepted),
                    addr: old(self)@.addr.insert(src, entry.id),
                    ..old(self)@
                }));
                Some(entry.id)
            },
        }
    }
}

/// The connections without one that has been accepted. A newer one of the same source stays.
pub open spec fn without_connection(state: TcpProxyState, id: u64) -> TcpProxyState {
    if state.conn.contains_key(id) {
        let src = state.conn[id].src;
        TcpProxyState {
            conn: state.conn.remove(id),
            addr: if state.addr.contains_key(src) && state.addr[src] == id {
                state.addr.remove(src)
            } else {
                state.addr
            },
            ..state
        }
    } else {
        state
    }
}

/// The connections with another state of one.
pub open spec fn with_connection(state: TcpProxyState, id: u64, entry: NatDstEntry) -> TcpProxyState {
    TcpProxyState { conn: state.conn.insert(id, entry), ..state }
}

/// What the host says of a destination.
#[derive(Clone, Copy, Debug, PartialEq, Eq, Structural)]
pub struct HostFacts {
    pub dst_is_local_phy_ip: bool,
    pub is_protected_tcp_port: bool,
    pub local_port_occupied: bool,
}

/// What is done with a connection that has been accepted.
#[derive(Clone, Copy, Debug, PartialEq, Eq, Structural)]
pub enum ConnectDecision {
    /// The connection is not known any more.
    Gone,
    /// The destination must not be proxied to; the connection has been dropped.
    Denied,
    /// Connect to the destination, over the stream if one has been prepared.
    Connect { src: SocketAddress, nat_dst: SocketAddress, claimed_stream: Option<u64> },
}

/// Where a connection really goes: to the loopback address if its destination is the node itself.
pub open spec fn connect_target(ctx: &GlobalCtx, real_dst: SocketAddress) -> SocketAddress {
    if ctx.local_virtual_ip(real_dst.spec_ip()) {
        SocketAddress::V4 { ipv4: 0x7f00_0001, port: real_dst.spec_port() }
    } else {
        real_dst
    }
}

/// The state that follows while a connection is being closed.
pub open spec fn closing_after(state: TcpProxyEntryState) -> TcpProxyEntryState {
    match state {
        TcpProxyEntryState::ClosingSrc => TcpProxyEntryState::ClosingDst,
        TcpProxyEntryState::ClosingDst => TcpProxyEntryState::Closed,
        TcpProxyEntryState::Closed => TcpProxyEntryState::Closed,
        _ => TcpProxyEntryState::ClosingSrc,
    }
}

impl<C: NatDstConnector> TcpProxy<C> {
    /// Forgets a connection that has been accepted.
    pub fn remove_entry_from_all_conn_map(&mut self, id: u64)
        requires
            old(self).wf(),
        ensures
            final(self).wf(),
            final(self).same_setup(old(self)),
            final(self)@ == without_connection(old(self)@, id),
    {
        match self.conn_map.get(&id) {
            None => {},
            Some(entry) => {
                let removed = self.conn_map.remove(&id);
                if let Some(current) = self.addr_conn_map.get(&entry.src) {
                    if current == id {
                        let removed = self.addr_conn_map.remove(&entry.src);
                    }
                }
                assert(self@ =~= without_connection(old(self)@, id));
            },
        }
    }

    fn store(&mut self, id: u64, entry: NatDstEntry)
        requires
            old(self).wf(),
            old(self)@.conn.contains_key(id),
            entry.id == id,
            entry.src == old(self)@.conn[id].src,
            entry.mapped_dst == old(self)@.conn[id].mapped_dst,
        ensures
            final(self).wf(),
            final(self).same_setup(old(self)),
            final(self)@ == with_connection(old(self)@, id, entry),
    {
        self.conn_map.insert(id, entry);
        assert(self@ =~= with_connection(old(self)@, id, entry));
    }

    /// Decides what is done with a connection that has been accepted.
    pub fn connect_to_nat_dst(&mut self, ctx: &GlobalCtx, id: u64, host: HostFacts) -> (r:
        ConnectDecision)
        requires
            old(self).wf(),
        ensures
            final(self).wf(),
            final(self).same_setup(old(self)),
            ({
                let entry = old(self)@.conn[id];
                if !old(self)@.conn.contains_key(id) {
                    r == ConnectDecision::Gone && final(self)@ == old(self)@
                } else if ctx.proxy_denied(
                    entry.real_dst,
                    false,
                    true,
                    host.dst_is_local_phy_ip,
                    host.is_protected_tcp_port,
                    host.local_port_occupied,
                ) {
                    r == ConnectDecision::Denied && final(self)@ == without_connection(
                        old(self)@,
                        id,
                    )
                } else {
                    r == (ConnectDecision::Connect {
                        src: entry.src,
                        nat_dst: connect_target(ctx, entry.real_dst),
                        claimed_stream: entry.claimed_stream,
                    }) && final(self)@ == with_connection(
                        old(self)@,
                        id,
                        NatDstEntry { claimed_stream: None, ..entry },
                    )
                }
            }),
    {
        let entry = match self.conn_map.get(&id) {
            None => {
                return ConnectDecision::Gone;
            },
            Some(entry) => entry,
        };
        if ctx.should_deny_proxy(
            &entry.real_dst,
            false,
            host.dst_is_local_phy_ip,
            host.is_protected_tcp_port,
            host.local_port_occupied,
        ) {
            self.remove_entry_from_all_conn_map(id);
            return ConnectDecision::Denied;
        }
        let nat_dst = if ctx.is_ip_local_virtual_ip(&entry.real_dst.ip()) {
            SocketAddress::V4 { ipv4: 0x7f00_0001, port: entry.real_dst.port() }
        } else {
            entry.real_dst
        };
        let mut taken = entry;
        taken.claimed_stream = None;
        self.store(id, taken);
        ConnectDecision::Connect { src: entry.src, nat_dst, claimed_stream: entry.claimed_stream }
    }

    /// Takes in whether the destination could be connected to. A connection whose destination
    /// could not is dropped.
    pub fn on_connected(&mut self, id: u64, connected: bool)
        requires
            old(self).wf(),
            old(self)@.conn.contains_key(id) ==> old(self)@.conn[id].state is ConnectingDst,
        ensures
            final(self).wf(),
            final(self).same_setup(old(self)),
            final(self)@ == (if !old(self)@.conn.contains_key(id) {
                old(self)@
            } else if connected {
                with_connection(
                    old(self)@,
                    id,
                    NatDstEntry { state: TcpProxyEntryState::Connected, ..old(self)@.conn[id] },
                )
            } else {
                without_connection(old(self)@, id)
            }),
    {
        if !connected {
            self.remove_entry_from_all_conn_map(id);
            return;
        }
        if let Some(entry) = self.conn_map.get(&id) {
            let mut changed = entry;
            changed.state = TcpProxyEntryState::Connected;
            self.store(id, changed);
        }
    }

    /// Goes on closing a connection: first towards its source, then towards its destination.
    pub fn close_further(&mut self, id: u64)
        requires
            old(self).wf(),
        ensures
            final(self).wf(),
            final(self).same_setup(old(self)),
            final(self)@ == (if old(self)@.conn.contains_key(id) {
                with_connection(
                    old(self)@,
                    id,
                    NatDstEntry {
                        state: closing_after(old(self)@.conn[id].state),
                        ..old(self)@.conn[id]
                    },
                )
            } else {
                old(self)@
            }),
    {
        if let Some(entry) = self.conn_map.get(&id) {
            let mut changed = entry;
            changed.state = match entry.state {
                TcpProxyEntryState::ClosingSrc => TcpProxyEntryState::ClosingDst,
                TcpProxyEntryState::ClosingDst => TcpProxyEntryState::Closed,
                TcpProxyEntryState::Closed => TcpProxyEntryState::Closed,
                _ => TcpProxyEntryState::ClosingSrc,
            };
            self.store(id, changed);
        }
    }

    /// Forgets the connections that have waited too long to be accepted.
    pub fn clean_syn_map(&mut self, now: u64)
        requires
            old(self).wf(),
        ensures
            final(self).wf(),
            final(self).same_setup(old(self)),
            final(self)@ == (TcpProxyState {
                syn: old(self)@.syn.restrict(
                    Set::new(
                        |src: SocketAddress|
                            old(self)@.syn.contains_key(src) && time_since(
                                now,
                                old(self)@.syn[src].start_time,
                            ) <= SYN_ENTRY_TTL,
                    ),
                ),
                ..old(self)@
            }),
    {
        let ghost before = self@;
        let mut i: usize = self.syn_map.len();
        while i > 0
            invariant
                self.wf(),
                self.same_setup(old(self)),
                before == old(self)@,
                self@ == (TcpProxyState { syn: self@.syn, ..before }),
                i <= self.syn_map.pairs().len(),
                forall|k: SocketAddress| #[trigger]
                    self@.syn.contains_key(k) ==> before.syn.contains_key(k) && self@.syn[k]
                        == before.syn[k],
                forall|k: SocketAddress| #[trigger]
                    before.syn.contains_key(k) && !self@.syn.contains_key(k) ==> time_since(
                        now,
                        before.syn[k].start_time,
                    ) > SYN_ENTRY_TTL,
                forall|j: int|
                    i <= j < self.syn_map.pairs().len() ==> time_since(
                        now,
                        (#[trigger] self.syn_map.pairs()[j]).1.start_time,
                    ) <= SYN_ENTRY_TTL,
            decreases i,
        {
            i -= 1;
            if now.saturating_sub(self.syn_map.at(i).1.start_time) > SYN_ENTRY_TTL {
                let ghost earlier = *self;
                proof {
                    self.syn_map.lemma_view();
                }
                let removed = self.syn_map.remove_at(i);
                proof {
                    assert forall|j: int| i <= j < self.syn_map.pairs().len() implies time_since(
                        now,
                        (#[trigger] self.syn_map.pairs()[j]).1.start_time,
                    ) <= SYN_ENTRY_TTL by {
                        assert(self.syn_map.pairs()[j] == earlier.syn_map.pairs()[j + 1]);
                    }
                }
            }
        }
        proof {
            self.syn_map.lemma_view();
            assert forall|k: SocketAddress| #[trigger] self@.syn.contains_key(k) implies time_since(
                now,
                self@.syn[k].start_time,
            ) <= SYN_ENTRY_TTL by {
                let j = choose|j: int|
                    0 <= j < self.syn_map.pairs().len() && (#[trigger] self.syn_map.pairs()[j]).0
                        == k;
                assert(self@.syn[k] == self.syn_map.pairs()[j].1);
            }
            assert(self@.syn =~= before.syn.restrict(
                Set::new(
                    |src: SocketAddress|
                        before.syn.contains_key(src) && time_since(now, before.syn[src].start_time)
                            <= SYN_ENTRY_TTL,
                ),
            ));
        }
    }

    /// Lists the connections: those that wait to be accepted, then those that have been.
    pub fn list_proxy_entries(&self) -> (r: Vec<TcpProxyEntry>)
        requires
            self.wf(),
        ensures
            r@.len() == self.syn_map.pairs().len() + self.conn_map.pairs().len(),
            forall|i: int|
                0 <= i < self.syn_map.pairs().len() ==> self.syn_map.pairs()[i].1.shown_as(
                    self.connector.carried_by(),
                    #[trigger] r@[i],
                ),
            forall|i: int|
                self.syn_map.pairs().len() <= i < r@.len() ==> self.conn_map.pairs()[i
                    - self.syn_map.pairs().len()].1.shown_as(
                    self.connector.carried_by(),
                    #[trigger] r@[i],
                ),
    {
        let transport_type = self.connector.transport_type();
        let mut entries: Vec<TcpProxyEntry> = Vec::new();
        let mut i: usize = 0;
        while i < self.syn_map.len()
            invariant
                self.wf(),
                transport_type == self.connector.carried_by(),
                i <= self.syn_map.pairs().len(),
                entries@.len() == i,
                forall|j: int|
                    0 <= j < i ==> self.syn_map.pairs()[j].1.shown_as(
                        transport_type,
                        #[trigger] entries@[j],
                    ),
            decreases self.syn_map.pairs().len() - i,
        {
            entries.push(self.syn_map.at(i).1.parse_as_pb(transport_type));
            i += 1;
        }
        let mut k: usize = 0;
        while k < self.conn_map.len()
            invariant
                self.wf(),
                transport_type == self.connector.carried_by(),
                k <= self.conn_map.pairs().len(),
                entries@.len() == self.syn_map.pairs().len() + k,
                forall|j: int|
                    0 <= j < self.syn_map.pairs().len() ==> self.syn_map.pairs()[j].1.shown_as(
                        transport_type,
                        #[trigger] entries@[j],
                    ),
                forall|j: int|
                    self.syn_map.pairs().len() <= j < entries@.len() ==> self.conn_map.pairs()[j
                        - self.syn_map.pairs().len()].1.shown_as(
                        transport_type,
                        #[trigger] entries@[j],
                    ),
            decreases self.conn_map.pairs().len() - k,
        {
            entries.push(self.conn_map.at(k).1.parse_as_pb(transport_type));
            k += 1;
        }
        entries
    }
}

/// The peer sees the answers to its connection come from where it has sent its request to,
/// wherever the connection is proxied to.
pub proof fn law_answers_come_from_where_the_request_went<C: NatDstConnector>(
    proxy: TcpProxy<C>,
    request: TcpPacketFields,
    facts: PeerPacketFacts,
    claimed_stream: Option<u64>,
    answer: Seq<u8>,
    own_destination: Option<u32>,
    seen: TcpPacketFields,
)
    requires
        has_ipv4_header(answer),
        has_tcp_header(ipv4_payload(answer)),
        ({
            let entry = proxy.opened(request, facts, claimed_stream);
            seen.of(
                readdressed_answer(
                    answer,
                    entry.mapped_dst->ipv4,
                    entry.real_dst.spec_port(),
                    own_destination,
                ),
            )
        }),
    ensures
        seen.spec_src() == request.spec_dst(),
{
    let entry = proxy.opened(request, facts, claimed_stream);
    law_answer_is_readdressed(
        answer,
        entry.mapped_dst->ipv4,
        entry.real_dst.spec_port(),
        own_destination,
    );
}

/// Forgetting a connection forgets its source only if the source stands for it: a newer connection
/// of the same source stays known.
pub proof fn law_newer_connection_stays(state: TcpProxyState, old_id: u64, src: SocketAddress)
    requires
        state.wf(),
        state.addr.contains_key(src),
        state.addr[src] != old_id,
    ensures
        without_connection(state, old_id).addr.contains_key(src),
        without_connection(state, old_id).addr[src] == state.addr[src],
        without_connection(state, old_id).exact(src) == state.exact(src),
{
}

/// The address that is connected to is never a virtual address of the node itself: where the
/// destination is one, it is the loopback address 127.0.0.1 with the destination's port. Every other
/// destination is connected to as it is.
pub proof fn law_own_addresses_are_reached_by_loopback(ctx: &GlobalCtx, real_dst: SocketAddress)
    ensures
        ({
            let target = connect_target(ctx, real_dst);
            let own = match real_dst {
                SocketAddress::V4 { ipv4, .. } => ctx.ipv4 is Some && ctx.ipv4->0.address == ipv4,
                SocketAddress::V6 { ipv6, .. } => (ctx.ipv6 is Some && ctx.ipv6->0.address == ipv6)
                    || (ctx.public_ipv6_lease is Some && ctx.public_ipv6_lease->0.address == ipv6),
            };
            let port = match real_dst {
                SocketAddress::V4 { port, .. } => port,
                SocketAddress::V6 { port, .. } => port,
            };
            &&& own ==> target == (SocketAddress::V4 { ipv4: 0x7f00_0001u32, port })
            &&& !own ==> target == real_dst
            &&& !(ctx.ipv4 is Some && ctx.ipv4->0.address == 0x7f00_0001)
                ==> !ctx.local_virtual_ip(target.spec_ip())
        }),
{
}

/// A connection is closed towards its source first, then towards its destination, and then stays
/// closed.
pub proof fn law_closing_goes_on_to_the_end(state: TcpProxyEntryState)
    ensures
        !(state is ClosingSrc) && !(state is ClosingDst) && !(state is Closed) ==> closing_after(state)
            is ClosingSrc && closing_after(closing_after(state)) is ClosingDst,
        state is ClosingSrc ==> closing_after(state) is ClosingDst,
        state is ClosingDst ==> closing_after(state) is Closed,
        state is Closed ==> closing_after(state) is Closed,
        closing_after(closing_after(closing_after(state))) is Closed,
{
}

/// A packet is proxied only if it is TCP over IPv4, carries data and may be proxied, and only to a
/// proxied network, through an exit node, or to the node itself where it has no network device. Where
/// the proxied networks are not empty, every packet to one of them is.
pub proof fn law_packets_are_proxied_for_a_reason(
    proxy: TcpProxy<NatDstTcpConnector>,
    ctx: &GlobalCtx,
    bytes: Seq<u8>,
    facts: PeerPacketFacts,
)
    ensures
        proxy.is_proxied(ctx, bytes, facts) ==> {
            &&& is_tcp_in_ipv4(bytes)
            &&& facts.header.is_data && !facts.header.no_proxy
            &&& facts.cidr.real_dst is Some || facts.header.exit_node || (ctx.flags.no_tun
                && ctx.ipv4 is Some && ctx.ipv4->0.address == be32(bytes, 16))
            &&& facts.cidr.is_empty ==> ctx.flags.enable_exit_node || ctx.flags.no_tun
            &&& ctx.ipv4 is Some || proxy.enable_smoltcp
        },
        is_tcp_in_ipv4(bytes) && facts.header.is_data && !facts.header.no_proxy && (ctx.ipv4 is Some
            || proxy.enable_smoltcp) && (!facts.cidr.is_empty || ctx.flags.enable_exit_node
            || ctx.flags.no_tun) && (facts.cidr.real_dst is Some || facts.header.exit_node)
            ==> proxy.local_inet(ctx) is None || proxy.is_proxied(ctx, bytes, facts),
        !proxy.enable_smoltcp ==> proxy.local_inet(ctx) == ctx.ipv4,
{
}

/// The local listener gets a packet at its own address and port. Where the packet comes from the node
/// itself and the host's network stack is in use, its source is another host of the node's network;
/// otherwise its source stays.
pub proof fn law_listener_gets_packets_at_its_address<C: NatDstConnector>(
    proxy: TcpProxy<C>,
    ctx: &GlobalCtx,
    bytes: Seq<u8>,
)
    requires
        has_ipv4_header(bytes),
        has_tcp_header(ipv4_payload(bytes)),
        proxy.local_inet(ctx) is Some,
        proxy.local_inet(ctx)->0.wf(),
    ensures
        ({
            let local = proxy.local_inet(ctx)->0;
            let request = proxy.for_listener(ctx, bytes);
            &&& be32(request, 16) == local.address
            &&& be16(ipv4_payload(request), 2) == proxy.local_port
            &&& be16(ipv4_payload(request), 0) == be16(ipv4_payload(bytes), 0)
            &&& proxy.enable_smoltcp || be32(bytes, 12) != local.address ==> be32(request, 12)
                == be32(bytes, 12)
            &&& !proxy.enable_smoltcp && be32(bytes, 12) == local.address && local.first < local.last
                ==> be32(request, 12) != local.address && local.first <= be32(request, 12)
                <= local.last
        }),
{
    let local = proxy.local_inet(ctx)->0;
    let stand_in = if !proxy.enable_smoltcp && be32(bytes, 12) == local.address {
        Some(fake_local_ipv4(local) as u32)
    } else {
        None
    };
    law_request_is_readdressed(bytes, stand_in, local.address, proxy.local_port);
    law_stand_in_is_another_host(local);
}

/// A connection goes to the address that the proxied networks have for its destination or, where they
/// have none, to its destination; the port stays. The peer's view of the destination is kept.
pub proof fn law_connections_go_where_the_networks_say<C: NatDstConnector>(
    proxy: TcpProxy<C>,
    fields: TcpPacketFields,
    facts: PeerPacketFacts,
    claimed_stream: Option<u64>,
)
    ensures
        ({
            let entry = proxy.opened(fields, facts, claimed_stream);
            &&& entry.src == (SocketAddress::V4 { ipv4: fields.ip.source, port: fields.tcp.source })
            &&& entry.mapped_dst == (SocketAddress::V4 {
                ipv4: fields.ip.destination,
                port: fields.tcp.destination,
            })
            &&& entry.real_dst.spec_port() == fields.tcp.destination
            &&& facts.cidr.real_dst matches Some(ip) ==> entry.real_dst.spec_ip() == IpAddress::V4(ip)
            &&& facts.cidr.real_dst is None ==> entry.real_dst == entry.mapped_dst
            &&& entry.start_time == facts.now
            &&& entry.state is SynReceived
            &&& entry.claimed_stream == claimed_stream
            &&& entry.initial_sequence is Some <==> facts.header.deferred_proxy
            &&& entry.initial_sequence is Some ==> entry.initial_sequence->0 == fields.tcp.sequence
        }),
{
}

/// An accepted connection is the waiting one of its source; where there is none and the source stands
/// for the node, the waiting one of the node's own address and the same port.
pub proof fn law_stand_in_finds_the_own_connection(
    state: TcpProxyState,
    observed: SocketAddress,
    local: Ipv4Inet,
)
    requires
        local.wf(),
        observed is V4,
    ensures
        ({
            let own = SocketAddress::V4 { ipv4: local.address, port: observed->V4_port };
            let seen_as_another = observed->ipv4 == fake_local_ipv4(local);
            &&& state.waiting_for(observed, Some(local)) == (if state.syn.contains_key(observed) {
                Some((state.syn[observed], observed))
            } else if seen_as_another && state.syn.contains_key(own) {
                Some((state.syn[own], own))
            } else {
                None
            })
            &&& state.waiting_for(observed, None) is Some <==> state.syn.contains_key(observed)
            &&& !state.knows(observed) ==> (state.answered(observed, local, true) is Some
                <==> seen_as_another && state.knows(own))
            &&& !state.knows(observed) && seen_as_another && state.knows(own) ==> state.answered(
                observed,
                local,
                true,
            ) == Some((state.exact(own)->0, own, true))
            &&& !state.knows(observed) ==> state.answered(observed, local, false) is None
        }),
{
}

/// A packet of a connection that nobody knows is left as it is, and a packet that repeats the opening of
/// a deferred connection opens no second one. A deferred connection is opened only over a stream that
/// was prepared for it, which is then taken; any other connection is opened and takes no stream.
pub proof fn law_connections_open_once<C: NatDstConnector>(
    proxy: TcpProxy<C>,
    ctx: &GlobalCtx,
    bytes: Seq<u8>,
    fields: TcpPacketFields,
    facts: PeerPacketFacts,
    streams: PreparedStreams,
    result: PeerPacketResult,
    after: TcpProxyState,
    bytes_after: Seq<u8>,
    streams_after: PreparedStreams,
)
    requires
        proxy@.wf(),
        proxy.handles(
            ctx,
            bytes,
            fields,
            facts,
            streams,
            result,
            after,
            bytes_after,
            streams_after,
        ),
    ensures
        ({
            let src = fields.spec_src();
            let opening = fields.tcp.initial();
            let place = PreparedPlace {
                flow: FlowKey { src, dst: fields.spec_dst() },
                transport: proxy.connector.claims()->0,
            };
            &&& !opening && !proxy@.syn.contains_key(src) && !proxy@.addr.contains_key(src)
                ==> result is NotProxied && bytes_after == bytes && after == proxy@
            &&& !opening && (proxy@.syn.contains_key(src) || proxy@.addr.contains_key(src))
                ==> result is Readdressed && !result->opens_connection && after == proxy@
            &&& opening && facts.header.deferred_proxy && proxy@.addr.contains_key(src)
                ==> result is Readdressed && after == proxy@ && streams_after == streams
            &&& opening && !facts.header.deferred_proxy ==> {
                &&& result is Readdressed && result->opens_connection
                &&& after.syn.contains_key(src) && after.syn[src].id == proxy.next_id
                &&& after.syn[src].claimed_stream is None
                &&& streams_after == streams
            }
            &&& after.syn.contains_key(src) && after != proxy@ && facts.header.deferred_proxy ==> {
                &&& after.syn[src].claimed_stream is Some
                &&& proxy.connector.claims() is Some
                &&& streams.contains_key(place) && streams[place].expires_at > facts.now
                &&& streams[place].key.initial_sequence == fields.tcp.sequence
                &&& after.syn[src].claimed_stream == Some(streams[place].stream)
                &&& !streams_after.contains_key(place)
            }
            &&& result is Dropped ==> opening && facts.header.deferred_proxy && after == proxy@
                && bytes_after == bytes
            &&& after != proxy@ ==> after.next_id == proxy.next_id + 1 || proxy.next_id == u64::MAX
            &&& after.conn == proxy@.conn && after.addr == proxy@.addr
        }),
{
}

/// Only packets from the node's own address and the listener's port answer proxied connections, and
/// none that bypasses the proxy.
pub proof fn law_only_the_listener_answers<C: NatDstConnector>(
    proxy: TcpProxy<C>,
    ctx: &GlobalCtx,
    bytes: Seq<u8>,
    bypass: bool,
)
    ensures
        proxy.from_listener(ctx, bytes, bypass) ==> !bypass && is_tcp_in_ipv4(bytes)
            && proxy.local_inet(ctx) is Some && be32(bytes, 12) == proxy.local_inet(ctx)->0.address,
        !bypass && is_tcp_in_ipv4(bytes) && !proxy.enable_smoltcp && ctx.ipv4 is Some && be32(
            bytes,
            12,
        ) == ctx.ipv4->0.address ==> proxy.from_listener(ctx, bytes, bypass),
        be16(ipv4_payload(bytes), 0) != proxy.local_port ==> proxy.answers(ctx, bytes) is None,
        ({
            let dst = SocketAddress::V4 {
                ipv4: be32(bytes, 16) as u32,
                port: be16(ipv4_payload(bytes), 2) as u16,
            };
            proxy@.knows(dst) && be16(ipv4_payload(bytes), 0) == proxy.local_port ==> proxy.answers(
                ctx,
                bytes,
            ) == Some((proxy@.exact(dst)->0, dst, false))
        }),
{
}

/// Forgetting a connection forgets that one alone, and its source only where the source stands for it;
/// waiting connections stay.
pub proof fn law_forgetting_forgets_one(state: TcpProxyState, id: u64)
    requires
        state.wf(),
    ensures
        ({
            let rest = without_connection(state, id);
            &&& !rest.conn.contains_key(id)
            &&& forall|other: u64| other != id ==> (#[trigger] rest.conn.contains_key(other)
                == state.conn.contains_key(other))
            &&& forall|other: u64|
                other != id && #[trigger] rest.conn.contains_key(other) ==> rest.conn[other]
                    == state.conn[other]
            &&& forall|src: SocketAddress| #[trigger]
                rest.addr.contains_key(src) <==> state.addr.contains_key(src) && state.addr[src] != id
            &&& rest.syn == state.syn && rest.next_id == state.next_id
            &&& rest.wf()
        }),
{
    let rest = without_connection(state, id);
    if state.conn.contains_key(id) {
        assert forall|src: SocketAddress| #[trigger]
            rest.addr.contains_key(src) <==> state.addr.contains_key(src) && state.addr[src] != id by {
            if state.addr.contains_key(src) && state.addr[src] == id {
                assert(state.conn[id].src == src);
            }
        }
    } else {
        assert forall|src: SocketAddress| #[trigger] state.addr.contains_key(src) implies state.addr[src]
            != id by {
            assert(state.conn.contains_key(state.addr[src]));
        }
    }
}

/// Of a connection in another state, only that connection is changed.
pub proof fn law_changing_changes_one(state: TcpProxyState, id: u64, entry: NatDstEntry, other: u64)
    ensures
        with_connection(state, id, entry).conn.contains_key(id),
        with_connection(state, id, entry).conn[id] == entry,
        other != id ==> with_connection(state, id, entry).conn.contains_key(other)
            == state.conn.contains_key(other) && with_connection(state, id, entry).conn[other]
            == state.conn[other],
        with_connection(state, id, entry).syn == state.syn,
        with_connection(state, id, entry).addr == state.addr,
{
}

/// What a known connection that is let through is connected to: its destination, or the loopback address
/// at the same port where the destination is an address of this node. A connection that is refused is
/// forgotten, and the stream that was prepared for one is handed out once.
pub proof fn law_connections_lead_to_their_destinations<C: NatDstConnector>(
    proxy: &mut TcpProxy<C>,
    ctx: &GlobalCtx,
    id: u64,
    host: HostFacts,
    r: ConnectDecision,
)
    requires
        old(proxy).wf(),
        call_ensures(TcpProxy::<C>::connect_to_nat_dst, (proxy, ctx, id, host), r),
    ensures
        r is Gone <==> !old(proxy)@.conn.contains_key(id),
        r is Gone ==> final(proxy)@ == old(proxy)@,
        r is Denied ==> !final(proxy)@.conn.contains_key(id),
        r is Connect ==> ({
            let entry = old(proxy)@.conn[id];
            &&& r->src == entry.src
            &&& r->claimed_stream == entry.claimed_stream
            &&& final(proxy)@.conn.contains_key(id)
            &&& final(proxy)@.conn[id].claimed_stream is None
            &&& final(proxy)@.conn[id].real_dst == entry.real_dst
            &&& final(proxy)@.conn[id].state == entry.state
            &&& match entry.real_dst {
                SocketAddress::V4 { ipv4, port, .. } => r->nat_dst == (if ctx.ipv4 is Some
                    && ctx.ipv4->0.address == ipv4 {
                    SocketAddress::V4 { ipv4: 0x7f00_0001u32, port }
                } else {
                    entry.real_dst
                }),
                SocketAddress::V6 { ipv6, port, .. } => r->nat_dst == (if (ctx.ipv6 is Some
                    && ctx.ipv6->0.address == ipv6) || (ctx.public_ipv6_lease is Some
                    && ctx.public_ipv6_lease->0.address == ipv6) {
                    SocketAddress::V4 { ipv4: 0x7f00_0001u32, port }
                } else {
                    entry.real_dst
                }),
            }
        }),
        forall|other: u64|
            #![auto]
            other != id ==> final(proxy)@.conn.contains_key(other) == old(proxy)@.conn.contains_key(other),
{
    law_own_addresses_are_reached_by_loopback(ctx, old(proxy)@.conn[id].real_dst);
}

/// A connection that is accepted is no longer waited for: it has become the connection of its source,
/// being connected on. Where its source is waited for exactly, it is accepted; without an address of the
/// node no other source is.
pub proof fn law_waiting_connections_are_accepted<C: NatDstConnector>(
    proxy: &mut TcpProxy<C>,
    ctx: &GlobalCtx,
    observed_src: SocketAddress,
    r: Option<u64>,
)
    requires
        old(proxy).wf(),
        old(proxy)@.wf(),
        call_ensures(TcpProxy::<C>::accept, (proxy, ctx, observed_src), r),
    ensures
        old(proxy)@.syn.contains_key(observed_src) ==> r == Some(old(proxy)@.syn[observed_src].id)
            && !final(proxy)@.syn.contains_key(observed_src) && final(proxy)@.addr.contains_key(observed_src)
            && final(proxy)@.addr[observed_src] == r->0,
        !old(proxy)@.syn.contains_key(observed_src) && ctx.ipv4 is None ==> r is None,
        r is None ==> final(proxy)@ == old(proxy)@,
        r is Some ==> !old(proxy)@.conn.contains_key(r->0) && final(proxy)@.conn.contains_key(r->0)
            && final(proxy)@.conn[r->0].state is ConnectingDst,
        r is Some ==> exists|src: SocketAddress| #[trigger]
            old(proxy)@.syn.contains_key(src) && old(proxy)@.syn[src].id == r->0
                && final(proxy)@.conn[r->0].src == src && final(proxy)@.conn[r->0].real_dst
                == old(proxy)@.syn[src].real_dst && !final(proxy)@.syn.contains_key(src),
{
}

/// A connection that came about is connected, and one that did not is forgotten.
pub proof fn law_failed_connections_are_forgotten<C: NatDstConnector>(
    proxy: &mut TcpProxy<C>,
    id: u64,
    connected: bool,
)
    requires
        old(proxy).wf(),
        call_ensures(TcpProxy::<C>::on_connected, (proxy, id, connected), ()),
    ensures
        final(proxy)@.conn.contains_key(id) <==> connected && old(proxy)@.conn.contains_key(id),
        final(proxy)@.conn.contains_key(id) ==> final(proxy)@.conn[id].state is Connected
            && final(proxy)@.conn[id].real_dst == old(proxy)@.conn[id].real_dst,
        final(proxy)@.syn == old(proxy)@.syn,
{
}

/// A connection that is not accepted is waited for during thirty seconds, and then forgotten.
pub proof fn law_connections_are_waited_for<C: NatDstConnector>(proxy: &mut TcpProxy<C>, now: u64)
    requires
        old(proxy).wf(),
        call_ensures(TcpProxy::<C>::clean_syn_map, (proxy, now), ()),
    ensures
        forall|src: SocketAddress| #[trigger]
            final(proxy)@.syn.contains_key(src) <==> old(proxy)@.syn.contains_key(src) && now
                <= old(proxy)@.syn[src].start_time + 30_000_000_000,
        forall|src: SocketAddress| #[trigger]
            final(proxy)@.syn.contains_key(src) ==> final(proxy)@.syn[src] == old(proxy)@.syn[src],
        final(proxy)@.conn == old(proxy)@.conn,
        final(proxy)@.addr == old(proxy)@.addr,
{
}

/// The proxy listens at the port that the kernel gave it, or at port 8899 of its own stack.
pub proof fn law_where_the_proxy_listens<C: NatDstConnector>(
    proxy: &mut TcpProxy<C>,
    smoltcp: bool,
    kernel_port: u16,
)
    requires
        call_ensures(TcpProxy::<C>::listen_on, (proxy, smoltcp, kernel_port), ()),
    ensures
        smoltcp ==> final(proxy).local_port == 8899,
        !smoltcp ==> final(proxy).local_port == kernel_port,
        final(proxy).enable_smoltcp == smoltcp,
        final(proxy).my_peer_id == old(proxy).my_peer_id,
        final(proxy)@ == old(proxy)@,
{
}

} // verus!
