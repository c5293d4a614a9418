//! TCP segments in IPv4 packets, as far as they are looked at and changed.
use vstd::prelude::*;
use pnet::packet::{MutablePacket as _, Packet as _};

use crate::addr::SocketAddress;

verus! {

/// The number of TCP among the protocols of IP.
pub const IP_PROTOCOL_TCP: u8 = 6;

pub const TCP_FLAG_SYN: u8 = 2;

pub const TCP_FLAG_ACK: u8 = 16;

/// The two bytes at `i`, most significant first.
pub open spec fn be16(bytes: Seq<u8>, i: int) -> int {
    bytes[i] * 0x100 + bytes[i + 1]
}

/// The four bytes at `i`, most significant first.
pub open spec fn be32(bytes: Seq<u8>, i: int) -> int {
    be16(bytes, i) * 0x1_0000 + be16(bytes, i + 2)
}

/// The bytes with `value` in the two bytes at `i`.
pub open spec fn with_be16(bytes: Seq<u8>, i: int, value: u16) -> Seq<u8> {
    bytes.update(i, (value / 0x100) as u8).update(i + 1, (value % 0x100) as u8)
}

/// The bytes with `value` in the four bytes at `i`.
pub open spec fn with_be32(bytes: Seq<u8>, i: int, value: u32) -> Seq<u8> {
    with_be16(with_be16(bytes, i, (value / 0x1_0000) as u16), i + 2, (value % 0x1_0000) as u16)
}

/// The fields of an IPv4 header that decisions depend on.
#[derive(Clone, Copy, Debug, PartialEq, Eq, Structural)]
pub struct Ipv4Fields {
    pub version: u8,
    pub protocol: u8,
    pub source: u32,
    pub destination: u32,
}

/// The bytes are long enough for an IPv4 header.
pub open spec fn has_ipv4_header(bytes: Seq<u8>) -> bool {
    bytes.len() >= 20
}

impl Ipv4Fields {
    pub open spec fn of(self, bytes: Seq<u8>) -> bool {
        &&& self.version == bytes[0] / 16
        &&& self.protocol == bytes[9]
        &&& self.source == be32(bytes, 12)
        &&& self.destination == be32(bytes, 16)
    }
}

/// Where what an IPv4 packet carries begins.
pub open spec fn ipv4_payload_start(bytes: Seq<u8>) -> int {
    let header = (bytes[0] % 16) * 4;
    if header > 20 {
        header
    } else {
        20
    }
}

/// Where what an IPv4 packet carries ends, as its header says.
pub open spec fn ipv4_payload_stop(bytes: Seq<u8>) -> int {
    let header = (bytes[0] % 16) * 4;
    let total = be16(bytes, 2);
    ipv4_payload_start(bytes) + if total > header {
        total - header
    } else {
        0
    }
}

/// What an IPv4 packet carries, as far as its bytes go.
pub open spec fn ipv4_payload(bytes: Seq<u8>) -> Seq<u8> {
    let start = ipv4_payload_start(bytes);
    let stop = ipv4_payload_stop(bytes);
    if bytes.len() <= start {
        Seq::empty()
    } else if stop < bytes.len() {
        bytes.subrange(start, stop)
    } else {
        bytes.subrange(start, bytes.len() as int)
    }
}

/// The fields of a TCP header that decisions depend on.
#[derive(Clone, Copy, Debug, PartialEq, Eq, Structural)]
pub struct TcpFields {
    pub source: u16,
    pub destination: u16,
    pub sequence: u32,
    pub flags: u8,
}

/// The bytes are long enough for a TCP header.
pub open spec fn has_tcp_header(bytes: Seq<u8>) -> bool {
    bytes.len() >= 20
}

impl TcpFields {
    pub open spec fn of(self, bytes: Seq<u8>) -> bool {
        &&& self.source == be16(bytes, 0)
        &&& self.destination == be16(bytes, 2)
        &&& self.sequence == be32(bytes, 4)
        &&& self.flags == bytes[13]
    }

    pub open spec fn has_syn(self) -> bool {
        self.flags & TCP_FLAG_SYN != 0
    }

    pub open spec fn has_ack(self) -> bool {
        self.flags & TCP_FLAG_ACK != 0
    }

    /// The segment is the first of a connection.
    pub open spec fn initial(self) -> bool {
        self.has_syn() && !self.has_ack()
    }

    pub fn is_initial(&self) -> (r: bool)
        ensures
            r == self.initial(),
    {
        self.flags & TCP_FLAG_SYN != 0 && self.flags & TCP_FLAG_ACK == 0
    }
}

/// Reads an IPv4 header with `new` and the getters of `pnet::packet::ipv4::Ipv4Packet`. What is
/// claimed of them: there is a header in twenty bytes and more, the version is in the upper half
/// of the first byte, and the protocol and the addresses stand where the protocol puts them.
#[verifier::external_body]
fn read_ipv4(bytes: &[u8]) -> (r: Option<Ipv4Fields>)
    ensures
        r is Some == has_ipv4_header(bytes@),
        r is Some ==> r->0.of(bytes@),
{
    let ip = pnet::packet::ipv4::Ipv4Packet::new(bytes)?;
    Some(
        Ipv4Fields {
            version: ip.get_version(),
            protocol: ip.get_next_level_protocol().0,
            source: ip.get_source().into(),
            destination: ip.get_destination().into(),
        },
    )
}

/// Takes what an IPv4 packet carries with `payload` of `pnet::packet::ipv4::Ipv4Packet`. What is
/// claimed of it: it skips the header with its options and goes as far as the header says or,
/// where the bytes end before, as far as they go.
#[verifier::external_body]
fn read_ipv4_payload(bytes: &[u8]) -> (r: Vec<u8>)
    requires
        has_ipv4_header(bytes@),
    ensures
        r@ == ipv4_payload(bytes@),
{
    match pnet::packet::ipv4::Ipv4Packet::new(bytes) {
        Some(ip) => ip.payload().to_vec(),
        None => Vec::new(),
    }
}

/// Reads a TCP header with `new` and the getters of `pnet::packet::tcp::TcpPacket`. What is
/// claimed of them: there is a header in twenty bytes and more, and the ports, the sequence number
/// and the flags stand where the protocol puts them.
#[verifier::external_body]
fn read_tcp(bytes: &[u8]) -> (r: Option<TcpFields>)
    ensures
        r is Some == has_tcp_header(bytes@),
        r is Some ==> r->0.of(bytes@),
{
    let tcp = pnet::packet::tcp::TcpPacket::new(bytes)?;
    Some(
        TcpFields {
            source: tcp.get_source(),
            destination: tcp.get_destination(),
            sequence: tcp.get_sequence(),
            flags: tcp.get_flags(),
        },
    )
}

/// Sets the source with `set_source` of `pnet::packet::ipv4::MutableIpv4Packet`. What is claimed
/// of it: only the four bytes of the source change.
#[verifier::external_body]
pub(crate) fn set_ipv4_source(bytes: &mut Vec<u8>, source: u32)
    requires
        has_ipv4_header(old(bytes)@),
    ensures
        final(bytes)@ == with_be32(old(bytes)@, 12, source),
{
    if let Some(mut ip) = pnet::packet::ipv4::MutableIpv4Packet::new(bytes) {
        ip.set_source(source.into());
    }
}

/// Sets the destination with `set_destination` of `pnet::packet::ipv4::MutableIpv4Packet`. What
/// is claimed of it: only the four bytes of the destination change.
#[verifier::external_body]
pub(crate) fn set_ipv4_destination(bytes: &mut Vec<u8>, destination: u32)
    requires
        has_ipv4_header(old(bytes)@),
    ensures
        final(bytes)@ == with_be32(old(bytes)@, 16, destination),
{
    if let Some(mut ip) = pnet::packet::ipv4::MutableIpv4Packet::new(bytes) {
        ip.set_destination(destination.into());
    }
}

/// Sets the source port with `set_source` of `pnet::packet::tcp::MutableTcpPacket` in what an IPv4
/// packet carries. What is claimed of it: only the two bytes of the port change.
#[verifier::external_body]
pub(crate) fn set_tcp_source(bytes: &mut Vec<u8>, port: u16)
    requires
        has_ipv4_header(old(bytes)@),
        has_tcp_header(ipv4_payload(old(bytes)@)),
    ensures
        final(bytes)@ == with_be16(old(bytes)@, ipv4_payload_start(old(bytes)@), port),
{
    if let Some(mut ip) = pnet::packet::ipv4::MutableIpv4Packet::new(bytes) {
        if let Some(mut tcp) = pnet::packet::tcp::MutableTcpPacket::new(ip.payload_mut()) {
            tcp.set_source(port);
        }
    }
}

/// Sets the destination port with `set_destination` of `pnet::packet::tcp::MutableTcpPacket` in
/// what an IPv4 packet carries. What is claimed of it: only the two bytes of the port change.
#[verifier::external_body]
pub(crate) fn set_tcp_destination(bytes: &mut Vec<u8>, port: u16)
    requires
        has_ipv4_header(old(bytes)@),
        has_tcp_header(ipv4_payload(old(bytes)@)),
    ensures
        final(bytes)@ == with_be16(old(bytes)@, ipv4_payload_start(old(bytes)@) + 2, port),
{
    if let Some(mut ip) = pnet::packet::ipv4::MutableIpv4Packet::new(bytes) {
        if let Some(mut tcp) = pnet::packet::tcp::MutableTcpPacket::new(ip.payload_mut()) {
            tcp.set_destination(port);
        }
    }
}

/// The sum of the two-byte words of some bytes, without the word at place `skipped`. A single byte at
/// the end is the upper half of a word.
pub open spec fn word_sum(bytes: Seq<u8>, skipped: int) -> int
    decreases bytes.len(),
{
    let len = bytes.len() as int;
    if len == 0 {
        0
    } else if len % 2 == 1 {
        word_sum(bytes.take(len - 1), skipped) + if len / 2 == skipped {
            0
        } else {
            bytes[len - 1] * 0x100
        }
    } else {
        word_sum(bytes.take(len - 2), skipped) + if len / 2 - 1 == skipped {
            0
        } else {
            be16(bytes, len - 2)
        }
    }
}

/// A sum with what does not fit in sixteen bits added to what does, until all of it fits.
pub open spec fn folded(sum: int) -> int
    decreases sum,
{
    if sum < 0x1_0000 {
        sum
    } else {
        folded(sum / 0x1_0000 + sum % 0x1_0000)
    }
}

/// The checksum of a TCP segment between two addresses: the complement of the sum of its words, of
/// the words of the addresses, of the number of the protocol and of the segment's length.
pub open spec fn tcp_checksum(segment: Seq<u8>, source: u32, destination: u32) -> u16 {
    (0xffff - folded(
        source / 0x1_0000 + source % 0x1_0000 + destination / 0x1_0000 + destination % 0x1_0000
            + IP_PROTOCOL_TCP + segment.len() + word_sum(segment, 8),
    )) as u16
}

/// The length of the header of an IPv4 packet with its options, as far as its bytes go.
pub open spec fn ipv4_header_len(packet: Seq<u8>) -> int {
    let header = (packet[0] % 16) * 4;
    if header < 20 {
        20
    } else if header > packet.len() {
        packet.len() as int
    } else {
        header
    }
}

/// The checksum of an IPv4 header: the complement of the sum of its words.
pub open spec fn ipv4_checksum(packet: Seq<u8>) -> u16 {
    (0xffff - folded(word_sum(packet.take(ipv4_header_len(packet)), 5))) as u16
}

/// The packet with the checksum of its TCP segment set right.
pub open spec fn with_tcp_checksum(bytes: Seq<u8>, source: u32, destination: u32) -> Seq<u8> {
    with_be16(
        bytes,
        ipv4_payload_start(bytes) + 16,
        tcp_checksum(ipv4_payload(bytes), source, destination),
    )
}

/// The packet with the checksum of its header set right.
pub open spec fn with_ipv4_checksum(bytes: Seq<u8>) -> Seq<u8> {
    with_be16(bytes, 10, ipv4_checksum(bytes))
}

/// Computes the checksum of the TCP segment that an IPv4 packet carries with
/// `pnet::packet::tcp::ipv4_checksum` and sets it with `set_checksum`. What is claimed of them:
/// the checksum is the complement of the folded sum of the words of the segment and its pseudo-header,
/// without the checksum's own word, and only its two bytes change.
#[verifier::external_body]
pub(crate) fn update_tcp_packet_checksum(bytes: &mut Vec<u8>, source: u32, destination: u32)
    requires
        has_ipv4_header(old(bytes)@),
        has_tcp_header(ipv4_payload(old(bytes)@)),
    ensures
        final(bytes)@ == with_be16(
            old(bytes)@,
            ipv4_payload_start(old(bytes)@) + 16,
            tcp_checksum(ipv4_payload(old(bytes)@), source, destination),
        ),
{
    if let Some(mut ip) = pnet::packet::ipv4::MutableIpv4Packet::new(bytes) {
        if let Some(mut tcp) = pnet::packet::tcp::MutableTcpPacket::new(ip.payload_mut()) {
            let checksum = pnet::packet::tcp::ipv4_checksum(
                &tcp.to_immutable(),
                &source.into(),
                &destination.into(),
            );
            tcp.set_checksum(checksum);
        }
    }
}

/// Computes the checksum of an IPv4 header with `pnet::packet::ipv4::checksum` and sets it with
/// `set_checksum`. What is claimed of them: the checksum is the complement of the folded sum of the
/// words of the header, without the checksum's own word, and only its two bytes change.
#[verifier::external_body]
pub(crate) fn update_ip_packet_checksum(bytes: &mut Vec<u8>)
    requires
        has_ipv4_header(old(bytes)@),
    ensures
        final(bytes)@ == with_be16(old(bytes)@, 10, ipv4_checksum(old(bytes)@)),
{
    if let Some(mut ip) = pnet::packet::ipv4::MutableIpv4Packet::new(bytes) {
        let checksum = pnet::packet::ipv4::checksum(&ip.to_immutable());
        ip.set_checksum(checksum);
    }
}

/// The header of an IPv4 packet that carries TCP, and of its segment.
#[derive(Clone, Copy, Debug, PartialEq, Eq, Structural)]
pub struct TcpPacketFields {
    pub ip: Ipv4Fields,
    pub tcp: TcpFields,
}

impl TcpPacketFields {
    pub open spec fn of(self, bytes: Seq<u8>) -> bool {
        self.ip.of(bytes) && self.tcp.of(ipv4_payload(bytes))
    }

    pub open spec fn spec_src(self) -> SocketAddress {
        SocketAddress::V4 { ipv4: self.ip.source, port: self.tcp.source }
    }

    pub open spec fn spec_dst(self) -> SocketAddress {
        SocketAddress::V4 { ipv4: self.ip.destination, port: self.tcp.destination }
    }

    pub fn src(&self) -> (r: SocketAddress)
        ensures
            r == self.spec_src(),
    {
        SocketAddress::V4 { ipv4: self.ip.source, port: self.tcp.source }
    }

    pub fn dst(&self) -> (r: SocketAddress)
        ensures
            r == self.spec_dst(),
    {
        SocketAddress::V4 { ipv4: self.ip.destination, port: self.tcp.destination }
    }
}

/// The bytes are an IPv4 packet that carries TCP, as far as its header tells.
pub open spec fn is_tcp_in_ipv4(bytes: Seq<u8>) -> bool {
    has_ipv4_header(bytes) && bytes[0] / 16 == 4 && bytes[9] == IP_PROTOCOL_TCP
}

/// Reads the header of an IPv4 packet that carries TCP.
pub fn tcp_over_ipv4(bytes: &[u8]) -> (r: Option<Ipv4Fields>)
    ensures
        r is Some == is_tcp_in_ipv4(bytes@),
        r is Some ==> r->0.of(bytes@),
{
    match read_ipv4(bytes) {
        Some(ip) => if ip.version == 4 && ip.protocol == IP_PROTOCOL_TCP {
            Some(ip)
        } else {
            None
        },
        None => None,
    }
}

/// The bytes are an IPv4 packet that carries a TCP header.
pub open spec fn is_tcp_packet(bytes: Seq<u8>) -> bool {
    is_tcp_in_ipv4(bytes) && has_tcp_header(ipv4_payload(bytes))
}

/// Reads the headers of an IPv4 packet that carries TCP.
pub fn parse_tcp_packet(bytes: &[u8]) -> (r: Option<TcpPacketFields>)
    ensures
        r is Some == is_tcp_packet(bytes@),
        r is Some ==> r->0.of(bytes@),
{
    match tcp_over_ipv4(bytes) {
        None => None,
        Some(ip) => {
            let segment = read_ipv4_payload(bytes);
            match read_tcp(segment.as_slice()) {
                Some(tcp) => Some(TcpPacketFields { ip, tcp }),
                None => None,
            }
        },
    }
}

/// A number that was written into a packet is read back, and nothing beside it has changed.
pub proof fn law_numbers_are_read_back(bytes: Seq<u8>, i: int, short: u16, long: u32, k: int)
    requires
        0 <= i,
        i + 4 <= bytes.len(),
    ensures
        be16(with_be16(bytes, i, short), i) == short,
        be32(with_be32(bytes, i, long), i) == long,
        with_be16(bytes, i, short).len() == bytes.len(),
        with_be32(bytes, i, long).len() == bytes.len(),
        0 <= k < bytes.len() && !(i <= k < i + 2) ==> with_be16(bytes, i, short)[k] == bytes[k],
        0 <= k < bytes.len() && !(i <= k < i + 4) ==> with_be32(bytes, i, long)[k] == bytes[k],
{
    let high = (long / 0x1_0000) as u16;
    let low = (long % 0x1_0000) as u16;
    assert(long == high as int * 0x1_0000 + low);
    let after = with_be32(bytes, i, long);
    assert(after[i] == (high / 0x100) as u8);
    assert(after[i + 1] == (high % 0x100) as u8);
    assert(after[i + 2] == (low / 0x100) as u8);
    assert(after[i + 3] == (low % 0x100) as u8);
}

/// A packet whose header is in order carries what follows the header, up to the length that the header
/// gives.
pub proof fn law_packets_carry_what_follows_the_header(bytes: Seq<u8>, words: int)
    requires
        has_ipv4_header(bytes),
        bytes[0] % 16 == words,
        words >= 5,
        4 * words <= be16(bytes, 2) <= bytes.len(),
    ensures
        ipv4_payload(bytes) == bytes.subrange(4 * words, be16(bytes, 2)),
{
    assert(ipv4_payload(bytes) =~= bytes.subrange(4 * words, be16(bytes, 2)));
}

/// A segment opens a connection if it has the second lowest bit of its flags and not the fifth.
pub proof fn law_segments_that_open(fields: TcpFields)
    ensures
        fields.initial() <==> fields.flags & 0x02u8 != 0 && fields.flags & 0x10u8 == 0,
{
}

/// The bytes are TCP over IPv4 if the first half of the first one is four and the tenth is six, and there
/// are enough of them for a header.
pub proof fn law_packets_that_are_tcp(bytes: Seq<u8>)
    ensures
        is_tcp_in_ipv4(bytes) <==> bytes.len() >= 20 && 64 <= bytes[0] < 80 && bytes[9] == 6,
        is_tcp_packet(bytes) <==> is_tcp_in_ipv4(bytes) && ipv4_payload(bytes).len() >= 20,
{
}

proof fn lemma_folded(sum: int)
    requires
        0 <= sum,
    ensures
        0 <= folded(sum) <= 0xffff,
        folded(sum) % 0xffff == sum % 0xffff,
        sum > 0 ==> folded(sum) > 0,
    decreases sum,
{
    if sum >= 0x1_0000 {
        let high = sum / 0x1_0000;
        let low = sum % 0x1_0000;
        assert(sum == high * 0x1_0000 + low);
        assert(sum == (high + low) + high * 0xffff);
        lemma_folded(high + low);
        assert((high + low) % 0xffff == sum % 0xffff) by {
            vstd::arithmetic::div_mod::lemma_mod_multiples_vanish(high, high + low, 0xffff);
        }
    }
}

/// A sum and the complement of its fold together fold to all ones.
pub proof fn law_complements_fold_to_ones(sum: int)
    requires
        0 <= sum,
    ensures
        folded(sum + (0xffff - folded(sum))) == 0xffff,
{
    lemma_folded(sum);
    let whole = sum + (0xffff - folded(sum));
    lemma_folded(whole);
    let fold = folded(sum);
    assert(whole % 0xffff == 0) by {
        assert(sum % 0xffff == fold % 0xffff);
        vstd::arithmetic::div_mod::lemma_mod_equivalence(sum, fold, 0xffff);
        assert((sum - fold) % 0xffff == 0);
        vstd::arithmetic::div_mod::lemma_mod_multiples_vanish(1, sum - fold, 0xffff);
        assert(whole == 1 * 0xffff + (sum - fold));
    }
    assert(whole > 0) by {
        if whole == 0 {
            assert(fold == 0xffff + sum);
        }
    }
}

proof fn lemma_sum_with_a_word(bytes: Seq<u8>, place: int)
    requires
        0 <= place,
        2 * place + 2 <= bytes.len(),
    ensures
        word_sum(bytes, place) + be16(bytes, 2 * place) == word_sum(bytes, -1),
    decreases bytes.len(),
{
    let len = bytes.len() as int;
    if len % 2 == 1 {
        let front = bytes.take(len - 1);
        lemma_sum_with_a_word(front, place);
        assert(be16(front, 2 * place) == be16(bytes, 2 * place));
    } else if len / 2 - 1 == place {
        lemma_sum_beyond(bytes.take(len - 2), place);
    } else {
        let front = bytes.take(len - 2);
        lemma_sum_with_a_word(front, place);
        assert(be16(front, 2 * place) == be16(bytes, 2 * place));
    }
}

proof fn lemma_sum_beyond(bytes: Seq<u8>, place: int)
    requires
        2 * place >= bytes.len(),
    ensures
        word_sum(bytes, place) == word_sum(bytes, -1),
    decreases bytes.len(),
{
    let len = bytes.len() as int;
    if len > 0 {
        if len % 2 == 1 {
            lemma_sum_beyond(bytes.take(len - 1), place);
        } else {
            lemma_sum_beyond(bytes.take(len - 2), place);
        }
    }
}

proof fn lemma_sum_skips(a: Seq<u8>, b: Seq<u8>, place: int)
    requires
        a.len() == b.len(),
        forall|k: int| 0 <= k < a.len() && k / 2 != place ==> #[trigger] a[k] == b[k],
    ensures
        word_sum(a, place) == word_sum(b, place),
    decreases a.len(),
{
    let len = a.len() as int;
    if len > 0 {
        if len % 2 == 1 {
            let x = a.take(len - 1);
            let y = b.take(len - 1);
            assert forall|k: int| 0 <= k < x.len() && k / 2 != place implies #[trigger] x[k] == y[k] by {
                assert(a[k] == b[k]);
            }
            lemma_sum_skips(x, y, place);
            if len / 2 != place {
                assert((len - 1) / 2 != place);
                assert(a[len - 1] == b[len - 1]);
            }
        } else {
            let x = a.take(len - 2);
            let y = b.take(len - 2);
            assert forall|k: int| 0 <= k < x.len() && k / 2 != place implies #[trigger] x[k] == y[k] by {
                assert(a[k] == b[k]);
            }
            lemma_sum_skips(x, y, place);
            if len / 2 - 1 != place {
                assert((len - 1) / 2 != place && (len - 2) / 2 != place);
                assert(a[len - 1] == b[len - 1] && a[len - 2] == b[len - 2]);
            }
        }
    }
}

proof fn lemma_sum_is_not_negative(bytes: Seq<u8>, place: int)
    ensures
        word_sum(bytes, place) >= 0,
    decreases bytes.len(),
{
    let len = bytes.len() as int;
    if len > 0 {
        if len % 2 == 1 {
            lemma_sum_is_not_negative(bytes.take(len - 1), place);
        } else {
            lemma_sum_is_not_negative(bytes.take(len - 2), place);
        }
    }
}

/// The words of a header whose checksum was set right, the checksum among them, sum up to all ones: what a
/// receiver checks.
pub proof fn law_headers_sum_up_to_ones(packet: Seq<u8>)
    requires
        has_ipv4_header(packet),
    ensures
        ({
            let after = with_ipv4_checksum(packet);
            folded(word_sum(after.take(ipv4_header_len(after)), -1)) == 0xffff
        }),
{
    let after = with_ipv4_checksum(packet);
    let len = ipv4_header_len(packet);
    assert(after[0] == packet[0]);
    assert(ipv4_header_len(after) == len);
    let old_header = packet.take(len);
    let header = after.take(len);
    assert forall|k: int| 0 <= k < header.len() && k / 2 != 5 implies #[trigger] old_header[k] == header[k] by {
        assert(k != 10 && k != 11);
    }
    lemma_sum_skips(old_header, header, 5);
    lemma_sum_with_a_word(header, 5);
    let sum = word_sum(old_header, 5);
    lemma_sum_is_not_negative(old_header, 5);
    lemma_folded(sum);
    law_complements_fold_to_ones(sum);
    assert(be16(header, 10) == ipv4_checksum(packet)) by {
        assert(header[10] == after[10] && header[11] == after[11]);
        law_numbers_are_read_back(packet, 10, ipv4_checksum(packet), 0, 0);
    }
}

/// The words of a segment whose checksum was set right, together with those of the addresses, the number
/// of the protocol and the length, sum up to all ones: what a receiver checks.
pub proof fn law_segments_sum_up_to_ones(segment: Seq<u8>, source: u32, destination: u32)
    requires
        has_tcp_header(segment),
    ensures
        ({
            let after = with_be16(segment, 16, tcp_checksum(segment, source, destination));
            folded(
                source / 0x1_0000 + source % 0x1_0000 + destination / 0x1_0000 + destination % 0x1_0000 + 6
                    + after.len() + word_sum(after, -1),
            ) == 0xffff
        }),
{
    let checksum = tcp_checksum(segment, source, destination);
    let after = with_be16(segment, 16, checksum);
    assert forall|k: int| 0 <= k < after.len() && k / 2 != 8 implies #[trigger] segment[k] == after[k] by {
        assert(k != 16 && k != 17);
    }
    lemma_sum_skips(segment, after, 8);
    lemma_sum_with_a_word(after, 8);
    lemma_sum_is_not_negative(segment, 8);
    let sum = source / 0x1_0000 + source % 0x1_0000 + destination / 0x1_0000 + destination % 0x1_0000 + 6
        + segment.len() + word_sum(segment, 8);
    lemma_folded(sum);
    law_complements_fold_to_ones(sum);
    law_numbers_are_read_back(segment, 16, checksum, 0, 0);
}

} // verus!
