//! The transports that can hide their handshakes, as configured and as advertised by peers.
use vstd::prelude::*;

use crate::build_features::{FEATURE_FAKETCP, FEATURE_QUIC, FEATURE_WEBSOCKET, FEATURE_WIREGUARD};
use crate::config::{Flags, PeerFeatureFlag};
use crate::text::{
    joined, law_join_and_split, lowered, lowers_to, parts, split, trim, trimmed,
};

verus! {

pub const STEALTH_LEVEL_SILENT: u32 = 1;

pub const STEALTH_LEVEL_AUTHENTICATED: u32 = 2;

pub const STEALTH_LEVEL_CAMOUFLAGED: u32 = 4;

/// A transport that can be made stealthy.
#[derive(Clone, Copy, Debug, PartialEq, Eq, Hash, Structural)]
pub enum StealthProtocol {
    Udp,
    Tcp,
    FakeTcp,
    Quic,
    Wg,
    Ws,
    Wss,
}

/// A stealth transport as peers name it; `Other` is one that this node does not know.
#[derive(Clone, Copy, Debug, PartialEq, Eq, Structural)]
pub enum StealthTransportProtocol {
    Udp,
    Tcp,
    FakeTcp,
    Quic,
    Wg,
    Ws,
    Wss,
    Other(i32),
}

/// What a peer can do with one transport.
#[derive(Clone, Copy, Debug, PartialEq, Eq, Structural)]
pub struct TransportStealthCapability {
    pub protocol: StealthTransportProtocol,
    pub wire_version: u32,
    pub level_mask: u32,
}

impl TransportStealthCapability {
    /// The capability meets what is required: same transport, same wire version, and a level
    /// in common.
    pub open spec fn meets(self, required: TransportStealthCapability) -> bool {
        self.protocol == required.protocol && self.wire_version == required.wire_version
            && self.level_mask & required.level_mask != 0
    }
}

impl StealthProtocol {
    pub open spec fn name(self) -> Seq<char> {
        match self {
            StealthProtocol::Udp => "udp"@,
            StealthProtocol::Tcp => "tcp"@,
            StealthProtocol::FakeTcp => "faketcp"@,
            StealthProtocol::Quic => "quic"@,
            StealthProtocol::Wg => "wg"@,
            StealthProtocol::Ws => "ws"@,
            StealthProtocol::Wss => "wss"@,
        }
    }

    pub fn as_str(self) -> (r: &'static str)
        ensures
            r@ == self.name(),
    {
        match self {
            StealthProtocol::Udp => "udp",
            StealthProtocol::Tcp => "tcp",
            StealthProtocol::FakeTcp => "faketcp",
            StealthProtocol::Quic => "quic",
            StealthProtocol::Wg => "wg",
            StealthProtocol::Ws => "ws",
            StealthProtocol::Wss => "wss",
        }
    }

    pub open spec fn implemented(self) -> bool {
        match self {
            StealthProtocol::Udp => true,
            StealthProtocol::Tcp => true,
            StealthProtocol::FakeTcp => FEATURE_FAKETCP,
            StealthProtocol::Quic => FEATURE_QUIC,
            StealthProtocol::Wg => FEATURE_WIREGUARD,
            StealthProtocol::Ws => FEATURE_WEBSOCKET,
            StealthProtocol::Wss => FEATURE_WEBSOCKET,
        }
    }

    pub fn is_implemented(self) -> (r: bool)
        ensures
            r == self.implemented(),
    {
        match self {
            StealthProtocol::Udp => true,
            StealthProtocol::Tcp => true,
            StealthProtocol::FakeTcp => FEATURE_FAKETCP,
            StealthProtocol::Quic => FEATURE_QUIC,
            StealthProtocol::Wg => FEATURE_WIREGUARD,
            StealthProtocol::Ws => FEATURE_WEBSOCKET,
            StealthProtocol::Wss => FEATURE_WEBSOCKET,
        }
    }

    /// What this node advertises for the transport.
    pub open spec fn advertised(self) -> TransportStealthCapability {
        match self {
            StealthProtocol::Udp => TransportStealthCapability {
                protocol: StealthTransportProtocol::Udp,
                wire_version: 1,
                level_mask: STEALTH_LEVEL_SILENT,
            },
            StealthProtocol::Tcp => TransportStealthCapability {
                protocol: StealthTransportProtocol::Tcp,
                wire_version: 1,
                level_mask: STEALTH_LEVEL_AUTHENTICATED,
            },
            StealthProtocol::FakeTcp => TransportStealthCapability {
                protocol: StealthTransportProtocol::FakeTcp,
                wire_version: 1,
                level_mask: STEALTH_LEVEL_AUTHENTICATED,
            },
            StealthProtocol::Quic => TransportStealthCapability {
                protocol: StealthTransportProtocol::Quic,
                wire_version: 1,
                level_mask: STEALTH_LEVEL_SILENT,
            },
            StealthProtocol::Wg => TransportStealthCapability {
                protocol: StealthTransportProtocol::Wg,
                wire_version: 1,
                level_mask: STEALTH_LEVEL_SILENT,
            },
            StealthProtocol::Ws => TransportStealthCapability {
                protocol: StealthTransportProtocol::Ws,
                wire_version: 1,
                level_mask: STEALTH_LEVEL_AUTHENTICATED,
            },
            StealthProtocol::Wss => TransportStealthCapability {
                protocol: StealthTransportProtocol::Wss,
                wire_version: 1,
                level_mask: STEALTH_LEVEL_CAMOUFLAGED,
            },
        }
    }

    pub fn capability(self) -> (r: TransportStealthCapability)
        ensures
            r == self.advertised(),
    {
        let (protocol, level_mask): (StealthTransportProtocol, u32) = match self {
            StealthProtocol::Udp => (StealthTransportProtocol::Udp, STEALTH_LEVEL_SILENT),
            StealthProtocol::Tcp => (StealthTransportProtocol::Tcp, STEALTH_LEVEL_AUTHENTICATED),
            StealthProtocol::FakeTcp => (
                StealthTransportProtocol::FakeTcp,
                STEALTH_LEVEL_AUTHENTICATED,
            ),
            StealthProtocol::Quic => (StealthTransportProtocol::Quic, STEALTH_LEVEL_SILENT),
            StealthProtocol::Wg => (StealthTransportProtocol::Wg, STEALTH_LEVEL_SILENT),
            StealthProtocol::Ws => (StealthTransportProtocol::Ws, STEALTH_LEVEL_AUTHENTICATED),
            StealthProtocol::Wss => (StealthTransportProtocol::Wss, STEALTH_LEVEL_CAMOUFLAGED),
        };
        TransportStealthCapability { protocol, wire_version: 1, level_mask }
    }
}

/// Why a list of stealth transports is refused.
#[derive(Clone, Copy, Debug, PartialEq, Eq, Structural)]
pub enum StealthProtocolError {
    /// An item of the list is blank.
    EmptyProtocol,
    /// An item names no stealth transport.
    UnknownProtocol,
    /// A transport is named twice.
    DuplicateProtocol(StealthProtocol),
}

/// The transport with the given name.
pub open spec fn protocol_named(word: Seq<char>) -> Option<StealthProtocol> {
    if word == "udp"@ {
        Some(StealthProtocol::Udp)
    } else if word == "tcp"@ {
        Some(StealthProtocol::Tcp)
    } else if word == "faketcp"@ {
        Some(StealthProtocol::FakeTcp)
    } else if word == "quic"@ {
        Some(StealthProtocol::Quic)
    } else if word == "wg"@ {
        Some(StealthProtocol::Wg)
    } else if word == "ws"@ {
        Some(StealthProtocol::Ws)
    } else if word == "wss"@ {
        Some(StealthProtocol::Wss)
    } else {
        None
    }
}

/// The transports that the items name, or what is wrong with the first bad item.
pub open spec fn protocols_of_items(items: Seq<Seq<char>>) -> Result<
    Seq<StealthProtocol>,
    StealthProtocolError,
>
    decreases items.len(),
{
    if items.len() == 0 {
        Ok(Seq::empty())
    } else {
        match protocols_of_items(items.drop_last()) {
            Err(error) => Err(error),
            Ok(before) => {
                let item = trimmed(items.last());
                match protocol_named(lowered(item)) {
                    None => if item.len() == 0 {
                        Err(StealthProtocolError::EmptyProtocol)
                    } else {
                        Err(StealthProtocolError::UnknownProtocol)
                    },
                    Some(protocol) => if before.contains(protocol) {
                        Err(StealthProtocolError::DuplicateProtocol(protocol))
                    } else {
                        Ok(before.push(protocol))
                    },
                }
            },
        }
    }
}

/// What a configured list of stealth transports means.
pub open spec fn protocols_of_text(value: Seq<char>) -> Result<
    Seq<StealthProtocol>,
    StealthProtocolError,
> {
    if trimmed(value).len() == 0 {
        Ok(Seq::empty())
    } else {
        protocols_of_items(parts(trimmed(value), ','))
    }
}

/// The list that stands where none is configured: it names every transport.
pub const DEFAULT_STEALTH_PROTOCOLS: &'static str = "udp,tcp,faketcp,quic,wg,ws,wss";

/// Every transport, in the order of that list.
pub open spec fn every_protocol() -> Seq<StealthProtocol> {
    seq![
        StealthProtocol::Udp,
        StealthProtocol::Tcp,
        StealthProtocol::FakeTcp,
        StealthProtocol::Quic,
        StealthProtocol::Wg,
        StealthProtocol::Ws,
        StealthProtocol::Wss,
    ]
}

/// A name in small letters is read as it stands.
proof fn lemma_plain_name(name: Seq<char>)
    requires
        name.len() > 0,
        forall|i: int| 0 <= i < name.len() ==> 'a' <= #[trigger] name[i] <= 'z',
    ensures
        trimmed(name) == name,
        lowered(name) == name,
        !name.contains(','),
{
    assert('a' <= name[0] <= 'z');
    assert('a' <= name[name.len() - 1] <= 'z');
    assert(lowered(name) =~= name);
}

/// The list that stands where none is configured names every transport.
pub proof fn lemma_default_list()
    ensures
        protocols_of_text(DEFAULT_STEALTH_PROTOCOLS@) == Ok::<_, StealthProtocolError>(
            every_protocol(),
        ),
{
    reveal_strlit("udp,tcp,faketcp,quic,wg,ws,wss");
    reveal_strlit("udp");
    reveal_strlit("tcp");
    reveal_strlit("faketcp");
    reveal_strlit("quic");
    reveal_strlit("wg");
    reveal_strlit("ws");
    reveal_strlit("wss");
    let text = DEFAULT_STEALTH_PROTOCOLS@;
    let i1 = seq!["udp"@];
    let i2 = i1.push("tcp"@);
    let i3 = i2.push("faketcp"@);
    let i4 = i3.push("quic"@);
    let i5 = i4.push("wg"@);
    let i6 = i5.push("ws"@);
    let i7 = i6.push("wss"@);
    lemma_plain_name("udp"@);
    lemma_plain_name("tcp"@);
    lemma_plain_name("faketcp"@);
    lemma_plain_name("quic"@);
    lemma_plain_name("wg"@);
    lemma_plain_name("ws"@);
    lemma_plain_name("wss"@);
    assert(i2.drop_last() =~= i1 && i3.drop_last() =~= i2 && i4.drop_last() =~= i3);
    assert(i5.drop_last() =~= i4 && i6.drop_last() =~= i5 && i7.drop_last() =~= i6);
    let j2 = joined(i2, ',');
    let j3 = joined(i3, ',');
    let j4 = joined(i4, ',');
    let j5 = joined(i5, ',');
    let j6 = joined(i6, ',');
    assert(joined(i1, ',') == "udp"@);
    assert(j2 =~= text.take(7));
    assert(j3 =~= text.take(15));
    assert(j4 =~= text.take(20));
    assert(j5 =~= text.take(23));
    assert(j6 =~= text.take(26));
    assert(joined(i7, ',') =~= text);
    law_join_and_split(i7, ',');
    assert(trimmed(text) == text);
    let all = every_protocol();
    assert(i1.drop_last() =~= Seq::<Seq<char>>::empty());
    assert(protocols_of_items(i1.drop_last()) == Ok::<_, StealthProtocolError>(
        Seq::<StealthProtocol>::empty(),
    ));
    assert(i1.last() == "udp"@);
    assert(all.take(1) =~= Seq::<StealthProtocol>::empty().push(StealthProtocol::Udp));
    assert(protocols_of_items(i1) == Ok::<_, StealthProtocolError>(all.take(1)));
    assert("tcp"@[0] != "udp"@[0]);
    assert(all.take(2) =~= all.take(1).push(StealthProtocol::Tcp));
    assert(protocols_of_items(i2) == Ok::<_, StealthProtocolError>(all.take(2)));
    assert("faketcp"@.len() == 7);
    assert(all.take(3) =~= all.take(2).push(StealthProtocol::FakeTcp));
    assert(protocols_of_items(i3) == Ok::<_, StealthProtocolError>(all.take(3)));
    assert("quic"@.len() == 4);
    assert(all.take(4) =~= all.take(3).push(StealthProtocol::Quic));
    assert(protocols_of_items(i4) == Ok::<_, StealthProtocolError>(all.take(4)));
    assert("wg"@.len() == 2);
    assert(all.take(5) =~= all.take(4).push(StealthProtocol::Wg));
    assert(protocols_of_items(i5) == Ok::<_, StealthProtocolError>(all.take(5)));
    assert("ws"@[1] != "wg"@[1]);
    assert(all.take(6) =~= all.take(5).push(StealthProtocol::Ws));
    assert(protocols_of_items(i6) == Ok::<_, StealthProtocolError>(all.take(6)));
    assert("wss"@[0] != "udp"@[0] && "wss"@[0] != "tcp"@[0]);
    assert(all =~= all.take(6).push(StealthProtocol::Wss));
}

/// A bad item makes the whole list bad, whatever follows it.
proof fn lemma_first_error_stays(items: Seq<Seq<char>>, n: int)
    requires
        0 <= n <= items.len(),
        protocols_of_items(items.take(n)) is Err,
    ensures
        protocols_of_items(items) == protocols_of_items(items.take(n)),
    decreases items.len() - n,
{
    if n < items.len() {
        assert(items.take(n + 1).drop_last() =~= items.take(n));
        lemma_first_error_stays(items, n + 1);
    } else {
        assert(items.take(n) =~= items);
    }
}

/// The configured transports that count: none while stealth is off, UDP alone where none is
/// configured, and else those that this build holds.
pub open spec fn effective(configured: Seq<StealthProtocol>, stealth_mode: bool) -> Seq<
    StealthProtocol,
> {
    if !stealth_mode {
        Seq::empty()
    } else if configured.len() == 0 {
        seq![StealthProtocol::Udp]
    } else {
        configured.filter(|p: StealthProtocol| p.implemented())
    }
}

/// What is advertised for the effective transports.
pub open spec fn advertised_capabilities(
    configured: Seq<StealthProtocol>,
    stealth_mode: bool,
) -> Seq<TransportStealthCapability> {
    effective(configured, stealth_mode).map_values(|p: StealthProtocol| p.advertised())
}

/// A configured list of stealth transports.
#[derive(Debug)]
pub struct StealthProtocolSet {
    protocols: Vec<StealthProtocol>,
}

impl View for StealthProtocolSet {
    type V = Seq<StealthProtocol>;

    closed spec fn view(&self) -> Seq<StealthProtocol> {
        self.protocols@
    }
}

impl Default for StealthProtocolSet {
    fn default() -> (r: Self)
        ensures
            r@ == Seq::<StealthProtocol>::empty(),
    {
        StealthProtocolSet { protocols: Vec::new() }
    }
}

fn protocol_by_name(item: &str) -> (r: Option<StealthProtocol>)
    ensures
        r == protocol_named(lowered(item@)),
{
    if lowers_to(item, "udp") {
        Some(StealthProtocol::Udp)
    } else if lowers_to(item, "tcp") {
        Some(StealthProtocol::Tcp)
    } else if lowers_to(item, "faketcp") {
        Some(StealthProtocol::FakeTcp)
    } else if lowers_to(item, "quic") {
        Some(StealthProtocol::Quic)
    } else if lowers_to(item, "wg") {
        Some(StealthProtocol::Wg)
    } else if lowers_to(item, "ws") {
        Some(StealthProtocol::Ws)
    } else if lowers_to(item, "wss") {
        Some(StealthProtocol::Wss)
    } else {
        None
    }
}

fn holds(protocols: &Vec<StealthProtocol>, protocol: StealthProtocol) -> (r: bool)
    ensures
        r == protocols@.contains(protocol),
{
    let mut i: usize = 0;
    while i < protocols.len()
        invariant
            i <= protocols@.len(),
            forall|j: int| 0 <= j < i ==> protocols@[j] != protocol,
        decreases protocols@.len() - i,
    {
        if protocols[i] == protocol {
            return true;
        }
        i += 1;
    }
    false
}

impl StealthProtocolSet {
    /// Reads a comma-separated list; blank text is the empty list.
    pub fn parse(value: &str) -> (r: Result<Self, StealthProtocolError>)
        ensures
            match r {
                Ok(set) => protocols_of_text(value@) == Ok::<
                    Seq<StealthProtocol>,
                    StealthProtocolError,
                >(set@),
                Err(error) => protocols_of_text(value@) == Err::<
                    Seq<StealthProtocol>,
                    StealthProtocolError,
                >(error),
            },
    {
        let list = trim(value);
        if list.is_empty() {
            return Ok(StealthProtocolSet { protocols: Vec::new() });
        }
        let items = split(list, ',');
        let ghost texts = parts(list@, ',');
        let mut protocols: Vec<StealthProtocol> = Vec::new();
        let mut i: usize = 0;
        assert(texts.take(0) =~= Seq::<Seq<char>>::empty());
        while i < items.len()
            invariant
                i <= items@.len(),
                items@.len() == texts.len(),
                forall|k: int| 0 <= k < items@.len() ==> (#[trigger] items@[k])@ == texts[k],
                protocols_of_items(texts.take(i as int)) == Ok::<
                    Seq<StealthProtocol>,
                    StealthProtocolError,
                >(protocols@),
                protocols_of_text(value@) == protocols_of_items(texts),
            decreases items@.len() - i,
        {
            proof {
                assert(texts.take(i as int + 1).drop_last() =~= texts.take(i as int));
                assert(texts.take(i as int + 1).last() == items@[i as int]@);
            }
            let item = trim(items[i]);
            match protocol_by_name(item) {
                None => {
                    let error = if item.is_empty() {
                        StealthProtocolError::EmptyProtocol
                    } else {
                        StealthProtocolError::UnknownProtocol
                    };
                    proof {
                        lemma_first_error_stays(texts, i as int + 1);
                    }
                    return Err(error);
                },
                Some(protocol) => {
                    if holds(&protocols, protocol) {
                        proof {
                            lemma_first_error_stays(texts, i as int + 1);
                        }
                        return Err(StealthProtocolError::DuplicateProtocol(protocol));
                    }
                    protocols.push(protocol);
                },
            }
            i += 1;
        }
        assert(texts.take(texts.len() as int) =~= texts);
        Ok(StealthProtocolSet { protocols })
    }

    pub fn effective_protocols(&self, stealth_mode: bool) -> (r: Vec<StealthProtocol>)
        ensures
            r@ == effective(self@, stealth_mode),
    {
        let mut out: Vec<StealthProtocol> = Vec::new();
        if !stealth_mode {
            return out;
        }
        if self.protocols.is_empty() {
            out.push(StealthProtocol::Udp);
            assert(out@ =~= seq![StealthProtocol::Udp]);
            return out;
        }
        let ghost pred = |p: StealthProtocol| p.implemented();
        let mut i: usize = 0;
        assert(self.protocols@.take(0) =~= Seq::<StealthProtocol>::empty());
        proof {
            reveal(Seq::filter);
        }
        while i < self.protocols.len()
            invariant
                i <= self.protocols@.len(),
                pred == |p: StealthProtocol| p.implemented(),
                out@ == self.protocols@.take(i as int).filter(pred),
            decreases self.protocols@.len() - i,
        {
            proof {
                reveal(Seq::filter);
                let next = self.protocols@.take(i as int + 1);
                assert(next.drop_last() =~= self.protocols@.take(i as int));
                assert(next.last() == self.protocols@[i as int]);
            }
            if self.protocols[i].is_implemented() {
                out.push(self.protocols[i]);
            }
            i += 1;
        }
        assert(self.protocols@.take(i as int) =~= self.protocols@);
        out
    }

    pub fn configured_protocols(&self) -> (r: Vec<StealthProtocol>)
        ensures
            r@ == self@,
    {
        let mut out: Vec<StealthProtocol> = Vec::new();
        let mut i: usize = 0;
        while i < self.protocols.len()
            invariant
                i <= self.protocols@.len(),
                out@ == self.protocols@.take(i as int),
            decreases self.protocols@.len() - i,
        {
            out.push(self.protocols[i]);
            i += 1;
            assert(self.protocols@.take(i as int) =~= self.protocols@.take(i as int - 1).push(
                self.protocols@[i as int - 1],
            ));
        }
        assert(self.protocols@.take(i as int) =~= self.protocols@);
        out
    }

    pub fn capabilities(&self, stealth_mode: bool) -> (r: Vec<TransportStealthCapability>)
        ensures
            r@ == advertised_capabilities(self@, stealth_mode),
    {
        let protocols = self.effective_protocols(stealth_mode);
        let mut out: Vec<TransportStealthCapability> = Vec::new();
        let mut i: usize = 0;
        while i < protocols.len()
            invariant
                i <= protocols@.len(),
                out@.len() == i,
                forall|j: int| 0 <= j < i ==> #[trigger] out@[j] == protocols@[j].advertised(),
            decreases protocols@.len() - i,
        {
            out.push(protocols[i].capability());
            i += 1;
        }
        assert(out@ =~= advertised_capabilities(self@, stealth_mode));
        out
    }

    pub fn contains(&self, stealth_mode: bool, protocol: StealthProtocol) -> (r: bool)
        ensures
            r == effective(self@, stealth_mode).contains(protocol),
    {
        let protocols = self.effective_protocols(stealth_mode);
        holds(&protocols, protocol)
    }
}

/// The flags make `protocol` stealthy.
pub open spec fn enabled_by(flags: Flags, protocol: StealthProtocol) -> bool {
    effective(protocols_of_text(flags.stealth_protocols@)->Ok_0, flags.stealth_mode).contains(
        protocol,
    )
}

/// Tells whether the flags make `protocol` stealthy. The list of the flags has been validated.
pub fn protocol_enabled(flags: &Flags, protocol: StealthProtocol) -> (r: bool)
    requires
        protocols_of_text(flags.stealth_protocols@) is Ok,
    ensures
        r == enabled_by(*flags, protocol),
{
    match StealthProtocolSet::parse(flags.stealth_protocols.as_str()) {
        Ok(set) => set.contains(flags.stealth_mode, protocol),
        Err(_) => false,
    }
}

/// The peer can make `protocol` stealthy: it says so of UDP as a whole, or advertises a fitting
/// capability.
pub open spec fn peer_supports(feature: PeerFeatureFlag, protocol: StealthProtocol) -> bool {
    ||| protocol == StealthProtocol::Udp && feature.stealth_supported
    ||| exists|i: int|
        0 <= i < feature.stealth_capabilities@.len() && (
        #[trigger] feature.stealth_capabilities@[i]).meets(protocol.advertised())
}

pub fn peer_supports_protocol(feature: &PeerFeatureFlag, protocol: StealthProtocol) -> (r: bool)
    ensures
        r == peer_supports(*feature, protocol),
{
    if protocol == StealthProtocol::Udp && feature.stealth_supported {
        return true;
    }
    let required = protocol.capability();
    let mut i: usize = 0;
    while i < feature.stealth_capabilities.len()
        invariant
            i <= feature.stealth_capabilities@.len(),
            required == protocol.advertised(),
            forall|j: int|
                0 <= j < i ==> !(#[trigger] feature.stealth_capabilities@[j]).meets(required),
        decreases feature.stealth_capabilities@.len() - i,
    {
        let capability = feature.stealth_capabilities[i];
        if capability.protocol == required.protocol && capability.wire_version
            == required.wire_version && capability.level_mask & required.level_mask != 0 {
            assert(feature.stealth_capabilities@[i as int].meets(required));
            return true;
        }
        i += 1;
    }
    false
}

/// Without a configured list, stealth means UDP alone; without stealth mode it means nothing.
pub proof fn law_blank_list_means_udp_alone(value: Seq<char>, protocol: StealthProtocol)
    requires
        trimmed(value).len() == 0,
    ensures
        protocols_of_text(value) is Ok,
        effective(protocols_of_text(value)->Ok_0, true).contains(protocol) <==> protocol
            == StealthProtocol::Udp,
        !effective(protocols_of_text(value)->Ok_0, false).contains(protocol),
{
    let one = seq![StealthProtocol::Udp];
    assert(one[0] == StealthProtocol::Udp);
}

/// An accepted list names no transport twice, and a transport is in effect exactly when stealth
/// mode is on, it is named, and this build holds it.
pub proof fn law_effective_transports(value: Seq<char>, stealth_mode: bool, protocol: StealthProtocol)
    requires
        protocols_of_text(value) is Ok,
        trimmed(value).len() > 0,
    ensures
        protocols_of_text(value)->Ok_0.no_duplicates(),
        protocols_of_text(value)->Ok_0.len() > 0,
        effective(protocols_of_text(value)->Ok_0, stealth_mode).contains(protocol) <==> stealth_mode
            && protocols_of_text(value)->Ok_0.contains(protocol) && protocol.implemented(),
{
    let items = parts(trimmed(value), ',');
    crate::text::law_split_and_join(trimmed(value), ',');
    lemma_items_without_duplicates(items);
    let named = protocols_of_text(value)->Ok_0;
    let pred = |p: StealthProtocol| p.implemented();
    lemma_filter_holds(named, pred, protocol);
}

proof fn lemma_items_without_duplicates(items: Seq<Seq<char>>)
    requires
        protocols_of_items(items) is Ok,
    ensures
        protocols_of_items(items)->Ok_0.no_duplicates(),
        protocols_of_items(items)->Ok_0.len() == items.len(),
    decreases items.len(),
{
    if items.len() > 0 {
        lemma_items_without_duplicates(items.drop_last());
    }
}

/// Filtering keeps exactly the members that pass.
pub proof fn lemma_filter_holds<A>(s: Seq<A>, pred: spec_fn(A) -> bool, x: A)
    ensures
        s.filter(pred).contains(x) <==> s.contains(x) && pred(x),
    decreases s.len(),
{
    reveal(Seq::filter);
    if s.len() > 0 {
        let front = s.drop_last();
        lemma_filter_holds(front, pred, x);
        assert(s.contains(x) <==> front.contains(x) || x == s.last()) by {
            if front.contains(x) {
                let j = choose|j: int| 0 <= j < front.len() && front[j] == x;
                assert(s[j] == x);
            }
            if x == s.last() {
                assert(s[s.len() - 1] == x);
            }
            if s.contains(x) {
                let j = choose|j: int| 0 <= j < s.len() && s[j] == x;
                if j < front.len() {
                    assert(front[j] == x);
                }
            }
        }
        if pred(s.last()) {
            let kept = front.filter(pred);
            assert(s.filter(pred) == kept.push(s.last()));
            if kept.contains(x) {
                let j = choose|j: int| 0 <= j < kept.len() && kept[j] == x;
                assert(s.filter(pred)[j] == x);
            }
            if x == s.last() {
                assert(s.filter(pred)[kept.len() as int] == x);
            }
        }
    }
}

/// The name of a transport tells it from every other.
pub proof fn lemma_names_tell(a: StealthProtocol, b: StealthProtocol)
    ensures
        a.name() == b.name() ==> a == b,
        0 < a.name().len() <= 7,
{
    reveal_strlit("udp");
    reveal_strlit("tcp");
    reveal_strlit("faketcp");
    reveal_strlit("quic");
    reveal_strlit("wg");
    reveal_strlit("ws");
    reveal_strlit("wss");
    assert("tcp"@[0] == 't' && "udp"@[0] == 'u' && "wss"@[0] == 'w');
    assert("wg"@[1] == 'g' && "ws"@[1] == 's');
    assert("tcp"@.len() == 3 && "udp"@.len() == 3 && "wg"@.len() == 2 && "quic"@.len() == 4
        && "ws"@.len() == 2 && "wss"@.len() == 3 && "faketcp"@.len() == 7);
}

/// A word names a transport if and only if it is the name of that transport.
pub proof fn law_words_name_their_transports(word: Seq<char>, protocol: StealthProtocol)
    ensures
        protocol_named(word) == Some(protocol) <==> protocol.name() == word,
{
    if protocol.name() == word {
        assert(protocol_named(word) is Some);
        lemma_names_tell(protocol_named(word)->0, protocol);
        assert(protocol_named(word)->0.name() == word);
    }
}

/// The word is the name of some transport.
pub open spec fn named_by_some(word: Seq<char>) -> bool {
    exists|p: StealthProtocol| (#[trigger] p.name()) == word
}

/// A list means the transports whose names are written, in their order: the name of each is the item,
/// without the white space around it and in lower case. A list is refused if and only if some item is
/// no name or two items are the same name.
pub proof fn law_lists_name_what_is_written(items: Seq<Seq<char>>)
    ensures
        protocols_of_items(items) is Ok ==> {
            let names = protocols_of_items(items)->Ok_0;
            &&& names.len() == items.len()
            &&& forall|i: int|
                0 <= i < items.len() ==> (#[trigger] names[i]).name() == lowered(trimmed(items[i]))
        },
        protocols_of_items(items) is Ok <==> {
            &&& forall|i: int|
                0 <= i < items.len() ==> named_by_some(lowered(trimmed(#[trigger] items[i])))
            &&& forall|i: int, j: int|
                0 <= i < j < items.len() ==> lowered(trimmed(#[trigger] items[i])) != lowered(
                    trimmed(#[trigger] items[j]),
                )
        },
    decreases items.len(),
{
    if items.len() > 0 {
        let front = items.drop_last();
        law_lists_name_what_is_written(front);
        let word = lowered(trimmed(items.last()));
        assert(items[items.len() - 1] == items.last());
        assert forall|i: int| 0 <= i < front.len() implies front[i] == #[trigger] items[i] by {}
        if protocol_named(word) is None {
            assert(!named_by_some(word)) by {
                if named_by_some(word) {
                    let p = choose|p: StealthProtocol| (#[trigger] p.name()) == word;
                    law_words_name_their_transports(word, p);
                }
            }
        } else {
            let protocol = protocol_named(word)->0;
            law_words_name_their_transports(word, protocol);
            assert(named_by_some(word));
            if protocols_of_items(front) is Ok {
                let before = protocols_of_items(front)->Ok_0;
                if before.contains(protocol) {
                    let i = choose|i: int| 0 <= i < before.len() && before[i] == protocol;
                    assert(before[i].name() == lowered(trimmed(front[i])));
                    assert(lowered(trimmed(items[i])) == lowered(trimmed(items[items.len() - 1])));
                } else {
                    assert forall|i: int, j: int| 0 <= i < j < items.len() implies lowered(
                        trimmed(#[trigger] items[i]),
                    ) != lowered(trimmed(#[trigger] items[j])) by {
                        if j < front.len() {
                            assert(lowered(trimmed(front[i])) != lowered(trimmed(front[j])));
                        } else {
                            lemma_names_tell(before[i], protocol);
                            assert(before.contains(before[i]));
                        }
                    }
                    assert forall|i: int| 0 <= i < items.len() implies named_by_some(
                        lowered(trimmed(#[trigger] items[i])),
                    ) by {
                        if i < front.len() {
                            assert(named_by_some(lowered(trimmed(front[i]))));
                        }
                    }
                }
            }
        }
        if protocols_of_items(front) is Err {
            if forall|i: int|
                0 <= i < items.len() ==> named_by_some(lowered(trimmed(#[trigger] items[i]))) {
                assert forall|i: int| 0 <= i < front.len() implies named_by_some(
                    lowered(trimmed(#[trigger] front[i])),
                ) by {
                    assert(named_by_some(lowered(trimmed(items[i]))));
                }
                let (i, j) = choose|i: int, j: int|
                    0 <= i < j < front.len() && lowered(trimmed(#[trigger] front[i])) == lowered(
                        trimmed(#[trigger] front[j]),
                    );
                assert(lowered(trimmed(items[i])) == lowered(trimmed(items[j])));
            }
        }
    }
}

/// What is advertised for a transport meets what is required for that transport and for no other.
pub proof fn law_capabilities_meet_their_own(a: StealthProtocol, b: StealthProtocol)
    ensures
        a.advertised().meets(b.advertised()) <==> a == b,
        a.advertised().wire_version == 1,
        !(a.advertised().protocol is Other),
{
    assert(1u32 & 1u32 != 0 && 2u32 & 2u32 != 0 && 4u32 & 4u32 != 0) by (bit_vector);
}

/// A peer can do what this node advertises for a transport if it advertises the same; a capability of
/// another wire version does not count. A peer that advertises nothing can do UDP if it says so, and
/// nothing else.
pub proof fn law_peers_can_do_what_they_advertise(feature: PeerFeatureFlag, protocol: StealthProtocol)
    ensures
        feature.stealth_capabilities@.contains(protocol.advertised()) ==> peer_supports(
            feature,
            protocol,
        ),
        feature.stealth_capabilities@.len() == 0 ==> (peer_supports(feature, protocol) <==> protocol
            is Udp && feature.stealth_supported),
        (forall|i: int|
            0 <= i < feature.stealth_capabilities@.len() ==> (
            #[trigger] feature.stealth_capabilities@[i]).wire_version != 1) && !feature.stealth_supported
            ==> !peer_supports(feature, protocol),
        (forall|i: int|
            0 <= i < feature.stealth_capabilities@.len() ==> (
            #[trigger] feature.stealth_capabilities@[i]).protocol != protocol.advertised().protocol)
            && !(protocol is Udp) ==> !peer_supports(feature, protocol),
{
    if feature.stealth_capabilities@.contains(protocol.advertised()) {
        let i = choose|i: int|
            0 <= i < feature.stealth_capabilities@.len() && feature.stealth_capabilities@[i]
                == protocol.advertised();
        law_capabilities_meet_their_own(protocol, protocol);
        assert(feature.stealth_capabilities@[i].meets(protocol.advertised()));
    }
}

/// Two nodes with the same configuration understand each other: a peer that advertises what is in
/// effect can do each transport that is in effect.
pub proof fn law_equal_nodes_understand_each_other(
    configured: Seq<StealthProtocol>,
    stealth_mode: bool,
    feature: PeerFeatureFlag,
    protocol: StealthProtocol,
)
    requires
        feature.stealth_capabilities@ == advertised_capabilities(configured, stealth_mode),
        effective(configured, stealth_mode).contains(protocol),
    ensures
        peer_supports(feature, protocol),
{
    let own = effective(configured, stealth_mode);
    let i = choose|i: int| 0 <= i < own.len() && own[i] == protocol;
    assert(feature.stealth_capabilities@[i] == protocol.advertised());
    law_peers_can_do_what_they_advertise(feature, protocol);
}

/// Transports over datagrams do not answer strangers at all; WebSocket over TLS looks like a web
/// server; the others let nobody in who does not prove that it belongs.
pub proof fn law_levels_of_stealth(protocol: StealthProtocol)
    ensures
        protocol is Udp || protocol is Quic || protocol is Wg <==> protocol.advertised().level_mask
            == STEALTH_LEVEL_SILENT,
        protocol is Wss <==> protocol.advertised().level_mask == STEALTH_LEVEL_CAMOUFLAGED,
        protocol is Tcp || protocol is FakeTcp || protocol is Ws
            <==> protocol.advertised().level_mask == STEALTH_LEVEL_AUTHENTICATED,
{
}

} // verus!
