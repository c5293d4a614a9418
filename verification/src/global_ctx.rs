//! The state that all parts of a node share, and the decisions that are made on it.
use vstd::bytes::*;
use vstd::prelude::*;
use vstd::std_specs::hash::DefaultHasherAdditionalSpecFns;
use vstd::string::StringSliceAdditionalSpecFns;
use vstd::utf8::encode_utf8;
use hmac::Mac as _;
use std::hash::{DefaultHasher, Hasher};

use crate::addr::{IpAddress, IpScheme, PeerId, SocketAddress};
use crate::build_features::{FEATURE_KCP, FEATURE_QUIC};
use crate::config::{AdvertisedFeatures, Flags, PeerFeatureFlag};
use crate::ip_range::{IpCidr, Ipv4Inet, Ipv6Inet};
use crate::loop_suppression::{
    slot_of, ProtocolLoopScope, ProtocolLoopSuppression, PROTOCOL_LOOP_SUPPRESS_SECS,
};
use crate::stealth_registry::{
    advertised_capabilities, effective, enabled_by, protocols_of_text, StealthProtocol,
    StealthProtocolSet,
};
use crate::text::{parts, same_text, split, trim, trimmed};
use crate::trusted_keys::{TrustedKeyMap, TrustedKeyMapManager, TrustedKeySource};
use crate::underlay_breaker::{
    any_gate, called_off_entries, entries_for_attempt, BreakerEntries, UnderlayBreaker,
    UnderlayBreakerGateError, UnderlayBreakerKey, UnderlayBreakerScope, UnderlayBreakerStrikeKind,
    UnderlayPreflightGuard,
};

verus! {

/// The version of the acknowledgements with which a proxy target confirms a prepared stream.
pub const PROXY_PREPARE_ACK_VERSION: u32 = 1;

/// The text is absent or blank.
pub open spec fn blank(secret: Option<Seq<char>>) -> bool {
    secret is None || trimmed(secret->0).len() == 0
}

pub open spec fn text_of(secret: Option<String>) -> Option<Seq<char>> {
    match secret {
        Some(text) => Some(text@),
        None => None,
    }
}

fn is_blank(secret: &Option<String>) -> (r: bool)
    ensures
        r == blank(text_of(*secret)),
{
    match secret {
        None => true,
        Some(text) => trim(text.as_str()).is_empty(),
    }
}

/// The key pair with which connections are encrypted, or the wish to have none.
#[derive(Debug)]
pub struct SecureModeConfig {
    pub enabled: bool,
    pub local_private_key: Option<String>,
    pub local_public_key: Option<String>,
}

/// A key pair that was generated for this run of the node.
#[derive(Debug)]
pub struct GeneratedKeyPair {
    pub private_key: String,
    pub public_key: String,
}

impl GeneratedKeyPair {
    /// Secure mode with this key pair.
    pub open spec fn config(self) -> SecureModeConfig {
        SecureModeConfig {
            enabled: true,
            local_private_key: Some(self.private_key),
            local_public_key: Some(self.public_key),
        }
    }

    fn into_config(self) -> (r: SecureModeConfig)
        ensures
            r == self.config(),
    {
        SecureModeConfig {
            enabled: true,
            local_private_key: Some(self.private_key),
            local_public_key: Some(self.public_key),
        }
    }
}

/// Secure mode is in effect: as configured or, where nothing is configured, for a stealthy
/// network with a secret.
pub open spec fn secure_mode_in_effect(
    explicit: Option<SecureModeConfig>,
    stealth_mode: bool,
    secret: Option<Seq<char>>,
) -> bool {
    match explicit {
        Some(config) => config.enabled,
        None => stealth_mode && !blank(secret),
    }
}

/// Stealth is in effect: it is wanted, connections are secured, and there is a secret.
pub open spec fn stealth_in_effect(
    secret: Option<Seq<char>>,
    stealth_mode: bool,
    secure_mode: bool,
) -> bool {
    stealth_mode && secure_mode && !blank(secret)
}

/// The advertised features with the ones that stealth decides.
pub open spec fn with_stealth(
    features: AdvertisedFeatures,
    flags: Flags,
    stealth_enabled: bool,
) -> AdvertisedFeatures {
    let configured = protocols_of_text(flags.stealth_protocols@)->Ok_0;
    AdvertisedFeatures {
        stealth_supported: stealth_enabled && effective(configured, flags.stealth_mode).contains(
            StealthProtocol::Udp,
        ),
        stealth_capabilities: if stealth_enabled {
            advertised_capabilities(configured, flags.stealth_mode)
        } else {
            Seq::empty()
        },
        ..features
    }
}

/// The advertised features with the avoidance of relayed data that the flags force.
pub open spec fn with_relay_ban(features: AdvertisedFeatures, flags: Flags) -> AdvertisedFeatures {
    AdvertisedFeatures {
        avoid_relay_data: features.avoid_relay_data || flags.disable_relay_data,
        ..features
    }
}

/// What is advertised for the flags, on top of what the runtime contributes.
pub open spec fn derived_features(
    flags: Flags,
    base: AdvertisedFeatures,
    stealth_enabled: bool,
) -> AdvertisedFeatures {
    with_relay_ban(
        with_stealth(
            AdvertisedFeatures {
                kcp_input: FEATURE_KCP && !flags.disable_kcp_input,
                no_relay_kcp: flags.disable_relay_kcp,
                support_conn_list_sync: true,
                quic_input: FEATURE_QUIC && !flags.disable_quic_input,
                no_relay_quic: flags.disable_relay_quic,
                proxy_prepare_ack_version: if FEATURE_KCP || FEATURE_QUIC {
                    PROXY_PREPARE_ACK_VERSION
                } else {
                    0
                },
                need_p2p: flags.need_p2p,
                disable_p2p: flags.disable_p2p,
                ..base
            },
            flags,
            stealth_enabled,
        ),
        flags,
    )
}

fn apply_stealth(features: &mut PeerFeatureFlag, flags: &Flags, stealth_enabled: bool)
    requires
        protocols_of_text(flags.stealth_protocols@) is Ok,
    ensures
        final(features)@ == with_stealth(old(features)@, *flags, stealth_enabled),
{
    let protocols = match StealthProtocolSet::parse(flags.stealth_protocols.as_str()) {
        Ok(protocols) => protocols,
        Err(_) => StealthProtocolSet::default(),
    };
    features.stealth_supported =
    stealth_enabled && protocols.contains(flags.stealth_mode, StealthProtocol::Udp);
    features.stealth_capabilities =
    if stealth_enabled {
        protocols.capabilities(flags.stealth_mode)
    } else {
        Vec::new()
    };
}

/// Makes the advertised features avoid relayed data where the flags forbid it.
pub fn apply_disable_relay_data_flag(flags: &Flags, feature_flags: PeerFeatureFlag) -> (r:
    PeerFeatureFlag)
    ensures
        r@ == with_relay_ban(feature_flags@, *flags),
{
    let mut features = feature_flags;
    if flags.disable_relay_data {
        features.avoid_relay_data = true;
    }
    features
}

/// Computes what is advertised for the flags.
pub fn derive_feature_flags(flags: &Flags, base: &PeerFeatureFlag, stealth_enabled: bool) -> (r:
    PeerFeatureFlag)
    requires
        protocols_of_text(flags.stealth_protocols@) is Ok,
    ensures
        r@ == derived_features(*flags, base@, stealth_enabled),
{
    let mut features = base.clone();
    features.kcp_input = FEATURE_KCP && !flags.disable_kcp_input;
    features.no_relay_kcp = flags.disable_relay_kcp;
    features.support_conn_list_sync = true;
    features.quic_input = FEATURE_QUIC && !flags.disable_quic_input;
    features.no_relay_quic = flags.disable_relay_quic;
    features.proxy_prepare_ack_version =
    if FEATURE_KCP || FEATURE_QUIC {
        PROXY_PREPARE_ACK_VERSION
    } else {
        0
    };
    features.need_p2p = flags.need_p2p;
    features.disable_p2p = flags.disable_p2p;
    apply_stealth(&mut features, flags, stealth_enabled);
    apply_disable_relay_data_flag(flags, features)
}

/// The pattern stands for the whole text: a question mark for any one character, an asterisk for any
/// number of them, and every other character for itself.
pub open spec fn wildcard_matches(pattern: Seq<char>, text: Seq<char>) -> bool
    decreases pattern.len() + text.len(),
{
    if pattern.len() == 0 {
        text.len() == 0
    } else if pattern[0] == '*' {
        wildcard_matches(pattern.skip(1), text) || (text.len() > 0 && wildcard_matches(
            pattern,
            text.skip(1),
        ))
    } else {
        text.len() > 0 && (pattern[0] == '?' || pattern[0] == text[0]) && wildcard_matches(
            pattern.skip(1),
            text.skip(1),
        )
    }
}

/// Matches with `wildmatch::WildMatch`. What is claimed of it: a question mark of the pattern stands
/// for any one character, an asterisk for any number of them, and every other character for itself.
#[verifier::external_body]
fn matches_wildcard(pattern: &str, text: &str) -> (r: bool)
    ensures
        r == wildcard_matches(pattern@, text@),
{
    wildmatch::WildMatch::new(pattern).matches(text)
}

/// The whitelist, a list of patterns with blanks between them, has a pattern for the name.
pub open spec fn whitelisted(whitelist: Seq<char>, name: Seq<char>) -> bool {
    exists|i: int|
        0 <= i < parts(whitelist, ' ').len() && wildcard_matches(
            #[trigger] parts(whitelist, ' ')[i],
            name,
        )
}

/// HMAC-SHA256 of a message under a key.
pub uninterp spec fn hmac_sha256(key: Seq<u8>, message: Seq<u8>) -> Seq<u8>;

/// Computes HMAC-SHA256 with `hmac::Hmac`. What is claimed of it: the tag depends on the key and
/// the message alone, and has 32 bytes. A key of any length is accepted.
#[verifier::external_body]
fn hmac_sha256_tag(key: &[u8], message: &[u8]) -> (r: Vec<u8>)
    ensures
        r@ == hmac_sha256(key@, message@),
        r@.len() == 32,
{
    let mut mac = hmac::Hmac::<sha2::Sha256>::new_from_slice(key).unwrap();
    mac.update(message);
    mac.finalize().into_bytes().to_vec()
}

/// A number as eight bytes, the most significant first.
pub open spec fn big_endian(value: u64) -> Seq<u8> {
    spec_u64_to_le_bytes(value).reverse()
}

fn push_big_endian(out: &mut Vec<u8>, value: u64)
    ensures
        final(out)@ == old(out)@ + big_endian(value),
{
    let bytes = u64_to_le_bytes(value);
    let ghost start = out@;
    proof {
        lemma_auto_spec_u64_to_from_le_bytes();
    }
    let mut i: usize = 8;
    while i > 0
        invariant
            i <= 8,
            bytes@.len() == 8,
            bytes@ == spec_u64_to_le_bytes(value),
            out@ == start + big_endian(value).take(8 - i),
        decreases i,
    {
        i -= 1;
        out.push(bytes[i]);
        proof {
            let all = big_endian(value);
            assert(all[7 - i] == bytes@[i as int]);
            assert(all.take(8 - i) =~= all.take(7 - i).push(all[7 - i]));
        }
    }
    assert(big_endian(value).take(8) =~= big_endian(value));
}

/// The bytes of a secret; an absent one has none.
pub open spec fn secret_bytes(secret: Option<String>) -> Seq<u8> {
    match secret {
        Some(text) => encode_utf8(text@),
        None => Seq::empty(),
    }
}

/// The bytes of the first half of the 128-bit key of a secret.
pub open spec fn key_128_start(secret: Seq<u8>) -> Seq<u8> {
    big_endian(DefaultHasher::spec_finish(seq![secret]))
}

/// The 128-bit key of a secret.
pub open spec fn key_128(secret: Seq<u8>) -> Seq<u8> {
    let start = key_128_start(secret);
    start + big_endian(DefaultHasher::spec_finish(seq![secret, start]))
}

/// What has been hashed, and the key so far, after `blocks` blocks of the 256-bit key.
pub open spec fn key_256_blocks(secret: Seq<u8>, blocks: nat) -> (Seq<Seq<u8>>, Seq<u8>)
    decreases blocks,
{
    if blocks == 0 {
        (seq![secret, "easytier-256bit-key".spec_bytes()], Seq::empty())
    } else {
        let (hashed, key) = key_256_blocks(secret, (blocks - 1) as nat);
        let more = hashed.push(key).push(seq![(blocks - 1) as u8]);
        (more, key + big_endian(DefaultHasher::spec_finish(more)))
    }
}

/// The 256-bit key of a secret.
pub open spec fn key_256(secret: Seq<u8>) -> Seq<u8> {
    key_256_blocks(secret, 4).1
}

/// An address on which the node listens.
#[derive(Debug)]
pub struct RunningListener {
    pub url: String,
    pub port: Option<u16>,
    pub is_udp: bool,
}

/// A group of the access rules.
#[derive(Debug)]
pub struct GroupIdentity {
    pub group_name: String,
    pub group_secret: String,
}

/// The list holds the text.
pub open spec fn lists_text(list: Seq<String>, text: Seq<char>) -> bool {
    exists|i: int| 0 <= i < list.len() && (#[trigger] list[i])@ == text
}

fn list_has(list: &Vec<String>, text: &str) -> (r: bool)
    ensures
        r == lists_text(list@, text@),
{
    let mut i: usize = 0;
    while i < list.len()
        invariant
            i <= list@.len(),
            forall|j: int| 0 <= j < i ==> (#[trigger] list@[j])@ != text@,
        decreases list@.len() - i,
    {
        if same_text(list[i].as_str(), text) {
            assert(list@[i as int]@ == text@);
            return true;
        }
        i += 1;
    }
    false
}

/// The places of the declared groups that the node is a member of, in order.
pub open spec fn joined_groups(members: Seq<String>, declares: Seq<GroupIdentity>) -> Seq<int>
    decreases declares.len(),
{
    if declares.len() == 0 {
        Seq::empty()
    } else {
        let before = joined_groups(members, declares.drop_last());
        if lists_text(members, declares.last().group_name@) {
            before.push(declares.len() - 1)
        } else {
            before
        }
    }
}

/// The breaker keys of an attempt.
#[derive(Clone, Copy, Debug)]
pub struct UnderlayAttemptContext {
    pub endpoint_key: UnderlayBreakerKey,
    pub peer_key: Option<UnderlayBreakerKey>,
}

impl UnderlayAttemptContext {
    pub fn new(
        remote_addr: SocketAddress,
        scheme: IpScheme,
        scope: UnderlayBreakerScope,
        peer_id_hint: Option<PeerId>,
    ) -> (r: Self)
        ensures
            r.endpoint_key == (UnderlayBreakerKey::Endpoint { remote_addr, scheme, scope }),
            r.peer_key == (match peer_id_hint {
                Some(peer_id) => Some(UnderlayBreakerKey::Peer { peer_id, scheme, scope }),
                None => None,
            }),
    {
        UnderlayAttemptContext {
            endpoint_key: UnderlayBreakerKey::endpoint(remote_addr, scheme, scope),
            peer_key: match peer_id_hint {
                Some(peer_id) => Some(UnderlayBreakerKey::peer(peer_id, scheme, scope)),
                None => None,
            },
        }
    }

    /// Adds the peer once it is known; a peer that was given before stays.
    pub fn set_peer_id_if_missing(&mut self, peer_id: PeerId)
        ensures
            final(self).endpoint_key == old(self).endpoint_key,
            final(self).peer_key == (if old(self).peer_key is Some {
                old(self).peer_key
            } else {
                Some(
                    UnderlayBreakerKey::Peer {
                        peer_id,
                        scheme: old(self).endpoint_key.spec_scheme(),
                        scope: old(self).endpoint_key.spec_scope(),
                    },
                )
            }),
    {
        if self.peer_key.is_none() {
            self.peer_key =
            Some(
                UnderlayBreakerKey::peer(
                    peer_id,
                    self.endpoint_key.scheme(),
                    self.endpoint_key.scope(),
                ),
            );
        }
    }
}

/// The shared state.
pub struct GlobalCtx {
    pub network_name: String,
    pub network_secret: Option<String>,
    pub secure_mode: Option<SecureModeConfig>,
    pub derived_secure_mode: Option<SecureModeConfig>,
    pub ipv4: Option<Ipv4Inet>,
    pub ipv6: Option<Ipv6Inet>,
    pub public_ipv6_lease: Option<Ipv6Inet>,
    pub public_ipv6_routes: Vec<u128>,
    pub advertised_ipv6_public_addr_prefix: Option<IpCidr>,
    pub running_listeners: Vec<RunningListener>,
    pub flags: Flags,
    pub loops: ProtocolLoopSuppression,
    pub breaker: UnderlayBreaker,
    pub base_feature_flags: PeerFeatureFlag,
    pub feature_flags: PeerFeatureFlag,
    pub trusted_keys: TrustedKeyMapManager,
}

impl GlobalCtx {
    /// The configured list of stealth transports is valid, a secure mode that was not configured is
    /// enabled, and the parts are well formed.
    pub open spec fn wf(&self) -> bool {
        &&& protocols_of_text(self.flags.stealth_protocols@) is Ok
        &&& self.loops.wf()
        &&& self.breaker.wf()
        &&& self.trusted_keys.wf()
        &&& self.ipv4 is Some ==> self.ipv4->0.wf()
        &&& self.derived_secure_mode is Some ==> self.derived_secure_mode->0.enabled
    }

    pub open spec fn secret(&self) -> Option<Seq<char>> {
        text_of(self.network_secret)
    }

    /// Secure mode is in effect.
    pub open spec fn secure(&self) -> bool {
        secure_mode_in_effect(self.secure_mode, self.flags.stealth_mode, self.secret())
    }

    /// Stealth is in effect.
    pub open spec fn stealthy(&self) -> bool {
        stealth_in_effect(self.secret(), self.flags.stealth_mode, self.secure())
    }

    /// The state of a node that starts with the given configuration.
    pub fn new(
        network_name: String,
        network_secret: Option<String>,
        secure_mode: Option<SecureModeConfig>,
        flags: Flags,
    ) -> (r: Self)
        requires
            protocols_of_text(flags.stealth_protocols@) is Ok,
        ensures
            r.wf(),
            r.network_name == network_name,
            r.network_secret == network_secret,
            r.secure_mode == secure_mode,
            r.flags == flags,
            r.derived_secure_mode is None,
            r.ipv4 is None && r.ipv6 is None && r.public_ipv6_lease is None,
            r.public_ipv6_routes@.len() == 0,
            r.running_listeners@.len() == 0,
            r.advertised_ipv6_public_addr_prefix is None,
            r.breaker@ == BreakerEntries::empty(),
            forall|name: Seq<char>| #[trigger] r.trusted_keys.trusted(name) is None,
            r.feature_flags@ == derived_features(flags, r.base_feature_flags@, r.stealthy()),
            !r.base_feature_flags.avoid_relay_data && !r.base_feature_flags.is_public_server,
            !r.base_feature_flags.ipv6_public_addr_provider,
    {
        let base_feature_flags = PeerFeatureFlag::default();
        let secure = match &secure_mode {
            Some(config) => config.enabled,
            None => flags.stealth_mode && !is_blank(&network_secret),
        };
        let stealthy = flags.stealth_mode && secure && !is_blank(&network_secret);
        let feature_flags = derive_feature_flags(&flags, &base_feature_flags, stealthy);
        GlobalCtx {
            network_name,
            network_secret,
            secure_mode,
            derived_secure_mode: None,
            ipv4: None,
            ipv6: None,
            public_ipv6_lease: None,
            public_ipv6_routes: Vec::new(),
            advertised_ipv6_public_addr_prefix: None,
            running_listeners: Vec::new(),
            flags,
            loops: ProtocolLoopSuppression::new(),
            breaker: UnderlayBreaker::new(),
            base_feature_flags,
            feature_flags,
            trusted_keys: TrustedKeyMapManager::new(),
        }
    }

    /// Tells whether data of the named network may be relayed.
    pub fn check_network_in_whitelist(&self, network_name: &str) -> (r: bool)
        ensures
            r == whitelisted(self.flags.relay_network_whitelist@, network_name@),
    {
        let patterns = split(self.flags.relay_network_whitelist.as_str(), ' ');
        let ghost texts = parts(self.flags.relay_network_whitelist@, ' ');
        let mut i: usize = 0;
        while i < patterns.len()
            invariant
                i <= patterns@.len(),
                patterns@.len() == texts.len(),
                texts == parts(self.flags.relay_network_whitelist@, ' '),
                forall|k: int| 0 <= k < patterns@.len() ==> (#[trigger] patterns@[k])@ == texts[k],
                forall|k: int|
                    0 <= k < i ==> !wildcard_matches(#[trigger] texts[k], network_name@),
            decreases patterns@.len() - i,
        {
            assert(patterns@[i as int]@ == texts[i as int]);
            if matches_wildcard(patterns[i], network_name) {
                return true;
            }
            i += 1;
        }
        false
    }

    /// The places of the declared groups that the node is a member of, in order.
    pub fn get_acl_groups(members: &Vec<String>, declares: &Vec<GroupIdentity>) -> (r: Vec<usize>)
        ensures
            r@.map_values(|i: usize| i as int) == joined_groups(members@, declares@),
            forall|k: int| 0 <= k < r@.len() ==> #[trigger] r@[k] < declares@.len(),
    {
        let mut out: Vec<usize> = Vec::new();
        let mut i: usize = 0;
        assert(declares@.take(0) =~= Seq::<GroupIdentity>::empty());
        assert(out@.map_values(|i: usize| i as int) =~= Seq::<int>::empty());
        while i < declares.len()
            invariant
                i <= declares@.len(),
                out@.map_values(|i: usize| i as int) == joined_groups(
                    members@,
                    declares@.take(i as int),
                ),
                forall|k: int| 0 <= k < out@.len() ==> #[trigger] out@[k] < i,
            decreases declares@.len() - i,
        {
            proof {
                assert(declares@.take(i as int + 1).drop_last() =~= declares@.take(i as int));
                assert(declares@.take(i as int + 1).last() == declares@[i as int]);
            }
            if list_has(members, declares[i].group_name.as_str()) {
                let ghost before = out@.map_values(|i: usize| i as int);
                out.push(i);
                assert(out@.map_values(|i: usize| i as int) =~= before.push(i as int));
            }
            i += 1;
        }
        assert(declares@.take(declares@.len() as int) =~= declares@);
        out
    }

    pub fn get_network_name(&self) -> (r: String)
        ensures
            r@ == self.network_name@,
    {
        self.network_name.clone()
    }

    pub fn get_ipv4(&self) -> (r: Option<Ipv4Inet>)
        ensures
            r == self.ipv4,
    {
        self.ipv4
    }

    pub fn get_ipv6(&self) -> (r: Option<Ipv6Inet>)
        ensures
            r == self.ipv6,
    {
        self.ipv6
    }

    pub fn get_public_ipv6_lease(&self) -> (r: Option<Ipv6Inet>)
        ensures
            r == self.public_ipv6_lease,
    {
        self.public_ipv6_lease
    }

    pub fn get_advertised_ipv6_public_addr_prefix(&self) -> (r: Option<IpCidr>)
        ensures
            r == self.advertised_ipv6_public_addr_prefix,
    {
        self.advertised_ipv6_public_addr_prefix
    }

    pub fn get_running_listeners(&self) -> (r: &Vec<RunningListener>)
        ensures
            *r == self.running_listeners,
    {
        &self.running_listeners
    }

    pub fn set_ipv4(&mut self, addr: Option<Ipv4Inet>)
        requires
            addr is Some ==> addr->0.wf(),
        ensures
            *final(self) == (GlobalCtx { ipv4: addr, ..*old(self) }),
    {
        self.ipv4 = addr;
    }

    pub fn set_ipv6(&mut self, addr: Option<Ipv6Inet>)
        ensures
            *final(self) == (GlobalCtx { ipv6: addr, ..*old(self) }),
    {
        self.ipv6 = addr;
    }

    pub fn set_public_ipv6_lease(&mut self, addr: Option<Ipv6Inet>)
        ensures
            *final(self) == (GlobalCtx { public_ipv6_lease: addr, ..*old(self) }),
    {
        self.public_ipv6_lease = addr;
    }

    /// Replaces the routed addresses by those of the given networks.
    pub fn set_public_ipv6_routes(&mut self, routes: &Vec<Ipv6Inet>)
        ensures
            final(self).public_ipv6_routes@ == routes@.map_values(|r: Ipv6Inet| r.address),
            *final(self) == (GlobalCtx {
                public_ipv6_routes: final(self).public_ipv6_routes,
                ..*old(self)
            }),
    {
        let mut addresses: Vec<u128> = Vec::new();
        let mut i: usize = 0;
        while i < routes.len()
            invariant
                i <= routes@.len(),
                addresses@.len() == i,
                forall|j: int| 0 <= j < i ==> #[trigger] addresses@[j] == routes@[j].address,
            decreases routes@.len() - i,
        {
            addresses.push(routes[i].address);
            i += 1;
        }
        assert(addresses@ =~= routes@.map_values(|r: Ipv6Inet| r.address));
        self.public_ipv6_routes = addresses;
    }

    /// The address is this node's own virtual or leased IPv6 address.
    pub open spec fn local_ipv6(&self, ip: u128) -> bool {
        (self.ipv6 is Some && self.ipv6->0.address == ip) || (self.public_ipv6_lease is Some
            && self.public_ipv6_lease->0.address == ip)
    }

    pub fn is_ip_local_ipv6(&self, ip: u128) -> (r: bool)
        ensures
            r == self.local_ipv6(ip),
    {
        let own = match self.ipv6 {
            Some(inet) => inet.address == ip,
            None => false,
        };
        let leased = match self.public_ipv6_lease {
            Some(inet) => inet.address == ip,
            None => false,
        };
        own || leased
    }

    /// The address belongs to the overlay: it is this node's own or a routed one.
    pub open spec fn managed_ipv6(&self, ip: u128) -> bool {
        self.local_ipv6(ip) || self.public_ipv6_routes@.contains(ip)
    }

    pub fn is_ip_easytier_managed_ipv6(&self, ip: u128) -> (r: bool)
        ensures
            r == self.managed_ipv6(ip),
    {
        if self.is_ip_local_ipv6(ip) {
            return true;
        }
        let mut i: usize = 0;
        while i < self.public_ipv6_routes.len()
            invariant
                i <= self.public_ipv6_routes@.len(),
                !self.local_ipv6(ip),
                forall|j: int| 0 <= j < i ==> self.public_ipv6_routes@[j] != ip,
            decreases self.public_ipv6_routes@.len() - i,
        {
            if self.public_ipv6_routes[i] == ip {
                return true;
            }
            i += 1;
        }
        false
    }

    /// Stores the advertised prefix; tells whether it changed.
    pub fn set_advertised_ipv6_public_addr_prefix(&mut self, prefix: Option<IpCidr>) -> (r: bool)
        ensures
            r == (old(self).advertised_ipv6_public_addr_prefix != prefix),
            *final(self) == (GlobalCtx {
                advertised_ipv6_public_addr_prefix: prefix,
                ..*old(self)
            }),
    {
        let same = match (self.advertised_ipv6_public_addr_prefix, prefix) {
            (None, None) => true,
            (Some(a), Some(b)) => a == b,
            _ => false,
        };
        if same {
            return false;
        }
        self.advertised_ipv6_public_addr_prefix = prefix;
        true
    }

    /// The address lies in this node's virtual network.
    pub open spec fn same_network(&self, ip: IpAddress) -> bool {
        match ip {
            IpAddress::V4(v4) => self.ipv4 is Some && self.ipv4->0.holds(v4),
            IpAddress::V6(v6) => self.ipv6 is Some && self.ipv6->0.holds(v6),
        }
    }

    pub fn is_ip_in_same_network(&self, ip: &IpAddress) -> (r: bool)
        ensures
            r == self.same_network(*ip),
    {
        match *ip {
            IpAddress::V4(v4) => match self.ipv4 {
                Some(inet) => inet.first <= v4 && v4 <= inet.last,
                None => false,
            },
            IpAddress::V6(v6) => match self.ipv6 {
                Some(inet) => inet.first <= v6 && v6 <= inet.last,
                None => false,
            },
        }
    }

    /// The address is this node's own virtual or leased address.
    pub open spec fn local_virtual_ip(&self, ip: IpAddress) -> bool {
        match ip {
            IpAddress::V4(v4) => self.ipv4 is Some && self.ipv4->0.address == v4,
            IpAddress::V6(v6) => self.local_ipv6(v6),
        }
    }

    pub fn is_ip_local_virtual_ip(&self, ip: &IpAddress) -> (r: bool)
        ensures
            r == self.local_virtual_ip(*ip),
    {
        match *ip {
            IpAddress::V4(v4) => match self.ipv4 {
                Some(inet) => inet.address == v4,
                None => false,
            },
            IpAddress::V6(v6) => self.is_ip_local_ipv6(v6),
        }
    }

    /// A proof, for a challenge, that the node knows the network's secret.
    pub fn get_secret_proof(&self, challenge: &[u8]) -> (r: Option<Vec<u8>>)
        ensures
            match r {
                Some(tag) => self.network_secret is Some && tag@ == hmac_sha256(
                    encode_utf8(self.network_secret->0@),
                    "easytier secret proof".spec_bytes() + challenge@,
                ),
                None => self.network_secret is None,
            },
    {
        match &self.network_secret {
            None => None,
            Some(secret) => {
                let mut message: Vec<u8> = "easytier secret proof".as_bytes_vec();
                let ghost start = message@;
                let mut i: usize = 0;
                while i < challenge.len()
                    invariant
                        i <= challenge@.len(),
                        message@ == start + challenge@.take(i as int),
                    decreases challenge@.len() - i,
                {
                    message.push(challenge[i]);
                    i += 1;
                    assert(challenge@.take(i as int) =~= challenge@.take(i as int - 1).push(
                        challenge@[i as int - 1],
                    ));
                }
                assert(challenge@.take(i as int) =~= challenge@);
                Some(hmac_sha256_tag(secret.as_str().as_bytes(), message.as_slice()))
            },
        }
    }

    /// Adds a listener unless its address is there already.
    pub fn add_running_listener(&mut self, listener: RunningListener)
        ensures
            ({
                let known = exists|i: int|
                    0 <= i < old(self).running_listeners@.len() && (
                    #[trigger] old(self).running_listeners@[i]).url@ == listener.url@;
                final(self).running_listeners@ == (if known {
                    old(self).running_listeners@
                } else {
                    old(self).running_listeners@.push(listener)
                })
            }),
            *final(self) == (GlobalCtx {
                running_listeners: final(self).running_listeners,
                ..*old(self)
            }),
    {
        let mut i: usize = 0;
        while i < self.running_listeners.len()
            invariant
                i <= self.running_listeners@.len(),
                *self == *old(self),
                forall|j: int|
                    0 <= j < i ==> (#[trigger] self.running_listeners@[j]).url@ != listener.url@,
            decreases self.running_listeners@.len() - i,
        {
            if same_text(self.running_listeners[i].url.as_str(), listener.url.as_str()) {
                assert(old(self).running_listeners@[i as int].url@ == listener.url@);
                return;
            }
            i += 1;
        }
        self.running_listeners.push(listener);
    }

    /// One of the node's own listeners has the port and the transport.
    pub open spec fn listens_on(&self, port: u16, is_udp: bool) -> bool {
        exists|i: int|
            0 <= i < self.running_listeners@.len() && (#[trigger] self.running_listeners@[i]).port
                == Some(port) && self.running_listeners@[i].is_udp == is_udp
    }

    pub fn is_port_in_running_listeners(&self, port: u16, is_udp: bool) -> (r: bool)
        ensures
            r == self.listens_on(port, is_udp),
    {
        let mut i: usize = 0;
        while i < self.running_listeners.len()
            invariant
                i <= self.running_listeners@.len(),
                forall|j: int|
                    0 <= j < i ==> (#[trigger] self.running_listeners@[j]).port != Some(port)
                        || self.running_listeners@[j].is_udp != is_udp,
            decreases self.running_listeners@.len() - i,
        {
            if let Some(listening) = self.running_listeners[i].port {
                if listening == port && self.running_listeners[i].is_udp == is_udp {
                    assert(self.running_listeners@[i as int].port == Some(port));
                    return true;
                }
            }
            i += 1;
        }
        false
    }

    /// Proxying to the destination is denied. The destination is local, and it is one of the
    /// node's own listeners or protected ports, or a foreign service on the node's own virtual
    /// address.
    pub open spec fn proxy_denied(
        &self,
        dst_addr: SocketAddress,
        is_udp: bool,
        deny_local_virtual_occupied: bool,
        dst_is_local_phy_ip: bool,
        is_protected_tcp_port: bool,
        local_port_occupied: bool,
    ) -> bool {
        let virtual_ip = self.local_virtual_ip(dst_addr.spec_ip());
        &&& virtual_ip || dst_is_local_phy_ip
        &&& self.listens_on(dst_addr.spec_port(), is_udp) || (!is_udp && is_protected_tcp_port) || (
        deny_local_virtual_occupied && virtual_ip && local_port_occupied)
    }

    /// Decides whether proxying to a destination is denied, given what the host says of it: that
    /// its address is one of the host's, that its port is protected, and that it is occupied.
    pub fn should_deny_proxy_with_local_virtual_occupied_guard(
        &self,
        dst_addr: &SocketAddress,
        is_udp: bool,
        deny_local_virtual_occupied: bool,
        dst_is_local_phy_ip: bool,
        is_protected_tcp_port: bool,
        local_port_occupied: bool,
    ) -> (r: bool)
        ensures
            r == self.proxy_denied(
                *dst_addr,
                is_udp,
                deny_local_virtual_occupied,
                dst_is_local_phy_ip,
                is_protected_tcp_port,
                local_port_occupied,
            ),
    {
        let dst_is_local_et_ip = self.is_ip_local_virtual_ip(&dst_addr.ip());
        if !dst_is_local_et_ip && !dst_is_local_phy_ip {
            return false;
        }
        if self.is_port_in_running_listeners(dst_addr.port(), is_udp) || (!is_udp
            && is_protected_tcp_port) {
            return true;
        }
        deny_local_virtual_occupied && dst_is_local_et_ip && local_port_occupied
    }

    pub fn should_deny_proxy(
        &self,
        dst_addr: &SocketAddress,
        is_udp: bool,
        dst_is_local_phy_ip: bool,
        is_protected_tcp_port: bool,
        local_port_occupied: bool,
    ) -> (r: bool)
        ensures
            r == self.proxy_denied(
                *dst_addr,
                is_udp,
                true,
                dst_is_local_phy_ip,
                is_protected_tcp_port,
                local_port_occupied,
            ),
    {
        self.should_deny_proxy_with_local_virtual_occupied_guard(
            dst_addr,
            is_udp,
            true,
            dst_is_local_phy_ip,
            is_protected_tcp_port,
            local_port_occupied,
        )
    }

    pub fn is_secure_mode_enabled(&self) -> (r: bool)
        ensures
            r == self.secure(),
    {
        match &self.secure_mode {
            Some(config) => config.enabled,
            None => self.flags.stealth_mode && !is_blank(&self.network_secret),
        }
    }

    pub fn is_explicit_secure_mode_enabled(&self) -> (r: bool)
        ensures
            r == (self.secure_mode is Some && self.secure_mode->0.enabled),
    {
        match &self.secure_mode {
            Some(config) => config.enabled,
            None => false,
        }
    }

    /// Tells whether a generated key pair would be taken over, because secure mode is in effect
    /// without one being configured and none was taken over before.
    pub fn needs_derived_secure_mode(&self) -> (r: bool)
        ensures
            r == self.lacks_key_pair(),
    {
        match (&self.secure_mode, &self.derived_secure_mode) {
            (None, None) => self.is_secure_mode_enabled(),
            _ => false,
        }
    }

    pub open spec fn lacks_key_pair(&self) -> bool {
        self.secure_mode is None && self.secure() && self.derived_secure_mode is None
    }

    /// The state after a key pair was needed. The first one that is generated stays for the life of
    /// the node; the configuration never changes.
    pub open spec fn with_key_pair(self, generated: GeneratedKeyPair) -> GlobalCtx {
        if self.lacks_key_pair() {
            GlobalCtx { derived_secure_mode: Some(generated.config()), ..self }
        } else {
            self
        }
    }

    /// The key pair in effect: the configured one, else the generated one, if secure mode is in
    /// effect at all.
    pub open spec fn key_pair(&self) -> Option<SecureModeConfig> {
        if !self.secure() {
            None
        } else if self.secure_mode is Some {
            self.secure_mode
        } else {
            self.derived_secure_mode
        }
    }

    fn take_key_pair(&mut self, generated: GeneratedKeyPair)
        ensures
            *final(self) == old(self).with_key_pair(generated),
    {
        if self.needs_derived_secure_mode() {
            self.derived_secure_mode = Some(generated.into_config());
        }
    }

    fn kept_key_pair(&self) -> (r: Option<&SecureModeConfig>)
        ensures
            match r {
                Some(config) => self.key_pair() == Some(*config),
                None => self.key_pair() is None,
            },
    {
        match &self.secure_mode {
            Some(config) => if config.enabled {
                Some(config)
            } else {
                None
            },
            None => if self.is_secure_mode_enabled() {
                self.derived_secure_mode.as_ref()
            } else {
                None
            },
        }
    }

    /// The secure mode in effect: the configured one if it is enabled or, where none is configured, a
    /// generated one if the network is stealthy and has a secret. The generated key pair is taken
    /// over only where one is needed for the first time.
    pub fn get_effective_secure_mode(&mut self, generated: GeneratedKeyPair) -> (r: Option<
        &SecureModeConfig,
    >)
        requires
            old(self).wf(),
        ensures
            final(self).wf(),
            *final(self) == old(self).with_key_pair(generated),
            match r {
                Some(config) => final(self).key_pair() == Some(*config) && config.enabled,
                None => final(self).key_pair() is None,
            },
            match old(self).secure_mode {
                Some(config) => r is Some == config.enabled && (r is Some ==> *r->0 == config),
                None => r is Some == (old(self).flags.stealth_mode && !blank(old(self).secret())),
            },
    {
        self.take_key_pair(generated);
        self.kept_key_pair()
    }

    /// The secure mode for one tunnel: a generated one is for stealth-protected tunnels only.
    pub fn get_secure_mode_for_tunnel(
        &mut self,
        stealth_protected: bool,
        generated: GeneratedKeyPair,
    ) -> (r: Option<&SecureModeConfig>)
        requires
            old(self).wf(),
        ensures
            final(self).wf(),
            *final(self) == (if stealth_protected {
                old(self).with_key_pair(generated)
            } else {
                *old(self)
            }),
            match r {
                Some(config) => final(self).key_pair() == Some(*config) && config.enabled && (
                stealth_protected || old(self).secure_mode is Some),
                None => final(self).key_pair() is None || (!stealth_protected && old(self).secure_mode is None),
            },
            match old(self).secure_mode {
                Some(config) => r is Some == config.enabled && (r is Some ==> *r->0 == config),
                None => r is Some == (stealth_protected && old(self).flags.stealth_mode && !blank(
                    old(self).secret(),
                )),
            },
    {
        if stealth_protected {
            self.take_key_pair(generated);
            return self.kept_key_pair();
        }
        if self.secure_mode.is_some() {
            return self.kept_key_pair();
        }
        None
    }

    /// Tells whether the network has no secret to speak of.
    pub fn has_blank_secret(&self) -> (r: bool)
        ensures
            r == blank(self.secret()),
    {
        is_blank(&self.network_secret)
    }

    fn is_stealthy(&self) -> (r: bool)
        ensures
            r == self.stealthy(),
    {
        self.flags.stealth_mode && self.is_secure_mode_enabled() && !is_blank(&self.network_secret)
    }

    /// Takes new flags over; what is advertised follows them.
    pub fn set_flags(&mut self, flags: Flags)
        requires
            old(self).wf(),
            protocols_of_text(flags.stealth_protocols@) is Ok,
        ensures
            final(self).wf(),
            *final(self) == (GlobalCtx {
                flags,
                feature_flags: final(self).feature_flags,
                ..*old(self)
            }),
            final(self).feature_flags@ == derived_features(
                flags,
                old(self).base_feature_flags@,
                final(self).stealthy(),
            ),
    {
        self.flags = flags;
        let stealthy = self.is_stealthy();
        self.feature_flags = derive_feature_flags(&self.flags, &self.base_feature_flags, stealthy);
    }

    /// What is advertised now.
    pub fn get_feature_flags(&self) -> (r: PeerFeatureFlag)
        requires
            self.wf(),
        ensures
            r@ == with_stealth(self.feature_flags@, self.flags, self.stealthy()),
    {
        let mut features = self.feature_flags.clone();
        apply_stealth(&mut features, &self.flags, self.is_stealthy());
        features
    }

    /// Replaces the runtime's share of the advertised features as a whole.
    pub fn set_base_advertised_feature_flags(&mut self, feature_flags: PeerFeatureFlag)
        ensures
            *final(self) == (GlobalCtx {
                base_feature_flags: final(self).base_feature_flags,
                feature_flags: final(self).feature_flags,
                ..*old(self)
            }),
            final(self).base_feature_flags@ == feature_flags@,
            final(self).feature_flags@ == with_relay_ban(feature_flags@, old(self).flags),
    {
        self.base_feature_flags = feature_flags.clone();
        self.feature_flags = apply_disable_relay_data_flag(&self.flags, feature_flags);
    }

    /// Sets the wish to avoid relayed data; tells whether what is advertised changed. The flags
    /// may force the advertised feature, but the wish is remembered.
    pub fn set_avoid_relay_data_preference(&mut self, avoid_relay_data: bool) -> (r: bool)
        ensures
            *final(self) == (GlobalCtx {
                base_feature_flags: final(self).base_feature_flags,
                feature_flags: final(self).feature_flags,
                ..*old(self)
            }),
            final(self).base_feature_flags == (PeerFeatureFlag {
                avoid_relay_data,
                ..old(self).base_feature_flags
            }),
            final(self).feature_flags == (PeerFeatureFlag {
                avoid_relay_data: avoid_relay_data || old(self).flags.disable_relay_data,
                ..old(self).feature_flags
            }),
            r == (old(self).feature_flags.avoid_relay_data
                != final(self).feature_flags.avoid_relay_data),
    {
        self.base_feature_flags.set_avoid_relay_data(avoid_relay_data);
        let previous = self.feature_flags.avoid_relay_data;
        let current = avoid_relay_data || self.flags.disable_relay_data;
        self.feature_flags.set_avoid_relay_data(current);
        previous != current
    }

    /// Sets whether the node provides public IPv6 addresses; tells whether what is advertised
    /// changed.
    pub fn set_ipv6_public_addr_provider_feature_flag(&mut self, enabled: bool) -> (r: bool)
        ensures
            *final(self) == (GlobalCtx {
                base_feature_flags: final(self).base_feature_flags,
                feature_flags: final(self).feature_flags,
                ..*old(self)
            }),
            final(self).base_feature_flags == (PeerFeatureFlag {
                ipv6_public_addr_provider: enabled,
                ..old(self).base_feature_flags
            }),
            final(self).feature_flags == (PeerFeatureFlag {
                ipv6_public_addr_provider: enabled,
                ..old(self).feature_flags
            }),
            r == (old(self).feature_flags.ipv6_public_addr_provider != enabled),
    {
        self.base_feature_flags.set_ipv6_public_addr_provider(enabled);
        if self.feature_flags.ipv6_public_addr_provider == enabled {
            return false;
        }
        self.feature_flags.set_ipv6_public_addr_provider(enabled);
        true
    }

    pub fn enable_exit_node(&self) -> (r: bool)
        ensures
            r == self.flags.enable_exit_node,
    {
        self.flags.enable_exit_node
    }

    pub fn no_tun(&self) -> (r: bool)
        ensures
            r == self.flags.no_tun,
    {
        self.flags.no_tun
    }

    /// Low latency is preferred, unless only direct connections are allowed.
    pub fn latency_first(&self) -> (r: bool)
        ensures
            r == (self.flags.latency_first && !self.flags.p2p_only),
    {
        self.flags.latency_first && !self.flags.p2p_only
    }

    /// The 128-bit key that is derived from the network's secret.
    pub fn get_128_key(&self) -> (r: Vec<u8>)
        ensures
            r@ == key_128(secret_bytes(self.network_secret)),
    {
        let secret: &str = match &self.network_secret {
            Some(secret) => secret.as_str(),
            None => "",
        };
        proof {
            reveal_strlit("");
            assert(""@ =~= Seq::<char>::empty());
            assert(secret.spec_bytes() == secret_bytes(self.network_secret));
        }
        let mut key: Vec<u8> = Vec::new();
        let mut hasher = DefaultHasher::new();
        hasher.write(secret.as_bytes());
        assert(hasher@ =~= seq![secret.spec_bytes()]);
        push_big_endian(&mut key, hasher.finish());
        assert(key@ =~= key_128_start(secret.spec_bytes()));
        hasher.write(key.as_slice());
        assert(hasher@ =~= seq![secret.spec_bytes(), key_128_start(secret.spec_bytes())]);
        push_big_endian(&mut key, hasher.finish());
        key
    }

    /// The 256-bit key that is derived from the network's secret.
    pub fn get_256_key(&self) -> (r: Vec<u8>)
        ensures
            r@ == key_256(secret_bytes(self.network_secret)),
    {
        let secret: &str = match &self.network_secret {
            Some(secret) => secret.as_str(),
            None => "",
        };
        proof {
            reveal_strlit("");
            assert(""@ =~= Seq::<char>::empty());
            assert(secret.spec_bytes() == secret_bytes(self.network_secret));
        }
        let mut key: Vec<u8> = Vec::new();
        let mut hasher = DefaultHasher::new();
        hasher.write(secret.as_bytes());
        hasher.write("easytier-256bit-key".as_bytes());
        assert(hasher@ =~= key_256_blocks(secret.spec_bytes(), 0).0);
        assert(key@ =~= key_256_blocks(secret.spec_bytes(), 0).1);
        let mut i: u8 = 0;
        while i < 4
            invariant
                i <= 4,
                hasher@ == key_256_blocks(secret.spec_bytes(), i as nat).0,
                key@ == key_256_blocks(secret.spec_bytes(), i as nat).1,
            decreases 4 - i,
        {
            hasher.write(key.as_slice());
            let mut index: Vec<u8> = Vec::new();
            index.push(i);
            assert(index@ =~= seq![i]);
            hasher.write(index.as_slice());
            push_big_endian(&mut key, hasher.finish());
            i += 1;
        }
        key
    }

    /// Records that a connection led back to this node; tells whether the transport is
    /// suppressed from now on.
    pub fn record_protocol_self_loop_at(
        &mut self,
        scheme: IpScheme,
        scope: ProtocolLoopScope,
        now_secs: u64,
    ) -> (r: bool)
        requires
            old(self).wf(),
            now_secs + PROTOCOL_LOOP_SUPPRESS_SECS <= u64::MAX,
        ensures
            final(self).wf(),
            *final(self) == (GlobalCtx { loops: final(self).loops, ..*old(self) }),
            final(self).loops@ == old(self).loops@.update(
                slot_of(scheme, scope),
                old(self).loops@[slot_of(scheme, scope)].after_hit(now_secs),
            ),
            r == final(self).loops@[slot_of(scheme, scope)].suppresses(now_secs),
    {
        self.loops.record_at(scheme, scope, now_secs)
    }

    pub fn is_protocol_loop_suppressed_at(
        &mut self,
        scheme: IpScheme,
        scope: ProtocolLoopScope,
        now_secs: u64,
    ) -> (r: bool)
        requires
            old(self).wf(),
        ensures
            final(self).wf(),
            *final(self) == (GlobalCtx { loops: final(self).loops, ..*old(self) }),
            final(self).loops@ == old(self).loops@.update(
                slot_of(scheme, scope),
                old(self).loops@[slot_of(scheme, scope)].current(now_secs),
            ),
            r == old(self).loops@[slot_of(scheme, scope)].suppresses(now_secs),
    {
        self.loops.is_suppressed_at(scheme, scope, now_secs)
    }

    /// Takes a strike against a key; tells whether it blocked the key. While the guard is off no
    /// strike counts.
    pub fn record_underlay_breaker_strike_at(
        &mut self,
        key: UnderlayBreakerKey,
        kind: UnderlayBreakerStrikeKind,
        now_secs: u64,
    ) -> (r: bool)
        requires
            old(self).wf(),
        ensures
            final(self).wf(),
            *final(self) == (GlobalCtx { breaker: final(self).breaker, ..*old(self) }),
            !old(self).flags.underlay_candidate_guard ==> !r && *final(self) == *old(self),
            old(self).flags.underlay_candidate_guard ==> old(self).breaker.strikes(
                key,
                kind,
                now_secs,
                r,
                final(self).breaker,
            ),
    {
        if !self.flags.underlay_candidate_guard {
            return false;
        }
        self.breaker.record_strike_at(key, kind, now_secs)
    }

    /// Asks to make an attempt on `keys`. While the guard is off every attempt is allowed and
    /// none is tracked.
    pub fn try_begin_underlay_attempt_at(&mut self, keys: &[UnderlayBreakerKey], now_secs: u64) -> (r:
        Result<UnderlayPreflightGuard, UnderlayBreakerGateError>)
        requires
            old(self).wf(),
        ensures
            final(self).wf(),
            *final(self) == (GlobalCtx { breaker: final(self).breaker, ..*old(self) }),
            !old(self).flags.underlay_candidate_guard ==> *final(self) == *old(self) && r is Ok
                && r->Ok_0.lease_id == 0 && r->Ok_0.acquired_half_open_keys@.len() == 0
                && !r->Ok_0.committed,
            old(self).flags.underlay_candidate_guard ==> old(self).breaker.begins(
                keys@,
                now_secs,
                r,
                final(self).breaker,
            ),
    {
        if !self.flags.underlay_candidate_guard {
            return Ok(UnderlayPreflightGuard::new(0, Vec::new()));
        }
        self.breaker.try_begin_at(keys, now_secs)
    }

    /// Tells whether one of `keys` stands in the way of an attempt.
    pub fn is_underlay_attempt_blocked_at(&mut self, keys: &[UnderlayBreakerKey], now_secs: u64) -> (r:
        bool)
        requires
            old(self).wf(),
        ensures
            final(self).wf(),
            *final(self) == (GlobalCtx { breaker: final(self).breaker, ..*old(self) }),
            !old(self).flags.underlay_candidate_guard ==> !r && *final(self) == *old(self),
            old(self).flags.underlay_candidate_guard ==> final(self).breaker@
                == entries_for_attempt(old(self).breaker@, keys@, now_secs) && r == any_gate(
                final(self).breaker@,
                keys@,
                now_secs,
            ),
    {
        if !self.flags.underlay_candidate_guard {
            return false;
        }
        self.breaker.is_attempt_blocked_at(keys, now_secs)
    }

    /// Gives a permission back. An attempt that was never made leaves no probe behind.
    pub fn release_underlay_preflight(&mut self, guard: UnderlayPreflightGuard)
        requires
            old(self).wf(),
        ensures
            final(self).wf(),
            *final(self) == (GlobalCtx { breaker: final(self).breaker, ..*old(self) }),
            final(self).breaker@ == (if guard.committed || guard.lease_id == 0 {
                old(self).breaker@
            } else {
                called_off_entries(
                    old(self).breaker@,
                    guard.acquired_half_open_keys@,
                    guard.lease_id,
                )
            }),
    {
        self.breaker.release(guard);
    }

    /// Forgets a key after a successful connection.
    pub fn clear_underlay_breaker(&mut self, key: &UnderlayBreakerKey)
        requires
            old(self).wf(),
        ensures
            final(self).wf(),
            *final(self) == (GlobalCtx { breaker: final(self).breaker, ..*old(self) }),
            final(self).breaker@ == (if old(self).flags.underlay_candidate_guard {
                old(self).breaker@.remove(*key)
            } else {
                old(self).breaker@
            }),
    {
        if self.flags.underlay_candidate_guard {
            self.breaker.clear(key);
        }
    }

    /// Tells whether a public key is trusted in a network: because the network says so or, in
    /// the node's own network, because a local credential does.
    pub fn is_pubkey_trusted(
        &self,
        pubkey: &[u8],
        network_name: &str,
        now_unix: i64,
        trusted_by_local_credential: bool,
    ) -> (r: bool)
        requires
            self.wf(),
        ensures
            r == (self.trusted_keys.trusts(pubkey@, network_name@, None, now_unix) || (network_name@
                == self.network_name@ && trusted_by_local_credential)),
    {
        if self.trusted_keys.verify_trusted_key(pubkey, network_name, now_unix) {
            return true;
        }
        same_text(network_name, self.network_name.as_str()) && trusted_by_local_credential
    }

    pub fn is_pubkey_trusted_with_source(
        &self,
        pubkey: &[u8],
        network_name: &str,
        source: TrustedKeySource,
        now_unix: i64,
    ) -> (r: bool)
        requires
            self.wf(),
        ensures
            r == self.trusted_keys.trusts(pubkey@, network_name@, Some(source), now_unix),
    {
        self.trusted_keys.verify_trusted_key_with_source(
            pubkey,
            network_name,
            Some(source),
            now_unix,
        )
    }

    /// Replaces all trusted keys of a network.
    pub fn update_trusted_keys(&mut self, keys: TrustedKeyMap, network_name: &str)
        requires
            old(self).wf(),
            keys.wf(),
        ensures
            final(self).wf(),
            *final(self) == (GlobalCtx { trusted_keys: final(self).trusted_keys, ..*old(self) }),
            final(self).trusted_keys.trusted(network_name@) == Some(keys@),
            forall|other: Seq<char>|
                other != network_name@ ==> #[trigger] final(self).trusted_keys.trusted(other)
                    == old(self).trusted_keys.trusted(other),
    {
        self.trusted_keys.update_trusted_keys(network_name, keys);
    }
}

/// An asterisk among the patterns of the whitelist admits every network.
pub proof fn law_asterisk_admits_every_network(whitelist: Seq<char>, name: Seq<char>, i: int)
    requires
        0 <= i < parts(whitelist, ' ').len(),
        parts(whitelist, ' ')[i] == seq!['*'],
    ensures
        whitelisted(whitelist, name),
{
    lemma_asterisk_matches(name);
}

proof fn lemma_asterisk_matches(text: Seq<char>)
    ensures
        wildcard_matches(seq!['*'], text),
    decreases text.len(),
{
    if text.len() > 0 {
        lemma_asterisk_matches(text.skip(1));
    } else {
        assert(seq!['*'].skip(1).len() == 0);
        assert(wildcard_matches(seq!['*'].skip(1), text));
    }
}

/// Stealth needs a secret: without one it is neither in effect nor advertised, whatever is
/// configured. A secure mode that is configured as off switches it off too.
pub proof fn law_stealth_needs_a_secret(ctx: GlobalCtx)
    requires
        ctx.wf(),
        blank(ctx.secret()) || (ctx.secure_mode is Some && !ctx.secure_mode->0.enabled),
    ensures
        !ctx.stealthy(),
        !with_stealth(ctx.feature_flags@, ctx.flags, ctx.stealthy()).stealth_supported,
        with_stealth(ctx.feature_flags@, ctx.flags, ctx.stealthy()).stealth_capabilities.len() == 0,
{
}

/// A secure mode that is configured as off is off, however stealthy the node is to be; one that
/// is configured as on needs no stealth. Without either, it follows stealth.
pub proof fn law_configured_secure_mode_wins(ctx: GlobalCtx)
    ensures
        ctx.secure_mode is Some ==> ctx.secure() == ctx.secure_mode->0.enabled,
        ctx.secure_mode is None ==> ctx.secure() == (ctx.flags.stealth_mode && !blank(
            ctx.secret(),
        )),
        ctx.stealthy() ==> ctx.secure(),
{
}

/// The first generated key pair stays: later ones change nothing, the configuration stays without
/// one, and what is in effect is enabled.
pub proof fn law_generated_key_pair_stays(
    ctx: GlobalCtx,
    first: GeneratedKeyPair,
    second: GeneratedKeyPair,
)
    requires
        ctx.wf(),
    ensures
        ctx.with_key_pair(first).wf(),
        ctx.with_key_pair(first).with_key_pair(second) == ctx.with_key_pair(first),
        ctx.with_key_pair(first).secure_mode == ctx.secure_mode,
        ctx.with_key_pair(first).key_pair() is Some == ctx.secure(),
        ctx.secure() ==> ctx.with_key_pair(first).key_pair()->0.enabled,
        ctx.derived_secure_mode is Some ==> ctx.with_key_pair(first) == ctx,
{
}

/// Forbidding relayed data forces the advertised feature; lifting the ban brings back what the
/// node wished for itself.
pub proof fn law_relay_preference_survives_the_ban(
    base: AdvertisedFeatures,
    banned: Flags,
    lifted: Flags,
    stealth_enabled: bool,
)
    requires
        banned.disable_relay_data,
        !lifted.disable_relay_data,
    ensures
        derived_features(banned, base, stealth_enabled).avoid_relay_data,
        derived_features(lifted, base, stealth_enabled).avoid_relay_data == base.avoid_relay_data,
{
}

/// New flags never touch what the runtime contributes to the advertised features.
pub proof fn law_flags_keep_runtime_features(
    flags: Flags,
    base: AdvertisedFeatures,
    stealth_enabled: bool,
)
    ensures
        derived_features(flags, base, stealth_enabled).is_public_server == base.is_public_server,
        derived_features(flags, base, stealth_enabled).ipv6_public_addr_provider
            == base.ipv6_public_addr_provider,
        base.avoid_relay_data ==> derived_features(flags, base, stealth_enabled).avoid_relay_data,
{
}

/// A secret is blank just where it is absent or holds nothing but white space.
pub proof fn law_blank_secrets(text: Seq<char>)
    ensures
        blank(None),
        blank(Some(text)) <==> forall|i: int| 0 <= i < text.len() ==> crate::text::white_space(
            #[trigger] text[i],
        ),
{
    let front = crate::text::law_trimming_takes_white_space_away(text);
}

/// Stealth is in effect just where it is wanted, connections are secured and there is a secret; a node
/// that is to be stealthy and has a secret is, unless secure mode is configured as off.
pub proof fn law_when_stealth_is_in_effect(ctx: GlobalCtx)
    ensures
        ctx.stealthy() <==> ctx.flags.stealth_mode && ctx.secure() && !blank(ctx.secret()),
        ctx.flags.stealth_mode && !blank(ctx.secret()) && ctx.secure_mode is None ==> ctx.stealthy(),
        !ctx.flags.stealth_mode ==> !ctx.stealthy(),
        blank(ctx.secret()) ==> !ctx.stealthy(),
{
}

/// What stealth decides of the advertised features: UDP is said to be stealthy just where it is in effect,
/// and the capabilities are those of the transports in effect. Nothing else changes.
pub proof fn law_stealth_is_advertised(
    features: AdvertisedFeatures,
    flags: Flags,
    stealth_enabled: bool,
)
    ensures
        ({
            let told = with_stealth(features, flags, stealth_enabled);
            &&& told.stealth_supported <==> stealth_enabled && enabled_by(flags, StealthProtocol::Udp)
            &&& !stealth_enabled ==> told.stealth_capabilities.len() == 0
            &&& stealth_enabled ==> told.stealth_capabilities == advertised_capabilities(
                protocols_of_text(flags.stealth_protocols@)->Ok_0,
                flags.stealth_mode,
            )
            &&& told.need_p2p == features.need_p2p && told.disable_p2p == features.disable_p2p
            &&& told.kcp_input == features.kcp_input && told.quic_input == features.quic_input
            &&& told.avoid_relay_data == features.avoid_relay_data
            &&& told.is_public_server == features.is_public_server
        }),
{
}

/// Each flag decides its own feature: input by a transport is advertised where this build has the
/// transport and the flags do not disable it, and so on.
pub proof fn law_flags_decide_their_features(
    flags: Flags,
    base: AdvertisedFeatures,
    stealth_enabled: bool,
)
    ensures
        ({
            let told = derived_features(flags, base, stealth_enabled);
            &&& told.kcp_input <==> FEATURE_KCP && !flags.disable_kcp_input
            &&& told.quic_input <==> FEATURE_QUIC && !flags.disable_quic_input
            &&& told.no_relay_kcp == flags.disable_relay_kcp
            &&& told.no_relay_quic == flags.disable_relay_quic
            &&& told.need_p2p == flags.need_p2p
            &&& told.disable_p2p == flags.disable_p2p
            &&& told.support_conn_list_sync
            &&& told.avoid_relay_data <==> base.avoid_relay_data || flags.disable_relay_data
            &&& told.proxy_prepare_ack_version == (if FEATURE_KCP || FEATURE_QUIC {
                1u32
            } else {
                0
            })
            &&& told.stealth_supported <==> stealth_enabled && enabled_by(flags, StealthProtocol::Udp)
        }),
{
}

/// A pattern without wildcards stands for itself alone.
pub proof fn law_plain_patterns_stand_for_themselves(pattern: Seq<char>, text: Seq<char>)
    requires
        forall|i: int| 0 <= i < pattern.len() ==> (#[trigger] pattern[i]) != '*' && pattern[i] != '?',
    ensures
        wildcard_matches(pattern, text) <==> pattern == text,
    decreases pattern.len(),
{
    if pattern.len() > 0 {
        if text.len() > 0 {
            let rest = pattern.skip(1);
            assert forall|i: int| 0 <= i < rest.len() implies (#[trigger] rest[i]) != '*' && rest[i]
                != '?' by {
                assert(rest[i] == pattern[i + 1]);
            }
            law_plain_patterns_stand_for_themselves(rest, text.skip(1));
            if rest == text.skip(1) && pattern[0] == text[0] {
                assert(pattern =~= seq![pattern[0]] + rest);
                assert(text =~= seq![text[0]] + text.skip(1));
            }
            if pattern == text {
                assert(rest =~= text.skip(1));
            }
        }
        assert(pattern[0] != '*' && pattern[0] != '?');
    } else if text.len() == 0 {
        assert(pattern =~= text);
    }
}

/// A pattern of question marks stands for the texts of its length.
pub proof fn law_question_marks_stand_for_one_each(pattern: Seq<char>, text: Seq<char>)
    requires
        forall|i: int| 0 <= i < pattern.len() ==> (#[trigger] pattern[i]) == '?',
    ensures
        wildcard_matches(pattern, text) <==> pattern.len() == text.len(),
    decreases pattern.len(),
{
    if pattern.len() > 0 {
        assert(pattern[0] == '?');
        if text.len() > 0 {
            let rest = pattern.skip(1);
            assert forall|i: int| 0 <= i < rest.len() implies (#[trigger] rest[i]) == '?' by {
                assert(rest[i] == pattern[i + 1]);
            }
            law_question_marks_stand_for_one_each(rest, text.skip(1));
        }
    }
}

/// A pattern that begins with an asterisk stands for what the rest stands for with anything before it, and
/// for nothing else.
pub proof fn law_asterisk_stands_for_anything(rest: Seq<char>, text: Seq<char>)
    ensures
        wildcard_matches(seq!['*'] + rest, text) <==> exists|i: int|
            0 <= i <= text.len() && wildcard_matches(rest, #[trigger] text.skip(i)),
    decreases text.len(),
{
    let pattern = seq!['*'] + rest;
    assert(pattern.skip(1) =~= rest);
    assert(text.skip(0) =~= text);
    if text.len() > 0 {
        let tail = text.skip(1);
        law_asterisk_stands_for_anything(rest, tail);
        if exists|i: int| 0 <= i <= text.len() && wildcard_matches(rest, #[trigger] text.skip(i)) {
            let i = choose|i: int|
                0 <= i <= text.len() && wildcard_matches(rest, #[trigger] text.skip(i));
            if i > 0 {
                assert(tail.skip(i - 1) =~= text.skip(i));
            }
        }
        if exists|i: int| 0 <= i <= tail.len() && wildcard_matches(rest, #[trigger] tail.skip(i)) {
            let i = choose|i: int|
                0 <= i <= tail.len() && wildcard_matches(rest, #[trigger] tail.skip(i));
            assert(text.skip(i + 1) =~= tail.skip(i));
        }
    }
}

/// A number as bytes is eight bytes, from which the number can be read back in the other direction.
pub proof fn law_numbers_as_bytes(value: u64)
    ensures
        big_endian(value).len() == 8,
        vstd::bytes::spec_u64_from_le_bytes(big_endian(value).reverse()) == value,
{
    vstd::bytes::lemma_auto_spec_u64_to_from_le_bytes();
    assert(big_endian(value).reverse() =~= spec_u64_to_le_bytes(value));
}

/// The keys of a secret have their sizes, and each starts with the hash that it starts from.
pub proof fn law_sizes_of_keys(secret: Seq<u8>)
    ensures
        key_128(secret).len() == 16,
        key_128(secret).take(8) == big_endian(DefaultHasher::spec_finish(seq![secret])),
        key_256(secret).len() == 32,
{
    law_numbers_as_bytes(DefaultHasher::spec_finish(seq![secret]));
    law_numbers_as_bytes(DefaultHasher::spec_finish(seq![secret, key_128_start(secret)]));
    assert(key_128(secret).take(8) =~= key_128_start(secret));
    lemma_size_of_blocks(secret, 4);
}

proof fn lemma_size_of_blocks(secret: Seq<u8>, blocks: nat)
    ensures
        key_256_blocks(secret, blocks).1.len() == 8 * blocks,
    decreases blocks,
{
    if blocks > 0 {
        lemma_size_of_blocks(secret, (blocks - 1) as nat);
        let (hashed, key) = key_256_blocks(secret, (blocks - 1) as nat);
        let more = hashed.push(key).push(seq![(blocks - 1) as u8]);
        law_numbers_as_bytes(DefaultHasher::spec_finish(more));
    }
}

/// The groups that the node is in are those declared groups whose names its members list holds, each once
/// and in their order.
pub proof fn law_groups_are_joined_by_name(
    members: Seq<String>,
    declares: Seq<GroupIdentity>,
    place: int,
)
    ensures
        joined_groups(members, declares).contains(place) <==> 0 <= place < declares.len() && exists|i: int|
            0 <= i < members.len() && (#[trigger] members[i])@ == declares[place].group_name@,
        forall|i: int, j: int|
            0 <= i < j < joined_groups(members, declares).len() ==> (#[trigger] joined_groups(
                members,
                declares,
            )[i]) < (#[trigger] joined_groups(members, declares)[j]),
        forall|i: int|
            0 <= i < joined_groups(members, declares).len() ==> 0 <= (#[trigger] joined_groups(
                members,
                declares,
            )[i]) < declares.len(),
    decreases declares.len(),
{
    if declares.len() > 0 {
        let front = declares.drop_last();
        law_groups_are_joined_by_name(members, front, place);
        let before = joined_groups(members, front);
        let all = joined_groups(members, declares);
        if before.contains(place) {
            let k = choose|k: int| 0 <= k < before.len() && before[k] == place;
            assert(all[k] == place);
        }
        if 0 <= place < front.len() {
            assert(front[place] == declares[place]);
        }
        if lists_text(members, declares.last().group_name@) {
            assert(all[all.len() - 1] == declares.len() - 1);
        }
        if all.contains(place) && !before.contains(place) {
            let k = choose|k: int| 0 <= k < all.len() && all[k] == place;
            if k < before.len() {
                assert(before[k] == place);
            }
        }
        assert forall|i: int, j: int| 0 <= i < j < all.len() implies (#[trigger] all[i]) < (
        #[trigger] all[j]) by {
            assert(all[i] == before[i]);
            if j < before.len() {
                assert(all[j] == before[j]);
            }
        }
        assert forall|i: int| 0 <= i < all.len() implies 0 <= (#[trigger] all[i]) < declares.len() by {
            if i < before.len() {
                assert(all[i] == before[i]);
            }
        }
    }
}

/// Proxying is denied only to a local destination. There it is denied to the node's own listeners of the
/// same transport, to protected TCP ports, and, where that is asked for, to ports of the virtual address
/// that another service has; any other destination may be proxied to.
pub proof fn law_what_may_not_be_proxied(
    ctx: GlobalCtx,
    dst_addr: SocketAddress,
    is_udp: bool,
    deny_local_virtual_occupied: bool,
    dst_is_local_phy_ip: bool,
    is_protected_tcp_port: bool,
    local_port_occupied: bool,
)
    ensures
        ({
            let denied = ctx.proxy_denied(
                dst_addr,
                is_udp,
                deny_local_virtual_occupied,
                dst_is_local_phy_ip,
                is_protected_tcp_port,
                local_port_occupied,
            );
            let own = ctx.local_virtual_ip(dst_addr.spec_ip());
            let listens = exists|i: int|
                0 <= i < ctx.running_listeners@.len() && (#[trigger] ctx.running_listeners@[i]).port
                    == Some(dst_addr.spec_port()) && ctx.running_listeners@[i].is_udp == is_udp;
            &&& !own && !dst_is_local_phy_ip ==> !denied
            &&& (own || dst_is_local_phy_ip) && listens ==> denied
            &&& (own || dst_is_local_phy_ip) && !is_udp && is_protected_tcp_port ==> denied
            &&& own && deny_local_virtual_occupied && local_port_occupied ==> denied
            &&& !listens && (is_udp || !is_protected_tcp_port) && !(own && deny_local_virtual_occupied
                && local_port_occupied) ==> !denied
        }),
{
}

/// The node's own addresses are its virtual ones and, for IPv6, the leased one; the overlay manages these
/// and the routed ones. An address is in the node's network where it lies within the network's bounds.
pub proof fn law_addresses_of_the_node(ctx: GlobalCtx, ipv4: u32, ipv6: u128)
    ensures
        ctx.local_virtual_ip(IpAddress::V4(ipv4)) <==> ctx.ipv4 is Some && ctx.ipv4->0.address == ipv4,
        ctx.local_virtual_ip(IpAddress::V6(ipv6)) <==> (ctx.ipv6 is Some && ctx.ipv6->0.address == ipv6)
            || (ctx.public_ipv6_lease is Some && ctx.public_ipv6_lease->0.address == ipv6),
        ctx.local_virtual_ip(IpAddress::V6(ipv6)) ==> ctx.managed_ipv6(ipv6),
        ctx.public_ipv6_routes@.contains(ipv6) ==> ctx.managed_ipv6(ipv6),
        ctx.managed_ipv6(ipv6) ==> ctx.local_virtual_ip(IpAddress::V6(ipv6))
            || ctx.public_ipv6_routes@.contains(ipv6),
        ctx.same_network(IpAddress::V4(ipv4)) <==> ctx.ipv4 is Some && ctx.ipv4->0.first <= ipv4
            <= ctx.ipv4->0.last,
        ctx.same_network(IpAddress::V6(ipv6)) <==> ctx.ipv6 is Some && ctx.ipv6->0.first <= ipv6
            <= ctx.ipv6->0.last,
        ctx.wf() && ctx.local_virtual_ip(IpAddress::V4(ipv4)) ==> ctx.same_network(
            IpAddress::V4(ipv4),
        ),
{
}

/// The key pair in effect is the configured one, else the generated one; there is none where secure mode
/// is not in effect. One has to be generated just where secure mode is in effect without any.
pub proof fn law_key_pair_in_effect(ctx: GlobalCtx, generated: GeneratedKeyPair)
    ensures
        !ctx.secure() ==> ctx.key_pair() is None,
        ctx.secure() && ctx.secure_mode is Some ==> ctx.key_pair() == ctx.secure_mode,
        ctx.secure() && ctx.secure_mode is None ==> ctx.key_pair() == ctx.derived_secure_mode,
        ctx.lacks_key_pair() <==> ctx.secure() && ctx.key_pair() is None,
        ctx.lacks_key_pair() ==> ({
            let pair = ctx.with_key_pair(generated).key_pair();
            &&& pair is Some && pair->0.enabled
            &&& pair->0.local_private_key == Some(generated.private_key)
            &&& pair->0.local_public_key == Some(generated.public_key)
        }),
        !ctx.lacks_key_pair() ==> ctx.with_key_pair(generated) == ctx,
{
}

/// The keys of an attempt are those of its endpoint and of the peer that is expected there, if one is. A
/// peer that becomes known later is entered once, under the endpoint's own scheme and scope.
pub proof fn law_keys_of_attempts(
    remote_addr: SocketAddress,
    scheme: IpScheme,
    scope: UnderlayBreakerScope,
    hint: Option<PeerId>,
    peer_id: PeerId,
    made: UnderlayAttemptContext,
    attempt: &mut UnderlayAttemptContext,
)
    requires
        call_ensures(UnderlayAttemptContext::new, (remote_addr, scheme, scope, hint), made),
        *old(attempt) == made,
        call_ensures(UnderlayAttemptContext::set_peer_id_if_missing, (attempt, peer_id), ()),
    ensures
        made.endpoint_key == (UnderlayBreakerKey::Endpoint { remote_addr, scheme, scope }),
        made.peer_key is Some <==> hint is Some,
        final(attempt).endpoint_key == made.endpoint_key,
        final(attempt).peer_key == Some(
            UnderlayBreakerKey::Peer {
                peer_id: if hint is Some {
                    hint->0
                } else {
                    peer_id
                },
                scheme,
                scope,
            },
        ),
{
}

/// A node that is told to avoid relayed data, or that relays none, says so; the answer tells whether what
/// it says has changed.
pub proof fn law_relay_preference_is_told(ctx: &mut GlobalCtx, avoid_relay_data: bool, r: bool)
    requires
        call_ensures(GlobalCtx::set_avoid_relay_data_preference, (ctx, avoid_relay_data), r),
    ensures
        final(ctx).feature_flags.avoid_relay_data <==> avoid_relay_data || old(ctx).flags.disable_relay_data,
        r <==> final(ctx).feature_flags.avoid_relay_data != old(ctx).feature_flags.avoid_relay_data,
        final(ctx).flags == old(ctx).flags,
        final(ctx).feature_flags.is_public_server == old(ctx).feature_flags.is_public_server,
{
}

/// Listeners are known by their URLs, each once and in the order in which they came.
pub proof fn law_listeners_are_known_once(ctx: &mut GlobalCtx, listener: RunningListener)
    requires
        call_ensures(GlobalCtx::add_running_listener, (ctx, listener), ()),
    ensures
        exists|i: int|
            0 <= i < final(ctx).running_listeners@.len() && (#[trigger] final(ctx).running_listeners@[i]).url@
                == listener.url@,
        old(ctx).running_listeners@.len() <= final(ctx).running_listeners@.len()
            <= old(ctx).running_listeners@.len() + 1,
        forall|i: int|
            0 <= i < old(ctx).running_listeners@.len() ==> (#[trigger] final(ctx).running_listeners@[i])
                == old(ctx).running_listeners@[i],
        (exists|i: int|
            0 <= i < old(ctx).running_listeners@.len() && (#[trigger] old(ctx).running_listeners@[i]).url@
                == listener.url@) ==> final(ctx).running_listeners@.len()
            == old(ctx).running_listeners@.len(),
{
    if final(ctx).running_listeners@.len() == old(ctx).running_listeners@.len() + 1 {
        let last = old(ctx).running_listeners@.len() as int;
        assert(final(ctx).running_listeners@[last].url@ == listener.url@);
    } else {
        let i = choose|i: int|
            0 <= i < old(ctx).running_listeners@.len() && (#[trigger] old(ctx).running_listeners@[i]).url@
                == listener.url@;
        assert(final(ctx).running_listeners@[i].url@ == listener.url@);
    }
}

/// Without the guard no strike blocks anything, and none is remembered.
pub proof fn law_without_the_guard_nothing_is_struck(
    ctx: &mut GlobalCtx,
    key: UnderlayBreakerKey,
    kind: UnderlayBreakerStrikeKind,
    now_secs: u64,
    r: bool,
)
    requires
        old(ctx).wf(),
        call_ensures(GlobalCtx::record_underlay_breaker_strike_at, (ctx, key, kind, now_secs), r),
    ensures
        !old(ctx).flags.underlay_candidate_guard ==> !r && *final(ctx) == *old(ctx),
        final(ctx).flags == old(ctx).flags,
{
}

/// A key is trusted within a network if the network's record trusts it; a local credential counts only in
/// the node's own network.
pub proof fn law_local_credentials_count_at_home(
    ctx: &GlobalCtx,
    pubkey: &[u8],
    network_name: &str,
    now_unix: i64,
    local: bool,
    r: bool,
)
    requires
        ctx.wf(),
        call_ensures(GlobalCtx::is_pubkey_trusted, (ctx, pubkey, network_name, now_unix, local), r),
    ensures
        network_name@ == ctx.network_name@ && local ==> r,
        r && (network_name@ != ctx.network_name@ || !local) ==> ctx.trusted_keys.trusts(
            pubkey@,
            network_name@,
            None,
            now_unix,
        ),
        ctx.trusted_keys.trusts(pubkey@, network_name@, None, now_unix) ==> r,
{
}

/// A configured secure mode is in effect just where it is enabled, for every tunnel. Without one, only a
/// tunnel that hides is secured, and only if there is a secret.
pub proof fn law_tunnels_that_are_secured(
    ctx: &mut GlobalCtx,
    stealth_protected: bool,
    generated: GeneratedKeyPair,
    r: Option<&SecureModeConfig>,
)
    requires
        old(ctx).wf(),
        call_ensures(GlobalCtx::get_secure_mode_for_tunnel, (ctx, stealth_protected, generated), r),
    ensures
        old(ctx).secure_mode is Some ==> (r is Some <==> old(ctx).secure_mode->0.enabled) && (r is Some
            ==> *r->0 == old(ctx).secure_mode->0),
        r is Some ==> r->0.enabled,
        old(ctx).secure_mode is None && r is Some ==> stealth_protected && old(ctx).flags.stealth_mode
            && old(ctx).network_secret is Some,
        !stealth_protected ==> *final(ctx) == *old(ctx),
{
}

} // verus!
