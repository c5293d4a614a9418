//! The configuration that the decisions read, and what peers advertise about themselves.
use vstd::prelude::*;

use crate::stealth_registry::{
    every_protocol, lemma_default_list, protocols_of_text, StealthProtocolError,
    TransportStealthCapability, DEFAULT_STEALTH_PROTOCOLS,
};
use crate::underlay_guard::DEFAULT_UNDERLAY_EXCLUDE_CIDRS;

verus! {

/// The configured switches.
#[derive(Debug)]
pub struct Flags {
    pub stealth_mode: bool,
    pub stealth_protocols: String,
    pub transport_priority: String,
    pub lazy_p2p: bool,
    pub disable_p2p: bool,
    pub need_p2p: bool,
    pub p2p_only: bool,
    pub latency_first: bool,
    pub bind_device: bool,
    pub underlay_candidate_guard: bool,
    pub underlay_exclude_cidrs: String,
    pub relay_network_whitelist: String,
    pub disable_kcp_input: bool,
    pub disable_relay_kcp: bool,
    pub disable_quic_input: bool,
    pub disable_relay_quic: bool,
    pub disable_relay_data: bool,
    pub enable_exit_node: bool,
    pub no_tun: bool,
    /// The transport to try first where no priority is configured.
    pub default_protocol: String,
    pub enable_ipv6: bool,
    pub disable_udp_hole_punching: bool,
    pub disable_tcp_hole_punching: bool,
    /// Requests to punch a hole that say nothing about stealth are not served.
    pub disable_legacy_udp_hole_punch: bool,
}

impl Default for Flags {
    /// Stealth, the guard and IPv6 are on, everything else is off.
    fn default() -> (r: Self)
        ensures
            r.stealth_mode,
            r.underlay_candidate_guard,
            r.stealth_protocols@ == DEFAULT_STEALTH_PROTOCOLS@,
            protocols_of_text(r.stealth_protocols@) == Ok::<_, StealthProtocolError>(
                every_protocol(),
            ),
            r.transport_priority@ == Seq::<char>::empty(),
            r.underlay_exclude_cidrs@ == DEFAULT_UNDERLAY_EXCLUDE_CIDRS@,
            r.relay_network_whitelist@ == "*"@,
            !r.lazy_p2p && !r.disable_p2p && !r.need_p2p && !r.p2p_only && !r.latency_first,
            !r.bind_device && !r.enable_exit_node && !r.no_tun && !r.disable_relay_data,
            !r.disable_kcp_input && !r.disable_relay_kcp && !r.disable_quic_input
                && !r.disable_relay_quic,
            r.default_protocol@ == "tcp"@,
            r.enable_ipv6,
            !r.disable_udp_hole_punching && !r.disable_tcp_hole_punching,
            !r.disable_legacy_udp_hole_punch,
    {
        proof {
            lemma_default_list();
        }
        Flags {
            stealth_mode: true,
            stealth_protocols: DEFAULT_STEALTH_PROTOCOLS.to_owned(),
            transport_priority: String::new(),
            lazy_p2p: false,
            disable_p2p: false,
            need_p2p: false,
            p2p_only: false,
            latency_first: false,
            bind_device: false,
            underlay_candidate_guard: true,
            underlay_exclude_cidrs: DEFAULT_UNDERLAY_EXCLUDE_CIDRS.to_owned(),
            relay_network_whitelist: "*".to_owned(),
            disable_kcp_input: false,
            disable_relay_kcp: false,
            disable_quic_input: false,
            disable_relay_quic: false,
            disable_relay_data: false,
            enable_exit_node: false,
            no_tun: false,
            default_protocol: "tcp".to_owned(),
            enable_ipv6: true,
            disable_udp_hole_punching: false,
            disable_tcp_hole_punching: false,
            disable_legacy_udp_hole_punch: false,
        }
    }
}

/// What a peer advertises about itself.
#[derive(Debug, PartialEq, Eq)]
pub struct PeerFeatureFlag {
    pub is_public_server: bool,
    pub avoid_relay_data: bool,
    pub kcp_input: bool,
    pub no_relay_kcp: bool,
    pub support_conn_list_sync: bool,
    pub quic_input: bool,
    pub no_relay_quic: bool,
    pub proxy_prepare_ack_version: u32,
    pub need_p2p: bool,
    pub disable_p2p: bool,
    pub ipv6_public_addr_provider: bool,
    pub stealth_supported: bool,
    pub stealth_capabilities: Vec<TransportStealthCapability>,
}

impl Default for PeerFeatureFlag {
    fn default() -> (r: Self)
        ensures
            r@ == (AdvertisedFeatures {
                is_public_server: false,
                avoid_relay_data: false,
                kcp_input: false,
                no_relay_kcp: false,
                support_conn_list_sync: false,
                quic_input: false,
                no_relay_quic: false,
                proxy_prepare_ack_version: 0,
                need_p2p: false,
                disable_p2p: false,
                ipv6_public_addr_provider: false,
                stealth_supported: false,
                stealth_capabilities: Seq::empty(),
            }),
    {
        PeerFeatureFlag {
            is_public_server: false,
            avoid_relay_data: false,
            kcp_input: false,
            no_relay_kcp: false,
            support_conn_list_sync: false,
            quic_input: false,
            no_relay_quic: false,
            proxy_prepare_ack_version: 0,
            need_p2p: false,
            disable_p2p: false,
            ipv6_public_addr_provider: false,
            stealth_supported: false,
            stealth_capabilities: Vec::new(),
        }
    }
}

/// A `PeerFeatureFlag` as a mathematical value.
pub ghost struct AdvertisedFeatures {
    pub is_public_server: bool,
    pub avoid_relay_data: bool,
    pub kcp_input: bool,
    pub no_relay_kcp: bool,
    pub support_conn_list_sync: bool,
    pub quic_input: bool,
    pub no_relay_quic: bool,
    pub proxy_prepare_ack_version: u32,
    pub need_p2p: bool,
    pub disable_p2p: bool,
    pub ipv6_public_addr_provider: bool,
    pub stealth_supported: bool,
    pub stealth_capabilities: Seq<TransportStealthCapability>,
}

impl View for PeerFeatureFlag {
    type V = AdvertisedFeatures;

    open spec fn view(&self) -> AdvertisedFeatures {
        AdvertisedFeatures {
            is_public_server: self.is_public_server,
            avoid_relay_data: self.avoid_relay_data,
            kcp_input: self.kcp_input,
            no_relay_kcp: self.no_relay_kcp,
            support_conn_list_sync: self.support_conn_list_sync,
            quic_input: self.quic_input,
            no_relay_quic: self.no_relay_quic,
            proxy_prepare_ack_version: self.proxy_prepare_ack_version,
            need_p2p: self.need_p2p,
            disable_p2p: self.disable_p2p,
            ipv6_public_addr_provider: self.ipv6_public_addr_provider,
            stealth_supported: self.stealth_supported,
            stealth_capabilities: self.stealth_capabilities@,
        }
    }
}

impl PeerFeatureFlag {
    pub fn set_avoid_relay_data(&mut self, avoid_relay_data: bool)
        ensures
            *final(self) == (PeerFeatureFlag { avoid_relay_data, ..*old(self) }),
    {
        self.avoid_relay_data = avoid_relay_data;
    }

    pub fn set_ipv6_public_addr_provider(&mut self, enabled: bool)
        ensures
            *final(self) == (PeerFeatureFlag { ipv6_public_addr_provider: enabled, ..*old(self) }),
    {
        self.ipv6_public_addr_provider = enabled;
    }
}

impl Clone for PeerFeatureFlag {
    fn clone(&self) -> (r: Self)
        ensures
            r@ == self@,
    {
        let mut capabilities: Vec<TransportStealthCapability> = Vec::new();
        let mut i: usize = 0;
        while i < self.stealth_capabilities.len()
            invariant
                i <= self.stealth_capabilities@.len(),
                capabilities@ == self.stealth_capabilities@.take(i as int),
            decreases self.stealth_capabilities@.len() - i,
        {
            capabilities.push(self.stealth_capabilities[i]);
            i += 1;
            assert(self.stealth_capabilities@.take(i as int) =~= self.stealth_capabilities@.take(
                i as int - 1,
            ).push(self.stealth_capabilities@[i as int - 1]));
        }
        assert(self.stealth_capabilities@.take(i as int) =~= self.stealth_capabilities@);
        PeerFeatureFlag {
            is_public_server: self.is_public_server,
            avoid_relay_data: self.avoid_relay_data,
            kcp_input: self.kcp_input,
            no_relay_kcp: self.no_relay_kcp,
            support_conn_list_sync: self.support_conn_list_sync,
            quic_input: self.quic_input,
            no_relay_quic: self.no_relay_quic,
            proxy_prepare_ack_version: self.proxy_prepare_ack_version,
            need_p2p: self.need_p2p,
            disable_p2p: self.disable_p2p,
            ipv6_public_addr_provider: self.ipv6_public_addr_provider,
            stealth_supported: self.stealth_supported,
            stealth_capabilities: capabilities,
        }
    }
}

} // verus!
