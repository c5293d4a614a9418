//! The URLs at which a peer may be reached directly, and the order in which they are tried.
use vstd::prelude::*;

use crate::addr::{IpAddress, SocketAddress};

use crate::endpoint_url::{
    listener_url_at, listener_url_for_addr, mapped_listener_port, AgreedPorts, EndpointUrl,
    UrlHost, UrlParts,
};
use crate::global_ctx::GlobalCtx;
use crate::ip_range::{any_contains, any_holds, IpCidr};
use crate::network::IpList;
use crate::text::same_text;
use crate::transport_priority::{names_of, PreferenceKey, TransportPathClass};
use crate::underlay_guard::{always_guarded, blocks, historical_guarded_ip, should_block_underlay_ip};

verus! {

/// A URL at which a peer may be reached.
#[derive(Debug)]
pub struct DirectCandidate {
    pub url: EndpointUrl,
    pub is_lan: bool,
}

/// A `DirectCandidate` as a mathematical value.
pub ghost struct CandidateParts {
    pub url: UrlParts,
    pub is_lan: bool,
}

impl View for DirectCandidate {
    type V = CandidateParts;

    open spec fn view(&self) -> CandidateParts {
        CandidateParts { url: self.url@, is_lan: self.is_lan }
    }
}

impl CandidateParts {
    pub open spec fn path(self) -> TransportPathClass {
        if self.is_lan {
            TransportPathClass::Lan
        } else {
            TransportPathClass::Wan
        }
    }

    /// How much the candidate is preferred in an order of transports.
    pub open spec fn key_in(self, order: Seq<Seq<char>>) -> PreferenceKey {
        PreferenceKey::of(self.path(), order, self.url.scheme)
    }

    /// How much the candidate is preferred.
    pub open spec fn key(self, lan_order: Seq<Seq<char>>, wan_order: Seq<Seq<char>>) -> PreferenceKey {
        self.key_in(
            if self.is_lan {
                lan_order
            } else {
                wan_order
            },
        )
    }
}

impl DirectCandidate {
    pub fn path(&self) -> (r: TransportPathClass)
        ensures
            r == self@.path(),
    {
        if self.is_lan {
            TransportPathClass::Lan
        } else {
            TransportPathClass::Wan
        }
    }

    pub fn preference_key(&self, lan_order: &Vec<String>, wan_order: &Vec<String>) -> (r:
        PreferenceKey)
        ensures
            r == self@.key(names_of(lan_order@), names_of(wan_order@)),
    {
        if self.is_lan {
            PreferenceKey::new(self.path(), lan_order, self.url.scheme.as_str())
        } else {
            PreferenceKey::new(self.path(), wan_order, self.url.scheme.as_str())
        }
    }
}

/// The candidates that are preferred to what there is.
pub open spec fn improving(
    candidates: Seq<DirectCandidate>,
    lan_order: Seq<Seq<char>>,
    wan_order: Seq<Seq<char>>,
    existing: PreferenceKey,
) -> Seq<DirectCandidate> {
    candidates.filter(|c: DirectCandidate| c@.key(lan_order, wan_order).before(existing))
}

/// Leaves out the candidates that are not preferred to what there is.
pub fn retain_higher_priority_candidates(
    candidates: Vec<DirectCandidate>,
    lan_order: &Vec<String>,
    wan_order: &Vec<String>,
    existing_key: Option<PreferenceKey>,
) -> (r: Vec<DirectCandidate>)
    ensures
        r@ == (match existing_key {
            None => candidates@,
            Some(existing) => improving(
                candidates@,
                names_of(lan_order@),
                names_of(wan_order@),
                existing,
            ),
        }),
{
    let existing = match existing_key {
        None => {
            return candidates;
        },
        Some(existing) => existing,
    };
    let ghost all = candidates@;
    let ghost better = |c: DirectCandidate|
        c@.key(names_of(lan_order@), names_of(wan_order@)).before(existing);
    let mut rest = candidates;
    let mut kept: Vec<DirectCandidate> = Vec::new();
    let ghost mut seen: int = 0;
    proof {
        reveal(Seq::filter);
        assert(all.take(0) =~= Seq::<DirectCandidate>::empty());
        assert(all.skip(0) =~= all);
    }
    while rest.len() > 0
        invariant
            0 <= seen <= all.len(),
            rest@ == all.skip(seen),
            better == |c: DirectCandidate|
                c@.key(names_of(lan_order@), names_of(wan_order@)).before(existing),
            kept@ == all.take(seen).filter(better),
        decreases rest@.len(),
    {
        let candidate = rest.remove(0);
        proof {
            reveal(Seq::filter);
            assert(candidate == all[seen]);
            assert(all.take(seen + 1).drop_last() =~= all.take(seen));
            assert(rest@ =~= all.skip(seen + 1));
            seen = seen + 1;
        }
        if candidate.preference_key(lan_order, wan_order).is_before(existing) {
            kept.push(candidate);
        }
    }
    assert(all.take(seen) =~= all);
    kept
}

/// What the host says of itself.
#[derive(Debug)]
pub struct HostFacts {
    /// Local addresses may be connected to.
    pub testing: bool,
    /// The addresses of the host's interfaces.
    pub local_ips: Vec<IpAddress>,
    /// The networks that the host's interfaces are in.
    pub local_networks: Vec<IpCidr>,
}

/// The address is in a network that the host is in, and not one that others could have, too.
pub open spec fn lan_address(ip: IpAddress, local_networks: Seq<IpCidr>) -> bool {
    (ip.link_local() || ip.private_use()) && any_holds(local_networks, ip)
}

/// Tells whether an address is a local one. Public prefixes do not count, though the host may be in
/// them: hosts of one provider often share such a prefix.
pub fn is_lan_candidate(ip: IpAddress, local_networks: &Vec<IpCidr>) -> (r: bool)
    ensures
        r == lan_address(ip, local_networks@),
{
    (ip.is_link_local() || ip.is_private_use()) && any_contains(local_networks, &ip)
}

/// A listener and what its host was resolved to, if that succeeded.
#[derive(Debug)]
pub struct ResolvedListener {
    pub url: EndpointUrl,
    pub addrs: Option<Vec<SocketAddress>>,
}

/// Some of the addresses of a list are the given one.
fn lists_ip(ips: &Vec<IpAddress>, ip: IpAddress) -> (r: bool)
    ensures
        r == ips@.contains(ip),
{
    let mut i: usize = 0;
    while i < ips.len()
        invariant
            i <= ips@.len(),
            forall|j: int| 0 <= j < i ==> ips@[j] != ip,
        decreases ips@.len() - i,
    {
        if ips[i] == ip {
            return true;
        }
        i += 1;
    }
    false
}

/// The address leads back to a listener of this node.
pub open spec fn leads_back(ctx: &GlobalCtx, host: HostFacts, addr: SocketAddress, is_udp: bool) -> bool {
    ctx.listens_on(addr.spec_port(), is_udp) && (ctx.local_virtual_ip(addr.spec_ip())
        || host.local_ips@.contains(addr.spec_ip()))
}

/// The address is not tried.
pub open spec fn passed_over(ctx: &GlobalCtx, host: HostFacts, addr: SocketAddress, is_udp: bool) -> bool {
    ||| addr.spec_ip().loopback() && !host.testing
    ||| blocks(ctx, addr.spec_ip())
    ||| always_guarded(ctx, addr.spec_ip())
    ||| leads_back(ctx, host, addr, is_udp)
}

/// Tells whether an address is not tried: a loopback address, one that is guarded or managed by the
/// overlay, and one that leads back to this node. Where the node listens on the port, it does not
/// matter whether the port is protected or occupied otherwise.
pub fn is_passed_over(ctx: &GlobalCtx, host: &HostFacts, addr: SocketAddress, is_udp: bool) -> (r:
    bool)
    ensures
        r == passed_over(ctx, *host, addr, is_udp),
{
    let ip = addr.ip();
    if ip.is_loopback() && !host.testing {
        return true;
    }
    if should_block_underlay_ip(ctx, ip) || historical_guarded_ip(ctx, ip) {
        return true;
    }
    let is_local = lists_ip(&host.local_ips, ip);
    ctx.is_port_in_running_listeners(addr.port(), is_udp) && ctx.should_deny_proxy(
        &addr,
        is_udp,
        is_local,
        false,
        false,
    )
}

/// The IPv4 addresses of a peer: those of its interfaces, then its public one.
pub open spec fn ipv4s_of(list: IpList) -> Seq<u32> {
    match list.public_ipv4 {
        Some(ip) => list.interface_ipv4s@.push(ip),
        None => list.interface_ipv4s@,
    }
}

/// The IPv6 addresses of a peer: those of its interfaces, then its public one.
pub open spec fn ipv6s_of(list: IpList) -> Seq<u128> {
    match list.public_ipv6 {
        Some(ip) => list.interface_ipv6s@.push(ip),
        None => list.interface_ipv6s@,
    }
}

/// What an address of a listener stands for: the wildcard stands for the peer's addresses.
pub open spec fn stands_for(list: IpList, addr: SocketAddress) -> Seq<SocketAddress> {
    if !addr.spec_ip().unspecified() {
        seq![addr]
    } else {
        match addr {
            SocketAddress::V4 { port, .. } => ipv4s_of(list).map_values(
                |ip: u32| SocketAddress::of(IpAddress::V4(ip), port),
            ),
            SocketAddress::V6 { port, .. } => ipv6s_of(list).map_values(
                |ip: u128| SocketAddress::of(IpAddress::V6(ip), port),
            ),
        }
    }
}

pub open spec fn all_stand_for(list: IpList, addrs: Seq<SocketAddress>) -> Seq<SocketAddress>
    decreases addrs.len(),
{
    if addrs.len() == 0 {
        Seq::empty()
    } else {
        all_stand_for(list, addrs.drop_last()) + stands_for(list, addrs.last())
    }
}

fn push_stands_for(list: &IpList, addr: SocketAddress, out: &mut Vec<SocketAddress>)
    ensures
        final(out)@ == old(out)@ + stands_for(*list, addr),
{
    let ghost before = out@;
    if !addr.ip().is_unspecified() {
        out.push(addr);
        assert(out@ =~= before + seq![addr]);
        return;
    }
    let ghost all = stands_for(*list, addr);
    let mut i: usize = 0;
    match addr {
        SocketAddress::V4 { port, .. } => {
            while i < list.interface_ipv4s.len()
                invariant
                    i <= list.interface_ipv4s@.len(),
                    all == ipv4s_of(*list).map_values(
                        |ip: u32| SocketAddress::of(IpAddress::V4(ip), port),
                    ),
                    out@ == before + all.take(i as int),
                decreases list.interface_ipv4s@.len() - i,
            {
                out.push(SocketAddress::new(IpAddress::V4(list.interface_ipv4s[i]), port));
                i += 1;
                assert(out@ =~= before + all.take(i as int));
            }
            if let Some(ip) = list.public_ipv4 {
                out.push(SocketAddress::new(IpAddress::V4(ip), port));
            }
        },
        SocketAddress::V6 { port, .. } => {
            while i < list.interface_ipv6s.len()
                invariant
                    i <= list.interface_ipv6s@.len(),
                    all == ipv6s_of(*list).map_values(
                        |ip: u128| SocketAddress::of(IpAddress::V6(ip), port),
                    ),
                    out@ == before + all.take(i as int),
                decreases list.interface_ipv6s@.len() - i,
            {
                out.push(SocketAddress::new(IpAddress::V6(list.interface_ipv6s[i]), port));
                i += 1;
                assert(out@ =~= before + all.take(i as int));
            }
            if let Some(ip) = list.public_ipv6 {
                out.push(SocketAddress::new(IpAddress::V6(ip), port));
            }
        },
    }
    assert(out@ =~= before + all);
}

fn expand_addrs(list: &IpList, addrs: &Vec<SocketAddress>) -> (r: Vec<SocketAddress>)
    ensures
        r@ == all_stand_for(*list, addrs@),
{
    let mut out: Vec<SocketAddress> = Vec::new();
    let mut i: usize = 0;
    assert(addrs@.take(0) =~= Seq::<SocketAddress>::empty());
    while i < addrs.len()
        invariant
            i <= addrs@.len(),
            out@ == all_stand_for(*list, addrs@.take(i as int)),
        decreases addrs@.len() - i,
    {
        push_stands_for(list, addrs[i], &mut out);
        assert(addrs@.take(i as int + 1).drop_last() =~= addrs@.take(i as int));
        i += 1;
    }
    assert(addrs@.take(addrs@.len() as int) =~= addrs@);
    out
}

pub open spec fn views_of(candidates: Seq<DirectCandidate>) -> Seq<CandidateParts> {
    candidates.map_values(|c: DirectCandidate| c@)
}

/// A candidate has the URL.
pub open spec fn lists_url(candidates: Seq<CandidateParts>, text: Seq<char>) -> bool {
    exists|i: int| 0 <= i < candidates.len() && (#[trigger] candidates[i]).url.text == text
}

fn has_url(candidates: &Vec<DirectCandidate>, text: &str) -> (r: bool)
    ensures
        r == lists_url(views_of(candidates@), text@),
{
    let ghost views = views_of(candidates@);
    let mut i: usize = 0;
    while i < candidates.len()
        invariant
            i <= candidates@.len(),
            views == views_of(candidates@),
            forall|j: int| 0 <= j < i ==> (#[trigger] views[j]).url.text != text@,
        decreases candidates@.len() - i,
    {
        if same_text(candidates[i].url.text.as_str(), text) {
            assert(views[i as int].url.text == text@);
            return true;
        }
        i += 1;
    }
    false
}

/// The candidates, with the one that a listener has at an address.
pub open spec fn with_address(
    ctx: &GlobalCtx,
    host: HostFacts,
    listener: UrlParts,
    addr: SocketAddress,
    before: Seq<CandidateParts>,
) -> Seq<CandidateParts> {
    if passed_over(ctx, host, addr, listener.over_udp()) {
        before
    } else {
        match listener_url_at(listener, addr) {
            None => before,
            Some(url) => if lists_url(before, url.text) {
                before
            } else {
                before.push(
                    CandidateParts {
                        url,
                        is_lan: lan_address(addr.spec_ip(), host.local_networks@),
                    },
                )
            },
        }
    }
}

/// The candidates, with those that a listener has at some addresses.
pub open spec fn with_addresses(
    ctx: &GlobalCtx,
    host: HostFacts,
    listener: UrlParts,
    addrs: Seq<SocketAddress>,
    before: Seq<CandidateParts>,
) -> Seq<CandidateParts>
    decreases addrs.len(),
{
    if addrs.len() == 0 {
        before
    } else {
        with_address(
            ctx,
            host,
            listener,
            addrs.last(),
            with_addresses(ctx, host, listener, addrs.drop_last(), before),
        )
    }
}

/// The candidates of a peer's listeners.
pub open spec fn candidates_of(
    ctx: &GlobalCtx,
    host: HostFacts,
    list: IpList,
    listeners: Seq<ResolvedListener>,
) -> Seq<CandidateParts>
    decreases listeners.len(),
{
    if listeners.len() == 0 {
        Seq::empty()
    } else {
        let before = candidates_of(ctx, host, list, listeners.drop_last());
        match listeners.last().addrs {
            None => before,
            Some(addrs) => with_addresses(
                ctx,
                host,
                listeners.last().url@,
                all_stand_for(list, addrs@),
                before,
            ),
        }
    }
}

fn push_address(
    ctx: &GlobalCtx,
    host: &HostFacts,
    listener: &EndpointUrl,
    addr: SocketAddress,
    out: &mut Vec<DirectCandidate>,
)
    ensures
        views_of(final(out)@) == with_address(ctx, *host, listener@, addr, views_of(old(out)@)),
{
    if is_passed_over(ctx, host, addr, listener.runs_over_udp()) {
        return;
    }
    let url = match listener_url_for_addr(listener, addr) {
        None => {
            return;
        },
        Some(url) => url,
    };
    if has_url(out, url.text.as_str()) {
        return;
    }
    let is_lan = is_lan_candidate(addr.ip(), &host.local_networks);
    let candidate = DirectCandidate { url, is_lan };
    let ghost before = out@;
    let ghost parts = candidate@;
    out.push(candidate);
    assert(views_of(out@) =~= views_of(before).push(parts));
}

/// Lists the URLs at which a peer may be reached: those of its listeners, at all the addresses that
/// they stand for, without those that are not tried and without repetition.
pub fn expand_direct_candidates(
    ctx: &GlobalCtx,
    host: &HostFacts,
    list: &IpList,
    listeners: &Vec<ResolvedListener>,
) -> (r: Vec<DirectCandidate>)
    ensures
        views_of(r@) == candidates_of(ctx, *host, *list, listeners@),
{
    let mut out: Vec<DirectCandidate> = Vec::new();
    let mut i: usize = 0;
    assert(listeners@.take(0) =~= Seq::<ResolvedListener>::empty());
    assert(views_of(out@) =~= Seq::<CandidateParts>::empty());
    while i < listeners.len()
        invariant
            i <= listeners@.len(),
            views_of(out@) == candidates_of(ctx, *host, *list, listeners@.take(i as int)),
        decreases listeners@.len() - i,
    {
        let ghost before = views_of(out@);
        assert(listeners@.take(i as int + 1).drop_last() =~= listeners@.take(i as int));
        if let Some(addrs) = &listeners[i].addrs {
            let expanded = expand_addrs(list, addrs);
            let mut k: usize = 0;
            assert(expanded@.take(0) =~= Seq::<SocketAddress>::empty());
            while k < expanded.len()
                invariant
                    i < listeners@.len(),
                    k <= expanded@.len(),
                    views_of(out@) == with_addresses(
                        ctx,
                        *host,
                        listeners@[i as int].url@,
                        expanded@.take(k as int),
                        before,
                    ),
                decreases expanded@.len() - k,
            {
                push_address(ctx, host, &listeners[i].url, expanded[k], &mut out);
                assert(expanded@.take(k as int + 1).drop_last() =~= expanded@.take(k as int));
                k += 1;
            }
            assert(expanded@.take(expanded@.len() as int) =~= expanded@);
        }
        i += 1;
    }
    assert(listeners@.take(listeners@.len() as int) =~= listeners@);
    out
}

/// No two candidates have the same URL.
pub open spec fn without_repetition(candidates: Seq<CandidateParts>) -> bool {
    forall|i: int, j: int|
        0 <= i < j < candidates.len() ==> (#[trigger] candidates[i]).url.text != (
        #[trigger] candidates[j]).url.text
}

/// The candidate belongs to an address that is tried.
pub open spec fn is_open_candidate(ctx: &GlobalCtx, host: HostFacts, candidate: CandidateParts) -> bool {
    exists|listener: UrlParts, addr: SocketAddress|
        #[trigger] listener_url_at(listener, addr) == Some(candidate.url) && !passed_over(
            ctx,
            host,
            addr,
            listener.over_udp(),
        ) && candidate.is_lan == lan_address(addr.spec_ip(), host.local_networks@)
}

pub open spec fn sound_candidates(ctx: &GlobalCtx, host: HostFacts, candidates: Seq<CandidateParts>) -> bool {
    without_repetition(candidates) && forall|i: int|
        0 <= i < candidates.len() ==> is_open_candidate(ctx, host, #[trigger] candidates[i])
}

proof fn lemma_addresses_are_sound(
    ctx: &GlobalCtx,
    host: HostFacts,
    listener: UrlParts,
    addrs: Seq<SocketAddress>,
    before: Seq<CandidateParts>,
)
    requires
        sound_candidates(ctx, host, before),
    ensures
        sound_candidates(ctx, host, with_addresses(ctx, host, listener, addrs, before)),
    decreases addrs.len(),
{
    if addrs.len() > 0 {
        lemma_addresses_are_sound(ctx, host, listener, addrs.drop_last(), before);
        let so_far = with_addresses(ctx, host, listener, addrs.drop_last(), before);
        let addr = addrs.last();
        if !passed_over(ctx, host, addr, listener.over_udp()) {
            if let Some(url) = listener_url_at(listener, addr) {
                if !lists_url(so_far, url.text) {
                    let new = CandidateParts {
                        url,
                        is_lan: lan_address(addr.spec_ip(), host.local_networks@),
                    };
                    assert(is_open_candidate(ctx, host, new));
                    let after = so_far.push(new);
                    assert forall|i: int, j: int| 0 <= i < j < after.len() implies (
                    #[trigger] after[i]).url.text != (#[trigger] after[j]).url.text by {
                        assert(after[i] == so_far[i]);
                        if j < so_far.len() {
                            assert(after[j] == so_far[j]);
                        }
                    }
                    assert forall|i: int| 0 <= i < after.len() implies is_open_candidate(
                        ctx,
                        host,
                        #[trigger] after[i],
                    ) by {
                        if i < so_far.len() {
                            assert(after[i] == so_far[i]);
                        }
                    }
                }
            }
        }
    }
}

/// No URL is tried twice, and none at a guarded or managed address, at an address that leads back to
/// this node or, but for tests, at a loopback address.
pub proof fn law_candidates_are_open_and_unique(
    ctx: &GlobalCtx,
    host: HostFacts,
    list: IpList,
    listeners: Seq<ResolvedListener>,
)
    ensures
        sound_candidates(ctx, host, candidates_of(ctx, host, list, listeners)),
    decreases listeners.len(),
{
    if listeners.len() > 0 {
        law_candidates_are_open_and_unique(ctx, host, list, listeners.drop_last());
        let before = candidates_of(ctx, host, list, listeners.drop_last());
        if let Some(addrs) = listeners.last().addrs {
            lemma_addresses_are_sound(
                ctx,
                host,
                listeners.last().url@,
                all_stand_for(list, addrs@),
                before,
            );
        }
    }
}

/// The listener can be connected to.
pub open spec fn usable_listener(url: UrlParts, enable_ipv6: bool, agreed: AgreedPorts) -> bool {
    &&& url.scheme != "ring"@
    &&& url.effective_port(agreed) is Some
    &&& !(url.host is Missing)
    &&& enable_ipv6 || !(url.host is Ipv6)
}

fn is_usable_listener(url: &EndpointUrl, enable_ipv6: bool, agreed: &AgreedPorts) -> (r: bool)
    ensures
        r == usable_listener(url@, enable_ipv6, *agreed),
{
    if same_text(url.scheme.as_str(), "ring") {
        return false;
    }
    if mapped_listener_port(url, agreed).is_none() {
        return false;
    }
    match &url.host {
        UrlHost::Missing => false,
        UrlHost::Ipv6(_) => enable_ipv6,
        _ => true,
    }
}

/// Leaves out the listeners that cannot be connected to.
pub fn available_listeners(listeners: Vec<EndpointUrl>, enable_ipv6: bool, agreed: &AgreedPorts) -> (r:
    Vec<EndpointUrl>)
    ensures
        r@ == listeners@.filter(|l: EndpointUrl| usable_listener(l@, enable_ipv6, *agreed)),
{
    let ghost all = listeners@;
    let ghost usable = |l: EndpointUrl| usable_listener(l@, enable_ipv6, *agreed);
    let mut rest = listeners;
    let mut kept: Vec<EndpointUrl> = Vec::new();
    let ghost mut seen: int = 0;
    proof {
        reveal(Seq::filter);
        assert(all.take(0) =~= Seq::<EndpointUrl>::empty());
        assert(all.skip(0) =~= all);
    }
    while rest.len() > 0
        invariant
            0 <= seen <= all.len(),
            rest@ == all.skip(seen),
            usable == |l: EndpointUrl| usable_listener(l@, enable_ipv6, *agreed),
            kept@ == all.take(seen).filter(usable),
        decreases rest@.len(),
    {
        let listener = rest.remove(0);
        proof {
            reveal(Seq::filter);
            assert(listener == all[seen]);
            assert(all.take(seen + 1).drop_last() =~= all.take(seen));
            assert(rest@ =~= all.skip(seen + 1));
            seen = seen + 1;
        }
        if is_usable_listener(&listener, enable_ipv6, agreed) {
            kept.push(listener);
        }
    }
    assert(all.take(seen) =~= all);
    kept
}

/// An address is local only if it is private or for one link and lies in a network that the host is in;
/// an address that all of the internet can reach never is.
pub proof fn law_local_addresses_are_private(ip: IpAddress, local_networks: Seq<IpCidr>)
    ensures
        lan_address(ip, local_networks) ==> any_holds(local_networks, ip) && (ip.private_use()
            || ip.link_local()),
        any_holds(local_networks, ip) && ip.private_use() ==> lan_address(ip, local_networks),
        any_holds(local_networks, ip) && ip.link_local() ==> lan_address(ip, local_networks),
        ip.loopback() || ip.unspecified() || ip.multicast() ==> !lan_address(ip, local_networks),
{
}

/// An address is not tried just where it is loopback, but for tests, where the guard holds it, where the
/// overlay manages it, or where it leads back to a listener of this node.
pub proof fn law_which_addresses_are_tried(
    ctx: &GlobalCtx,
    host: HostFacts,
    addr: SocketAddress,
    is_udp: bool,
)
    ensures
        addr.spec_ip().loopback() && !host.testing ==> passed_over(ctx, host, addr, is_udp),
        blocks(ctx, addr.spec_ip()) ==> passed_over(ctx, host, addr, is_udp),
        addr is V6 && ctx.managed_ipv6(addr->ipv6) ==> passed_over(ctx, host, addr, is_udp),
        ctx.listens_on(addr.spec_port(), is_udp) && host.local_ips@.contains(addr.spec_ip())
            ==> passed_over(ctx, host, addr, is_udp),
        ctx.listens_on(addr.spec_port(), is_udp) && addr is V4 && ctx.ipv4 is Some
            && ctx.ipv4->0.address == addr->ipv4 ==> passed_over(ctx, host, addr, is_udp),
        !ctx.listens_on(addr.spec_port(), is_udp) ==> !leads_back(ctx, host, addr, is_udp),
        (!addr.spec_ip().loopback() || host.testing) && !blocks(ctx, addr.spec_ip()) && !(addr is V6
            && ctx.managed_ipv6(addr->ipv6)) && !(ctx.listens_on(addr.spec_port(), is_udp) && (
        ctx.local_virtual_ip(addr.spec_ip()) || host.local_ips@.contains(addr.spec_ip())))
            ==> !passed_over(ctx, host, addr, is_udp),
{
}

/// An address stands for itself; the wildcard stands for each address of the peer of the same version, the
/// public one among them, at the same port, and for nothing else.
pub proof fn law_wildcard_stands_for_all_addresses(list: IpList, addr: SocketAddress, ip: IpAddress)
    ensures
        !addr.spec_ip().unspecified() ==> stands_for(list, addr) == seq![addr],
        addr.spec_ip().unspecified() && addr is V4 ==> (stands_for(list, addr).contains(
            SocketAddress::of(ip, addr.spec_port()),
        ) <==> ip is V4 && (list.interface_ipv4s@.contains(ip->V4_0) || list.public_ipv4 == Some(
            ip->V4_0,
        ))),
        addr.spec_ip().unspecified() && addr is V6 ==> (stands_for(list, addr).contains(
            SocketAddress::of(ip, addr.spec_port()),
        ) <==> ip is V6 && (list.interface_ipv6s@.contains(ip->V6_0) || list.public_ipv6 == Some(
            ip->V6_0,
        ))),
        forall|k: int|
            0 <= k < stands_for(list, addr).len() ==> (#[trigger] stands_for(list, addr)[k]).spec_port()
                == addr.spec_port(),
{
    let all = stands_for(list, addr);
    let wanted = SocketAddress::of(ip, addr.spec_port());
    if addr.spec_ip().unspecified() {
        if addr is V4 {
            let ips = ipv4s_of(list);
            if all.contains(wanted) {
                let k = choose|k: int| 0 <= k < all.len() && all[k] == wanted;
                assert(SocketAddress::of(IpAddress::V4(ips[k]), addr.spec_port()) == wanted);
                assert(ip == IpAddress::V4(ips[k]));
                if k < list.interface_ipv4s@.len() {
                    assert(list.interface_ipv4s@[k] == ips[k]);
                }
            }
            if ip is V4 && list.interface_ipv4s@.contains(ip->V4_0) {
                let k = choose|k: int|
                    0 <= k < list.interface_ipv4s@.len() && list.interface_ipv4s@[k] == ip->V4_0;
                assert(ips[k] == ip->V4_0);
                assert(all[k] == wanted);
            }
            if ip is V4 && list.public_ipv4 == Some(ip->V4_0) {
                assert(ips[ips.len() - 1] == ip->V4_0);
                assert(all[ips.len() - 1] == wanted);
            }
        } else {
            let ips = ipv6s_of(list);
            if all.contains(wanted) {
                let k = choose|k: int| 0 <= k < all.len() && all[k] == wanted;
                assert(SocketAddress::of(IpAddress::V6(ips[k]), addr.spec_port()) == wanted);
                assert(ip == IpAddress::V6(ips[k]));
                if k < list.interface_ipv6s@.len() {
                    assert(list.interface_ipv6s@[k] == ips[k]);
                }
            }
            if ip is V6 && list.interface_ipv6s@.contains(ip->V6_0) {
                let k = choose|k: int|
                    0 <= k < list.interface_ipv6s@.len() && list.interface_ipv6s@[k] == ip->V6_0;
                assert(ips[k] == ip->V6_0);
                assert(all[k] == wanted);
            }
            if ip is V6 && list.public_ipv6 == Some(ip->V6_0) {
                assert(ips[ips.len() - 1] == ip->V6_0);
                assert(all[ips.len() - 1] == wanted);
            }
        }
    }
}

/// What some addresses stand for is what each of them stands for, and nothing else.
pub proof fn law_addresses_stand_for_theirs(
    list: IpList,
    addrs: Seq<SocketAddress>,
    addr: SocketAddress,
)
    ensures
        all_stand_for(list, addrs).contains(addr) <==> exists|i: int|
            0 <= i < addrs.len() && stands_for(list, #[trigger] addrs[i]).contains(addr),
    decreases addrs.len(),
{
    if addrs.len() > 0 {
        let front = addrs.drop_last();
        law_addresses_stand_for_theirs(list, front, addr);
        let before = all_stand_for(list, front);
        let more = stands_for(list, addrs.last());
        let all = all_stand_for(list, addrs);
        assert forall|i: int| 0 <= i < front.len() implies front[i] == #[trigger] addrs[i] by {}
        if before.contains(addr) {
            let k = choose|k: int| 0 <= k < before.len() && before[k] == addr;
            assert(all[k] == addr);
            let i = choose|i: int|
                0 <= i < front.len() && stands_for(list, #[trigger] front[i]).contains(addr);
            assert(stands_for(list, addrs[i]).contains(addr));
        }
        if more.contains(addr) {
            let k = choose|k: int| 0 <= k < more.len() && more[k] == addr;
            assert(all[before.len() + k] == addr);
            assert(stands_for(list, addrs[addrs.len() - 1]).contains(addr));
        }
        if all.contains(addr) && !before.contains(addr) {
            let k = choose|k: int| 0 <= k < all.len() && all[k] == addr;
            if k < before.len() {
                assert(before[k] == addr);
            } else {
                assert(more[k - before.len()] == addr);
            }
        }
        if exists|i: int| 0 <= i < addrs.len() && stands_for(list, #[trigger] addrs[i]).contains(addr) {
            let i = choose|i: int|
                0 <= i < addrs.len() && stands_for(list, #[trigger] addrs[i]).contains(addr);
            if i < front.len() {
                assert(stands_for(list, front[i]).contains(addr));
            }
        }
    }
}

proof fn lemma_addresses_are_listed(
    ctx: &GlobalCtx,
    host: HostFacts,
    listener: UrlParts,
    addrs: Seq<SocketAddress>,
    before: Seq<CandidateParts>,
)
    ensures
        ({
            let after = with_addresses(ctx, host, listener, addrs, before);
            &&& before.is_prefix_of(after)
            &&& forall|i: int|
                0 <= i < addrs.len() && !passed_over(ctx, host, #[trigger] addrs[i], listener.over_udp())
                    && listener_url_at(listener, addrs[i]) is Some ==> lists_url(
                    after,
                    listener_url_at(listener, addrs[i])->0.text,
                )
        }),
    decreases addrs.len(),
{
    if addrs.len() > 0 {
        let front = addrs.drop_last();
        lemma_addresses_are_listed(ctx, host, listener, front, before);
        let earlier = with_addresses(ctx, host, listener, front, before);
        let after = with_addresses(ctx, host, listener, addrs, before);
        assert(earlier.is_prefix_of(after));
        assert forall|i: int|
            0 <= i < addrs.len() && !passed_over(ctx, host, #[trigger] addrs[i], listener.over_udp())
                && listener_url_at(listener, addrs[i]) is Some implies lists_url(
            after,
            listener_url_at(listener, addrs[i])->0.text,
        ) by {
            let text = listener_url_at(listener, addrs[i])->0.text;
            if i < front.len() {
                assert(front[i] == addrs[i]);
                let k = choose|k: int|
                    0 <= k < earlier.len() && (#[trigger] earlier[k]).url.text == text;
                assert(after[k].url.text == text);
            } else if lists_url(earlier, text) {
                let k = choose|k: int|
                    0 <= k < earlier.len() && (#[trigger] earlier[k]).url.text == text;
                assert(after[k].url.text == text);
            } else {
                assert(after[after.len() - 1].url.text == text);
            }
        }
    }
}

/// Every address of every listener that is tried at all gives a candidate, in the order of the listeners:
/// one more listener only adds candidates behind those that there are.
pub proof fn law_every_open_address_is_a_candidate(
    ctx: &GlobalCtx,
    host: HostFacts,
    list: IpList,
    listeners: Seq<ResolvedListener>,
    n: int,
    addr: SocketAddress,
)
    requires
        0 <= n < listeners.len(),
        listeners[n].addrs is Some,
        all_stand_for(list, listeners[n].addrs->0@).contains(addr),
        !passed_over(ctx, host, addr, listeners[n].url@.over_udp()),
        listener_url_at(listeners[n].url@, addr) is Some,
    ensures
        lists_url(
            candidates_of(ctx, host, list, listeners),
            listener_url_at(listeners[n].url@, addr)->0.text,
        ),
        candidates_of(ctx, host, list, listeners.drop_last()).is_prefix_of(
            candidates_of(ctx, host, list, listeners),
        ),
    decreases listeners.len(),
{
    let front = listeners.drop_last();
    let before = candidates_of(ctx, host, list, front);
    let after = candidates_of(ctx, host, list, listeners);
    let text = listener_url_at(listeners[n].url@, addr)->0.text;
    if let Some(addrs) = listeners.last().addrs {
        let all = all_stand_for(list, addrs@);
        lemma_addresses_are_listed(ctx, host, listeners.last().url@, all, before);
        if n == listeners.len() - 1 {
            let i = choose|i: int| 0 <= i < all.len() && all[i] == addr;
            assert(!passed_over(ctx, host, all[i], listeners.last().url@.over_udp()));
        }
    }
    if n < front.len() {
        law_every_open_address_is_a_candidate(ctx, host, list, front, n, addr);
        let k = choose|k: int| 0 <= k < before.len() && (#[trigger] before[k]).url.text == text;
        assert(after[k].url.text == text);
    }
}

/// A listener can be connected to just where it is no ring, has a host and a port, and IPv6 is enabled if
/// its host is an IPv6 address.
pub proof fn law_usable_listeners(url: UrlParts, enable_ipv6: bool, agreed: AgreedPorts)
    ensures
        url.scheme == "ring"@ ==> !usable_listener(url, enable_ipv6, agreed),
        url.host is Missing ==> !usable_listener(url, enable_ipv6, agreed),
        url.host is Ipv6 && !enable_ipv6 ==> !usable_listener(url, enable_ipv6, agreed),
        url.port is None && url.ip_scheme() is None ==> !usable_listener(url, enable_ipv6, agreed),
        url.scheme != "ring"@ && (url.host is Domain || url.host is Ipv4 || (url.host is Ipv6
            && enable_ipv6)) && (url.port is Some || url.ip_scheme() is Some) ==> usable_listener(
            url,
            enable_ipv6,
            agreed,
        ),
{
}

/// A candidate in the local network is preferred to any other; otherwise the order of the transports on
/// its path decides.
pub proof fn law_local_candidates_are_preferred(
    a: CandidateParts,
    b: CandidateParts,
    lan_order: Seq<Seq<char>>,
    wan_order: Seq<Seq<char>>,
)
    ensures
        a.is_lan && !b.is_lan ==> a.key(lan_order, wan_order).before(b.key(lan_order, wan_order)),
        a.is_lan ==> a.key(lan_order, wan_order) == PreferenceKey::of(
            TransportPathClass::Lan,
            lan_order,
            a.url.scheme,
        ),
        !a.is_lan ==> a.key(lan_order, wan_order) == PreferenceKey::of(
            TransportPathClass::Wan,
            wan_order,
            a.url.scheme,
        ),
{
}

} // verus!
