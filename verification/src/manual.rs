//! Keeps the connections to configured URLs alive.
use vstd::prelude::*;

use crate::addr::{IpVersion, SocketAddress};
use crate::endpoint_url::{scheme_by_name, scheme_named, EndpointUrl, TunnelScheme, UrlParts};
use crate::text::{lemma_texts_step, same_text, texts_of};
use crate::text_set::{distinct_texts, TextSet};

verus! {

/// How long resolving, connecting and the handshake may take together, in seconds. The schemes
/// whose URLs lead somewhere else take long; UDP that hides what it is may have to fall back.
pub open spec fn timeout_secs(url: UrlParts, udp_stealth_enabled: bool) -> u64 {
    match scheme_named(url.scheme) {
        Some(TunnelScheme::Http) | Some(TunnelScheme::Https) | Some(TunnelScheme::Txt) | Some(
            TunnelScheme::Srv,
        ) => 20,
        _ => if url.scheme == "ws"@ || url.scheme == "wss"@ {
            20
        } else if url.scheme == "udp"@ && udp_stealth_enabled {
            6
        } else {
            2
        },
    }
}

pub fn reconnect_timeout(dead_url: &EndpointUrl, udp_stealth_enabled: bool) -> (r: u64)
    ensures
        r == timeout_secs(dead_url@, udp_stealth_enabled),
{
    let scheme = dead_url.scheme.as_str();
    match scheme_by_name(scheme) {
        Some(TunnelScheme::Http) | Some(TunnelScheme::Https) | Some(TunnelScheme::Txt) | Some(
            TunnelScheme::Srv,
        ) => 20,
        _ => if same_text(scheme, "ws") || same_text(scheme, "wss") {
            20
        } else if same_text(scheme, "udp") && udp_stealth_enabled {
            6
        } else {
            2
        },
    }
}

/// What is left of a time span, in nanoseconds, if anything is.
pub fn remaining_budget(elapsed: u64, total_timeout: u64) -> (r: Option<u64>)
    ensures
        r == (if elapsed < total_timeout {
            Some((total_timeout - elapsed) as u64)
        } else {
            None
        }),
{
    if elapsed < total_timeout {
        Some(total_timeout - elapsed)
    } else {
        None
    }
}

/// A stage of reconnecting.
#[derive(Clone, Copy, Debug, PartialEq, Eq, Structural)]
pub enum ReconnectStage {
    Resolve,
    Connect,
    Handshake,
}

impl ReconnectStage {
    pub open spec fn text(self) -> Seq<char> {
        match self {
            ReconnectStage::Resolve => "resolve"@,
            ReconnectStage::Connect => "connect"@,
            ReconnectStage::Handshake => "handshake"@,
        }
    }

    pub fn name(self) -> (r: &'static str)
        ensures
            r@ == self.text(),
    {
        match self {
            ReconnectStage::Resolve => "resolve",
            ReconnectStage::Connect => "connect",
            ReconnectStage::Handshake => "handshake",
        }
    }
}

/// A stage took too long: it had `after` nanoseconds, or there was nothing left for it after that
/// time.
#[derive(Clone, Copy, Debug, PartialEq, Eq, Structural)]
pub struct StageTimeout {
    pub stage: ReconnectStage,
    pub after: u64,
}

impl StageTimeout {
    /// What the message starts with; the time follows.
    pub fn message_start(&self) -> (r: String)
        ensures
            r@ == self.stage.text() + " timeout after "@,
    {
        let mut out = self.stage.name().to_owned();
        out.append(" timeout after ");
        out
    }
}

/// Gives the time that a stage has.
pub fn begin_stage(stage: ReconnectStage, elapsed: u64, total_timeout: u64) -> (r: Result<
    u64,
    StageTimeout,
>)
    ensures
        r == (if elapsed < total_timeout {
            Ok::<u64, StageTimeout>((total_timeout - elapsed) as u64)
        } else {
            Err(StageTimeout { stage, after: elapsed })
        }),
{
    match remaining_budget(elapsed, total_timeout) {
        Some(remaining) => Ok(remaining),
        None => Err(StageTimeout { stage, after: elapsed }),
    }
}

/// Takes in what came of a stage: nothing, if its time was up before.
pub fn end_stage<T, E>(
    stage: ReconnectStage,
    remaining: u64,
    result: Option<Result<T, E>>,
) -> (r: Result<Result<T, E>, StageTimeout>)
    ensures
        r == (match result {
            Some(result) => Ok::<Result<T, E>, StageTimeout>(result),
            None => Err(StageTimeout { stage, after: remaining }),
        }),
{
    match result {
        Some(result) => Ok(result),
        None => Err(StageTimeout { stage, after: remaining }),
    }
}

/// The URL is looked up by other means than its host's addresses.
pub open spec fn needs_no_address(scheme: Seq<char>) -> bool {
    match scheme_named(scheme) {
        Some(TunnelScheme::Ring) | Some(TunnelScheme::Txt) | Some(TunnelScheme::Srv) => true,
        _ => false,
    }
}

pub fn resolves_by_itself(url: &EndpointUrl) -> (r: bool)
    ensures
        r == needs_no_address(url@.scheme),
{
    match scheme_by_name(url.scheme.as_str()) {
        Some(TunnelScheme::Ring) | Some(TunnelScheme::Txt) | Some(TunnelScheme::Srv) => true,
        _ => false,
    }
}

/// Some of the addresses is of the version.
pub open spec fn has_ipv4(addrs: Seq<SocketAddress>) -> bool {
    exists|i: int| 0 <= i < addrs.len() && #[trigger] addrs[i] is V4
}

pub open spec fn has_ipv6(addrs: Seq<SocketAddress>) -> bool {
    exists|i: int| 0 <= i < addrs.len() && #[trigger] addrs[i] is V6
}

/// The versions of some addresses: IPv4 first.
pub open spec fn versions_among(addrs: Seq<SocketAddress>) -> Seq<IpVersion> {
    (if has_ipv4(addrs) {
        seq![IpVersion::V4]
    } else {
        Seq::empty()
    }) + (if has_ipv6(addrs) {
        seq![IpVersion::V6]
    } else {
        Seq::empty()
    })
}

/// Lists the versions of IP to try for a URL, given the addresses of its host.
pub fn reconnect_ip_versions(url: &EndpointUrl, addrs: &Vec<SocketAddress>) -> (r: Vec<IpVersion>)
    ensures
        r@ == (if needs_no_address(url@.scheme) {
            seq![IpVersion::Both]
        } else {
            versions_among(addrs@)
        }),
{
    let mut out: Vec<IpVersion> = Vec::new();
    if resolves_by_itself(url) {
        out.push(IpVersion::Both);
        assert(out@ =~= seq![IpVersion::Both]);
        return out;
    }
    let mut found_ipv4 = false;
    let mut found_ipv6 = false;
    let mut i: usize = 0;
    while i < addrs.len()
        invariant
            i <= addrs@.len(),
            found_ipv4 == exists|j: int| 0 <= j < i && #[trigger] addrs@[j] is V4,
            found_ipv6 == exists|j: int| 0 <= j < i && #[trigger] addrs@[j] is V6,
        decreases addrs@.len() - i,
    {
        if addrs[i].is_ipv4() {
            assert(addrs@[i as int] is V4);
            found_ipv4 = true;
        } else {
            assert(addrs@[i as int] is V6);
            found_ipv6 = true;
        }
        i += 1;
    }
    if found_ipv4 {
        out.push(IpVersion::V4);
    }
    if found_ipv6 {
        out.push(IpVersion::V6);
    }
    assert(out@ =~= versions_among(addrs@));
    out
}

/// What to do next when reconnecting.
#[derive(Clone, Copy, Debug, PartialEq, Eq, Structural)]
pub enum ReconnectStep {
    Try(IpVersion),
    Connected,
    /// The error of the last try is final.
    LastErrorStands,
    /// There was nothing to try.
    NoAddress,
}

/// Reconnecting over one version of IP after the other.
#[derive(Debug)]
pub struct ReconnectRun {
    pub versions: Vec<IpVersion>,
    pub tried: usize,
}

impl ReconnectRun {
    pub open spec fn wf(&self) -> bool {
        self.tried <= self.versions@.len()
    }

    pub open spec fn pending(&self) -> ReconnectStep {
        if self.tried < self.versions@.len() {
            ReconnectStep::Try(self.versions@[self.tried as int])
        } else if self.tried > 0 {
            ReconnectStep::LastErrorStands
        } else {
            ReconnectStep::NoAddress
        }
    }

    pub fn start(versions: Vec<IpVersion>) -> (r: Self)
        ensures
            r.wf(),
            r.versions == versions,
            r.tried == 0,
    {
        ReconnectRun { versions, tried: 0 }
    }

    pub fn step(&self) -> (r: ReconnectStep)
        requires
            self.wf(),
        ensures
            r == self.pending(),
    {
        if self.tried < self.versions.len() {
            ReconnectStep::Try(self.versions[self.tried])
        } else if self.tried > 0 {
            ReconnectStep::LastErrorStands
        } else {
            ReconnectStep::NoAddress
        }
    }

    /// Takes in what came of a try.
    pub fn record(&mut self, connected: bool) -> (r: ReconnectStep)
        requires
            old(self).wf(),
            old(self).tried < old(self).versions@.len(),
        ensures
            final(self).wf(),
            final(self).versions == old(self).versions,
            final(self).tried == old(self).tried + 1,
            r == (if connected {
                ReconnectStep::Connected
            } else {
                final(self).pending()
            }),
    {
        let count: usize = self.versions.len();
        assert(self.tried < count);
        self.tried = self.tried + 1;
        if connected {
            return ReconnectStep::Connected;
        }
        self.step()
    }
}

/// The URLs that are kept connected, as a mathematical value.
#[verifier::ext_equal]
pub ghost struct ConnectorSets {
    pub connectors: Set<Seq<char>>,
    /// Those that are being reconnected.
    pub reconnecting: Set<Seq<char>>,
    /// Those that only help to find the first peers.
    pub helpers: Set<Seq<char>>,
    /// Those that are to be removed.
    pub removed: Set<Seq<char>>,
}

impl ConnectorSets {
    /// No URL is being reconnected and waiting for it.
    pub open spec fn wf(self) -> bool {
        forall|url: Seq<char>|
            self.connectors.contains(url) ==> !#[trigger] self.reconnecting.contains(url)
    }

    pub open spec fn known(self, url: Seq<char>) -> bool {
        self.connectors.contains(url) || self.reconnecting.contains(url)
    }

    pub open spec fn added(self, url: Seq<char>) -> ConnectorSets {
        ConnectorSets {
            connectors: if self.reconnecting.contains(url) {
                self.connectors
            } else {
                self.connectors.insert(url)
            },
            helpers: self.helpers.remove(url),
            removed: self.removed.remove(url),
            ..self
        }
    }

    /// A URL that is kept connected anyway becomes a helper only if it was about to be removed.
    pub open spec fn helper_added(self, url: Seq<char>) -> ConnectorSets {
        ConnectorSets {
            connectors: if self.known(url) {
                self.connectors
            } else {
                self.connectors.insert(url)
            },
            helpers: if self.known(url) && !self.removed.contains(url) {
                self.helpers
            } else {
                self.helpers.insert(url)
            },
            removed: self.removed.remove(url),
            ..self
        }
    }

    /// What is to be removed is removed; what is being reconnected, later.
    pub open spec fn settled(self) -> ConnectorSets {
        ConnectorSets {
            connectors: self.connectors.difference(self.removed),
            removed: self.removed.intersect(self.reconnecting),
            ..self
        }
    }

    pub open spec fn removal_asked(self, url: Seq<char>) -> ConnectorSets {
        ConnectorSets {
            helpers: self.helpers.remove(url),
            removed: self.removed.insert(url),
            ..self
        }
    }

    pub open spec fn all_removal_asked(self) -> ConnectorSets {
        ConnectorSets {
            helpers: Set::empty(),
            removed: self.removed.union(self.connectors).union(self.reconnecting),
            ..self
        }
    }

    pub open spec fn claimed(self, url: Seq<char>) -> ConnectorSets {
        if self.connectors.contains(url) && !self.reconnecting.contains(url) {
            ConnectorSets {
                connectors: self.connectors.remove(url),
                reconnecting: self.reconnecting.insert(url),
                ..self
            }
        } else {
            self
        }
    }

    pub open spec fn reconnected(self, url: Seq<char>) -> ConnectorSets {
        ConnectorSets {
            connectors: if self.removed.contains(url) {
                self.connectors
            } else {
                self.connectors.insert(url)
            },
            reconnecting: self.reconnecting.remove(url),
            removed: self.removed.remove(url),
            ..self
        }
    }
}

/// Whether a URL is connected.
#[derive(Clone, Copy, Debug, PartialEq, Eq, Structural)]
pub enum ConnectorStatus {
    Connected,
    Disconnected,
    Connecting,
}

/// A URL that is kept connected.
#[derive(Debug)]
pub struct Connector {
    pub url: String,
    pub status: ConnectorStatus,
}

/// There is no such URL.
#[derive(Clone, Copy, Debug, PartialEq, Eq, Structural)]
pub struct ConnectorNotFound;

/// The texts come in descending order, each only once.
pub open spec fn descending(items: Seq<Connector>) -> bool {
    forall|i: int, j: int|
        0 <= i < j < items.len() ==> text_before((#[trigger] items[j]).url@, (#[trigger] items[i]).url@)
}

/// The first text comes before the second in the order of a dictionary.
pub open spec fn text_before(a: Seq<char>, b: Seq<char>) -> bool
    decreases a.len(),
{
    if b.len() == 0 {
        false
    } else if a.len() == 0 {
        true
    } else if a[0] == b[0] {
        text_before(a.skip(1), b.skip(1))
    } else {
        a[0] < b[0]
    }
}

proof fn lemma_text_order(a: Seq<char>, b: Seq<char>, c: Seq<char>)
    ensures
        !text_before(a, a),
        text_before(a, b) && text_before(b, c) ==> text_before(a, c),
        text_before(a, b) || text_before(b, a) || a == b,
    decreases a.len(),
{
    if a.len() > 0 && b.len() > 0 && c.len() > 0 {
        lemma_text_order(a.skip(1), b.skip(1), c.skip(1));
    } else if a.len() > 0 && b.len() > 0 {
        lemma_text_order(a.skip(1), b.skip(1), c);
    } else if a.len() > 0 {
        lemma_text_order(a.skip(1), b, c);
    }
    if a.len() > 0 && b.len() > 0 && a[0] == b[0] && a.skip(1) == b.skip(1) {
        assert(a =~= seq![a[0]] + a.skip(1));
        assert(b =~= seq![b[0]] + b.skip(1));
    }
    if a.len() == 0 && b.len() == 0 {
        assert(a =~= b);
    }
}

proof fn lemma_text_before_at(a: Seq<char>, b: Seq<char>, k: int)
    requires
        0 <= k <= a.len(),
        k <= b.len(),
        a.take(k) == b.take(k),
    ensures
        k == b.len() ==> !text_before(a, b),
        k < b.len() && k == a.len() ==> text_before(a, b),
        k < b.len() && k < a.len() && a[k] != b[k] ==> text_before(a, b) == (a[k] < b[k]),
    decreases k,
{
    if k > 0 {
        assert(a.take(k)[0] == a[0]);
        assert(b.take(k)[0] == b[0]);
        if k < a.len() {
            assert(a.skip(1)[k - 1] == a[k]);
        }
        if k < b.len() {
            assert(b.skip(1)[k - 1] == b[k]);
        }
        assert(a.skip(1).take(k - 1) =~= a.take(k).skip(1));
        assert(b.skip(1).take(k - 1) =~= b.take(k).skip(1));
        lemma_text_before_at(a.skip(1), b.skip(1), k - 1);
    }
}

fn is_text_before(a: &str, b: &str) -> (r: bool)
    ensures
        r == text_before(a@, b@),
{
    let a_len: usize = a.unicode_len();
    let b_len: usize = b.unicode_len();
    let mut k: usize = 0;
    assert(a@.take(0) =~= b@.take(0));
    while k < a_len && k < b_len
        invariant
            a_len == a@.len(),
            b_len == b@.len(),
            k <= a_len,
            k <= b_len,
            a@.take(k as int) == b@.take(k as int),
        decreases a_len - k,
    {
        let x: char = a.get_char(k);
        let y: char = b.get_char(k);
        if x != y {
            proof {
                lemma_text_before_at(a@, b@, k as int);
            }
            return x < y;
        }
        assert(a@.take(k as int + 1) =~= a@.take(k as int).push(x));
        assert(b@.take(k as int + 1) =~= b@.take(k as int).push(y));
        k += 1;
    }
    proof {
        lemma_text_before_at(a@, b@, k as int);
    }
    k < b_len
}

/// The URLs of some connectors.
pub open spec fn urls_of(items: Seq<Connector>) -> Set<Seq<char>> {
    Set::new(|t: Seq<char>| exists|i: int| 0 <= i < items.len() && (#[trigger] items[i]).url@ == t)
}

fn insert_descending(items: &mut Vec<Connector>, url: &str)
    requires
        descending(old(items)@),
        !urls_of(old(items)@).contains(url@),
        forall|i: int|
            0 <= i < old(items)@.len() ==> (#[trigger] old(items)@[i]).status
                == ConnectorStatus::Connecting,
    ensures
        descending(final(items)@),
        urls_of(final(items)@) == urls_of(old(items)@).insert(url@),
        final(items)@.len() == old(items)@.len() + 1,
        forall|i: int|
            0 <= i < final(items)@.len() ==> (#[trigger] final(items)@[i]).status
                == ConnectorStatus::Connecting,
{
    let ghost before = items@;
    let mut place: usize = 0;
    while place < items.len() && is_text_before(url, items[place].url.as_str())
        invariant
            place <= items@.len(),
            items@ == before,
            forall|i: int| 0 <= i < place ==> text_before(url@, (#[trigger] before[i]).url@),
        decreases items@.len() - place,
    {
        place += 1;
    }
    items.insert(place, Connector { url: url.to_owned(), status: ConnectorStatus::Connecting });
    proof {
        let after = items@;
        let p = place as int;
        assert(after[p].url@ == url@);
        assert forall|i: int, j: int| 0 <= i < j < after.len() implies text_before(
            (#[trigger] after[j]).url@,
            (#[trigger] after[i]).url@,
        ) by {
            let i0 = if i < p { i } else { i - 1 };
            let j0 = if j < p { j } else { j - 1 };
            if i != p {
                assert(after[i] == before[i0]);
            }
            if j != p {
                assert(after[j] == before[j0]);
            }
            if i != p && j != p {
                assert(text_before(before[j0].url@, before[i0].url@));
            } else if i == p {
                // `before[p]` is neither after the new text nor the same, and `before[j0]` is not
                // after it.
                lemma_text_order(url@, before[p].url@, before[p].url@);
                assert(urls_of(before).contains(before[p].url@));
                if j0 > p {
                    assert(text_before(before[j0].url@, before[p].url@));
                    lemma_text_order(before[j0].url@, before[p].url@, url@);
                }
            }
        }
        assert forall|t: Seq<char>| urls_of(after).contains(t) <==> #[trigger] urls_of(
            before,
        ).insert(url@).contains(t) by {
            if urls_of(before).contains(t) {
                let k = choose|k: int| 0 <= k < before.len() && (#[trigger] before[k]).url@ == t;
                let k1 = if k < p { k } else { k + 1 };
                assert(after[k1] == before[k]);
            }
            if urls_of(after).contains(t) {
                let k = choose|k: int| 0 <= k < after.len() && (#[trigger] after[k]).url@ == t;
                if k != p {
                    let k0 = if k < p { k } else { k - 1 };
                    assert(after[k] == before[k0]);
                }
            }
        }
        assert(urls_of(after) =~= urls_of(before).insert(url@));
        assert forall|i: int| 0 <= i < after.len() implies (#[trigger] after[i]).status
            == ConnectorStatus::Connecting by {
            if i < p {
                assert(after[i] == before[i]);
            } else if i > p {
                assert(after[i] == before[i - 1]);
            }
        }
    }
}

/// Keeps the connections to configured URLs alive.
pub struct ManualConnectorManager {
    connectors: TextSet,
    reconnecting: TextSet,
    runtime_bootstrap_helpers: TextSet,
    removed_conn_urls: TextSet,
}

impl View for ManualConnectorManager {
    type V = ConnectorSets;

    closed spec fn view(&self) -> ConnectorSets {
        ConnectorSets {
            connectors: self.connectors@,
            reconnecting: self.reconnecting@,
            helpers: self.runtime_bootstrap_helpers@,
            removed: self.removed_conn_urls@,
        }
    }
}

impl ManualConnectorManager {
    pub closed spec fn wf(&self) -> bool {
        self@.wf()
    }

    /// No URL is being reconnected and waiting for it.
    pub proof fn law_connectors_are_reconnected_once(&self)
        requires
            self.wf(),
        ensures
            self@.wf(),
    {
    }

    pub fn new() -> (r: Self)
        ensures
            r.wf(),
            r@ == (ConnectorSets {
                connectors: Set::empty(),
                reconnecting: Set::empty(),
                helpers: Set::empty(),
                removed: Set::empty(),
            }),
    {
        ManualConnectorManager {
            connectors: TextSet::new(),
            reconnecting: TextSet::new(),
            runtime_bootstrap_helpers: TextSet::new(),
            removed_conn_urls: TextSet::new(),
        }
    }

    pub fn is_connector(&self, url: &str) -> (r: bool)
        ensures
            r == self@.connectors.contains(url@),
    {
        self.connectors.contains(url)
    }

    pub fn is_reconnecting(&self, url: &str) -> (r: bool)
        ensures
            r == self@.reconnecting.contains(url@),
    {
        self.reconnecting.contains(url)
    }

    pub fn is_runtime_bootstrap_helper(&self, url: &str) -> (r: bool)
        ensures
            r == self@.helpers.contains(url@),
    {
        self.runtime_bootstrap_helpers.contains(url)
    }

    pub fn is_to_be_removed(&self, url: &str) -> (r: bool)
        ensures
            r == self@.removed.contains(url@),
    {
        self.removed_conn_urls.contains(url)
    }

    /// Keeps a URL connected from now on.
    pub fn add_connector_by_url(&mut self, url: &str)
        requires
            old(self).wf(),
        ensures
            final(self).wf(),
            final(self)@ == old(self)@.added(url@),
    {
        self.removed_conn_urls.remove(url);
        self.runtime_bootstrap_helpers.remove(url);
        if !self.reconnecting.contains(url) {
            self.connectors.insert(url);
        }
        assert(self@ =~= old(self)@.added(url@));
    }

    /// Keeps a URL connected that only helps to find the first peers.
    pub fn add_runtime_bootstrap_helper_by_url(&mut self, url: &str)
        requires
            old(self).wf(),
        ensures
            final(self).wf(),
            final(self)@ == old(self)@.helper_added(url@),
    {
        let revives_removed = self.removed_conn_urls.remove(url);
        if self.connectors.contains(url) || self.reconnecting.contains(url) {
            if revives_removed {
                self.runtime_bootstrap_helpers.insert(url);
            }
            assert(self@ =~= old(self)@.helper_added(url@));
            return;
        }
        self.runtime_bootstrap_helpers.insert(url);
        self.connectors.insert(url);
        assert(self@ =~= old(self)@.helper_added(url@));
    }

    /// Removes what is to be removed. What is being reconnected is removed later.
    pub fn handle_remove_connector(&mut self)
        requires
            old(self).wf(),
        ensures
            final(self).wf(),
            final(self)@ == old(self)@.settled(),
    {
        let mut later = TextSet::new();
        let mut i: usize = 0;
        let urls = self.removed_conn_urls.texts();
        let ghost listed = urls@;
        while i < urls.len()
            invariant
                listed == urls@,
                i <= listed.len(),
                self.wf(),
                old(self).wf(),
                self.removed_conn_urls == old(self).removed_conn_urls,
                self.reconnecting == old(self).reconnecting,
                self.runtime_bootstrap_helpers == old(self).runtime_bootstrap_helpers,
                self.connectors@ == old(self).connectors@.difference(texts_of(listed.take(i as int))),
                later@ == texts_of(listed.take(i as int)).intersect(old(self).reconnecting@),
            decreases listed.len() - i,
        {
            let ghost then = listed.take(i as int + 1);
            let url = urls[i].clone();
            proof {
                assert(url@ == listed[i as int]@);
                lemma_texts_step(listed, i as int);
            }
            let was_connector = self.connectors.remove(url.as_str());
            if !was_connector && self.reconnecting.contains(url.as_str()) {
                later.insert(url.as_str());
            }
            proof {
                // What waits to be reconnected is not being reconnected.
                assert(old(self)@.connectors.contains(url@) ==> !old(self)@.reconnecting.contains(url@));
                assert(self.connectors@ =~= old(self).connectors@.difference(texts_of(then)));
                assert(later@ =~= texts_of(then).intersect(old(self).reconnecting@));
                assert forall|u: Seq<char>| self@.connectors.contains(u) implies
                    !#[trigger] self@.reconnecting.contains(u) by {
                    assert(old(self)@.connectors.contains(u));
                    assert(!old(self)@.reconnecting.contains(u));
                }
            }
            i += 1;
        }
        proof {
            assert(listed.take(listed.len() as int) =~= listed);
        }
        self.removed_conn_urls = later;
        assert(self@ =~= old(self)@.settled());
    }

    /// Lists the URLs that are not connected. `alive` holds those that are.
    pub fn collect_dead_conns(&mut self, alive: &TextSet) -> (r: TextSet)
        requires
            old(self).wf(),
        ensures
            final(self).wf(),
            final(self)@ == old(self)@.settled(),
            r@ == final(self)@.connectors.difference(alive@),
    {
        self.handle_remove_connector();
        let mut dead = TextSet::new();
        let mut i: usize = 0;
        let urls = self.connectors.texts();
        let ghost listed = urls@;
        while i < urls.len()
            invariant
                listed == urls@,
                i <= listed.len(),
                dead@ == texts_of(listed.take(i as int)).difference(alive@),
            decreases listed.len() - i,
        {
            let ghost then = listed.take(i as int + 1);
            let url = &urls[i];
            proof {
                assert(url@ == listed[i as int]@);
                lemma_texts_step(listed, i as int);
            }
            if !alive.contains(url.as_str()) {
                dead.insert(url.as_str());
            }
            assert(dead@ =~= texts_of(then).difference(alive@));
            i += 1;
        }
        proof {
            assert(listed.take(listed.len() as int) =~= listed);
        }
        dead
    }

    /// Asks to remove a URL.
    pub fn remove_connector(&mut self, url: &str) -> (r: Result<(), ConnectorNotFound>)
        requires
            old(self).wf(),
        ensures
            final(self).wf(),
            r is Ok <==> old(self)@.settled().known(url@),
            final(self)@ == (if r is Ok {
                old(self)@.settled().removal_asked(url@)
            } else {
                old(self)@.settled()
            }),
    {
        self.handle_remove_connector();
        let ghost settled = self@;
        if !self.connectors.contains(url) && !self.reconnecting.contains(url) {
            return Err(ConnectorNotFound);
        }
        self.runtime_bootstrap_helpers.remove(url);
        self.removed_conn_urls.insert(url);
        assert(self@ =~= settled.removal_asked(url@));
        Ok(())
    }

    /// Asks to remove all URLs.
    pub fn clear_connectors(&mut self)
        requires
            old(self).wf(),
        ensures
            final(self).wf(),
            final(self)@ == old(self)@.all_removal_asked(),
    {
        self.runtime_bootstrap_helpers.clear();
        Self::insert_all(&mut self.removed_conn_urls, &self.connectors);
        Self::insert_all(&mut self.removed_conn_urls, &self.reconnecting);
        assert(self@ =~= old(self)@.all_removal_asked());
    }

    fn insert_all(into: &mut TextSet, from: &TextSet)
        ensures
            final(into)@ == old(into)@.union(from@),
    {
        let mut i: usize = 0;
        let urls = from.texts();
        let ghost listed = urls@;
        assert(into@ =~= old(into)@.union(texts_of(listed.take(0))));
        while i < urls.len()
            invariant
                listed == urls@,
                i <= listed.len(),
                into@ == old(into)@.union(texts_of(listed.take(i as int))),
            decreases listed.len() - i,
        {
            let ghost then = listed.take(i as int + 1);
            let url = &urls[i];
            into.insert(url.as_str());
            proof {
                assert(url@ == listed[i as int]@);
                lemma_texts_step(listed, i as int);
                assert(into@ =~= old(into)@.union(texts_of(then)));
            }
            i += 1;
        }
        proof {
            assert(listed.take(listed.len() as int) =~= listed);
        }
    }

    /// Takes a URL on to reconnect it, unless that is being done or it has been removed.
    pub fn claim_dead_connector(&mut self, url: &str) -> (r: bool)
        requires
            old(self).wf(),
        ensures
            final(self).wf(),
            r == old(self)@.connectors.contains(url@),
            final(self)@ == old(self)@.claimed(url@),
    {
        if !self.reconnecting.insert(url) {
            assert(self@ =~= old(self)@.claimed(url@));
            return false;
        }
        if self.connectors.remove(url) {
            assert(self@ =~= old(self)@.claimed(url@));
            return true;
        }
        self.reconnecting.remove(url);
        assert(self@ =~= old(self)@.claimed(url@));
        false
    }

    /// Takes in that reconnecting a URL has ended, in whatever way.
    pub fn finish_reconnect(&mut self, url: &str)
        requires
            old(self).wf(),
            old(self)@.reconnecting.contains(url@),
        ensures
            final(self).wf(),
            final(self)@ == old(self)@.reconnected(url@),
    {
        if !self.removed_conn_urls.remove(url) {
            self.connectors.insert(url);
        }
        self.reconnecting.remove(url);
        assert(self@ =~= old(self)@.reconnected(url@));
    }

    /// Helpers are not reconnected while there is a live connection to a peer.
    pub open spec fn pauses(sets: ConnectorSets, dead: Set<Seq<char>>, has_live_peer_conn: bool) -> bool {
        has_live_peer_conn && exists|url: Seq<char>|
            #[trigger] dead.contains(url) && sets.helpers.contains(url)
    }

    /// Tells whether helpers are not reconnected now.
    pub fn pause_runtime_bootstrap_helpers(&self, dead: &TextSet, has_live_peer_conn: bool) -> (r: bool)
        ensures
            r == Self::pauses(self@, dead@, has_live_peer_conn),
    {
        let mut i: usize = 0;
        let urls = dead.texts();
        let ghost listed = urls@;
        while i < urls.len()
            invariant
                listed == urls@,
                dead@ == texts_of(listed),
                i <= listed.len(),
                forall|k: int| 0 <= k < i ==> !self@.helpers.contains((#[trigger] listed[k])@),
            decreases listed.len() - i,
        {
            if self.runtime_bootstrap_helpers.contains(urls[i].as_str()) {
                assert(dead@.contains(listed[i as int]@));
                return has_live_peer_conn;
            }
            i += 1;
        }
        assert forall|url: Seq<char>| #[trigger] dead@.contains(url) implies !self@.helpers.contains(
            url,
        ) by {
            let k = choose|k: int| 0 <= k < listed.len() && (#[trigger] listed[k])@ == url;
        }
        false
    }

    /// The URL is reconnected when it is found dead.
    pub open spec fn takes_on(sets: ConnectorSets, paused: bool, url: Seq<char>) -> bool {
        sets.connectors.contains(url) && !(paused && sets.helpers.contains(url))
    }

    /// Takes on the dead URLs that are to be reconnected.
    pub fn claim_dead_connectors(&mut self, dead: &TextSet, has_live_peer_conn: bool) -> (r: TextSet)
        requires
            old(self).wf(),
        ensures
            final(self).wf(),
            ({
                let paused = Self::pauses(old(self)@, dead@, has_live_peer_conn);
                let taken = Set::new(
                    |url: Seq<char>| dead@.contains(url) && Self::takes_on(old(self)@, paused, url),
                );
                &&& r@ == taken
                &&& final(self)@ == (ConnectorSets {
                    connectors: old(self)@.connectors.difference(taken),
                    reconnecting: old(self)@.reconnecting.union(taken),
                    ..old(self)@
                })
            }),
    {
        let paused = self.pause_runtime_bootstrap_helpers(dead, has_live_peer_conn);
        let mut taken = TextSet::new();
        let mut i: usize = 0;
        let urls = dead.texts();
        let ghost listed = urls@;
        let ghost all = Set::new(
            |url: Seq<char>| dead@.contains(url) && Self::takes_on(old(self)@, paused, url),
        );
        proof {
            assert(taken@ =~= all.intersect(texts_of(listed.take(0))));
            assert(self.connectors@ =~= old(self)@.connectors.difference(taken@));
            assert(self.reconnecting@ =~= old(self)@.reconnecting.union(taken@));
        }
        while i < urls.len()
            invariant
                listed == urls@,
                dead@ == texts_of(listed),
                i <= listed.len(),
                self.wf(),
                all == Set::new(
                    |url: Seq<char>| dead@.contains(url) && Self::takes_on(old(self)@, paused, url),
                ),
                taken@ == all.intersect(texts_of(listed.take(i as int))),
                self@.connectors == old(self)@.connectors.difference(taken@),
                self@.reconnecting == old(self)@.reconnecting.union(taken@),
                self@.helpers == old(self)@.helpers,
                self@.removed == old(self)@.removed,
                old(self).wf(),
            decreases listed.len() - i,
        {
            let ghost then = listed.take(i as int + 1);
            let url = &urls[i];
            let ghost before = taken@;
            proof {
                assert(url@ == listed[i as int]@);
                assert(dead@.contains(url@));
                lemma_texts_step(listed, i as int);
            }
            let skipped = paused && self.runtime_bootstrap_helpers.contains(url.as_str());
            if !skipped {
                if self.claim_dead_connector(url.as_str()) {
                    taken.insert(url.as_str());
                }
            }
            proof {
                assert(taken@ =~= all.intersect(texts_of(then)));
                assert(self@.connectors =~= old(self)@.connectors.difference(taken@));
                assert(self@.reconnecting =~= old(self)@.reconnecting.union(taken@));
            }
            i += 1;
        }
        proof {
            assert(listed.take(listed.len() as int) =~= listed);
            assert(taken@ =~= all);
            assert(self@ =~= (ConnectorSets {
                connectors: old(self)@.connectors.difference(all),
                reconnecting: old(self)@.reconnecting.union(all),
                ..old(self)@
            }));
        }
        taken
    }

    /// Lists the URLs: first those that are being reconnected, in descending order, and then the
    /// others. `alive` holds those that are connected.
    pub fn list_connectors(&mut self, alive: &TextSet) -> (r: Vec<Connector>)
        requires
            old(self).wf(),
        ensures
            final(self).wf(),
            final(self)@ == old(self)@.settled(),
            exists|n: int|
                #![trigger r@.take(n)]
                {
                    &&& 0 <= n <= r@.len()
                    &&& descending(r@.take(n))
                    &&& urls_of(r@.take(n)) == final(self)@.reconnecting
                    &&& forall|i: int|
                        0 <= i < n ==> (#[trigger] r@[i]).status == ConnectorStatus::Connecting
                    &&& urls_of(r@.skip(n)) == final(self)@.connectors
                    &&& forall|i: int, j: int|
                        n <= i < j < r@.len() ==> (#[trigger] r@[i]).url@ != (#[trigger] r@[j]).url@
                    &&& forall|i: int|
                        n <= i < r@.len() ==> (#[trigger] r@[i]).status == (if alive@.contains(
                            r@[i].url@,
                        ) {
                            ConnectorStatus::Connected
                        } else {
                            ConnectorStatus::Disconnected
                        })
                },
    {
        self.handle_remove_connector();
        let mut out: Vec<Connector> = Vec::new();
        let mut i: usize = 0;
        let urls = self.reconnecting.texts();
        let ghost listed = urls@;
        proof {
            assert(urls_of(out@) =~= texts_of(listed.take(0)));
        }
        while i < urls.len()
            invariant
                listed == urls@,
                distinct_texts(listed),
                i <= listed.len(),
                descending(out@),
                urls_of(out@) == texts_of(listed.take(i as int)),
                forall|k: int|
                    0 <= k < out@.len() ==> (#[trigger] out@[k]).status
                        == ConnectorStatus::Connecting,
            decreases listed.len() - i,
        {
            let ghost now = listed.take(i as int);
            let ghost then = listed.take(i as int + 1);
            let url = &urls[i];
            proof {
                if texts_of(now).contains(url@) {
                    let k = choose|k: int| 0 <= k < now.len() && (#[trigger] now[k])@ == url@;
                    assert(listed[k]@ != listed[i as int]@);
                }
                lemma_texts_step(listed, i as int);
            }
            insert_descending(&mut out, url.as_str());
            i += 1;
        }
        assert(listed.take(listed.len() as int) =~= listed);
        let ghost first = out@;
        let ghost n = out@.len() as int;
        let urls = self.connectors.texts();
        let ghost others = urls@;
        let mut i: usize = 0;
        assert(out@.take(n) =~= first);
        while i < urls.len()
            invariant
                others == urls@,
                i <= others.len(),
                n == first.len(),
                out@.len() == n + i,
                out@.take(n) == first,
                forall|k: int|
                    0 <= k < i ==> (#[trigger] out@[n + k]).url@ == others[k]@ && out@[n + k].status == (
                    if alive@.contains(others[k]@) {
                        ConnectorStatus::Connected
                    } else {
                        ConnectorStatus::Disconnected
                    }),
            decreases others.len() - i,
        {
            let url = &urls[i];
            let status = if alive.contains(url.as_str()) {
                ConnectorStatus::Connected
            } else {
                ConnectorStatus::Disconnected
            };
            let ghost before = out@;
            out.push(Connector { url: url.clone(), status });
            proof {
                assert(out@.take(n) =~= before.take(n));
                assert forall|k: int| 0 <= k < i + 1 implies (#[trigger] out@[n + k]).url@
                    == others[k]@ && out@[n + k].status == (if alive@.contains(others[k]@) {
                    ConnectorStatus::Connected
                } else {
                    ConnectorStatus::Disconnected
                }) by {
                    if k < i {
                        assert(out@[n + k] == before[n + k]);
                    }
                }
            }
            i += 1;
        }
        proof {
            let rest = out@.skip(n);
            assert forall|t: Seq<char>| urls_of(rest).contains(t) <==> #[trigger] texts_of(
                others,
            ).contains(t) by {
                if texts_of(others).contains(t) {
                    let k = choose|k: int| 0 <= k < others.len() && (#[trigger] others[k])@ == t;
                    assert(rest[k] == out@[n + k]);
                }
                if urls_of(rest).contains(t) {
                    let k = choose|k: int| 0 <= k < rest.len() && (#[trigger] rest[k]).url@ == t;
                    assert(rest[k] == out@[n + k]);
                    assert(others[k]@ == t);
                }
            }
            assert(urls_of(rest) =~= self@.connectors);
            assert forall|a: int, b: int| n <= a < b < out@.len() implies (#[trigger] out@[a]).url@ != (
            #[trigger] out@[b]).url@ by {
                assert(out@[n + (a - n)].url@ == others[a - n]@);
                assert(out@[n + (b - n)].url@ == others[b - n]@);
                assert(others[a - n]@ != others[b - n]@);
            }
            assert forall|a: int| n <= a < out@.len() implies (#[trigger] out@[a]).status == (
            if alive@.contains(out@[a].url@) {
                ConnectorStatus::Connected
            } else {
                ConnectorStatus::Disconnected
            }) by {
                assert(out@[n + (a - n)].url@ == others[a - n]@);
            }
            assert forall|a: int| 0 <= a < n implies (#[trigger] out@[a]).status
                == ConnectorStatus::Connecting by {
                assert(out@.take(n)[a] == first[a]);
            }
            assert(out@.take(n) == first);
        }
        out
    }
}

/// A URL whose removal was asked for is gone as soon as it is not being reconnected.
pub proof fn law_removed_connector_is_gone(sets: ConnectorSets, url: Seq<char>)
    requires
        sets.wf(),
        sets.known(url),
    ensures
        ({
            let settled = sets.removal_asked(url).settled();
            &&& !settled.connectors.contains(url)
            &&& sets.connectors.contains(url) ==> !settled.known(url)
            &&& sets.reconnecting.contains(url) ==> !settled.reconnected(url).known(url)
        }),
{
}

/// A URL that is added again after its removal was asked for stays.
pub proof fn law_added_again_stays(sets: ConnectorSets, url: Seq<char>)
    requires
        sets.wf(),
    ensures
        sets.removal_asked(url).added(url).settled().known(url),
        sets.added(url).settled().known(url),
        !sets.added(url).helpers.contains(url),
{
}

/// All URLs whose removal was asked for are gone but for those that are being reconnected, and these
/// are gone when that ends.
pub proof fn law_cleared_connectors_are_gone(sets: ConnectorSets, url: Seq<char>)
    requires
        sets.wf(),
    ensures
        sets.all_removal_asked().settled().connectors == Set::<Seq<char>>::empty(),
        sets.reconnecting.contains(url) ==> !sets.all_removal_asked().settled().reconnected(
            url,
        ).known(url),
{
    assert(sets.all_removal_asked().settled().connectors =~= Set::<Seq<char>>::empty());
}

/// Reconnecting a URL and ending it leaves the URLs as they were, unless its removal was asked for.
pub proof fn law_reconnecting_keeps_the_connector(sets: ConnectorSets, url: Seq<char>)
    requires
        sets.wf(),
        sets.connectors.contains(url),
        !sets.removed.contains(url),
    ensures
        sets.claimed(url).reconnected(url) == sets,
{
    assert(sets.claimed(url).reconnected(url) =~= sets);
}

/// URLs that lead somewhere else and WebSocket have twenty seconds, UDP that hides what it is has six, and
/// everything else has two.
pub proof fn law_time_for_a_url(url: UrlParts, udp_stealth_enabled: bool)
    ensures
        ({
            let secs = timeout_secs(url, udp_stealth_enabled);
            let long = url.scheme == "http"@ || url.scheme == "https"@ || url.scheme == "txt"@
                || url.scheme == "srv"@ || url.scheme == "ws"@ || url.scheme == "wss"@;
            &&& secs == 20 <==> long
            &&& secs == 6 <==> url.scheme == "udp"@ && udp_stealth_enabled
            &&& secs == 2 <==> !long && !(url.scheme == "udp"@ && udp_stealth_enabled)
        }),
{
    crate::endpoint_url::law_words_mean_their_schemes(url.scheme);
    crate::endpoint_url::law_words_mean_their_schemes("udp"@);
    crate::endpoint_url::law_words_mean_their_schemes("ws"@);
    crate::endpoint_url::law_words_mean_their_schemes("wss"@);
}

/// Only rings and DNS records are looked up by other means than the addresses of a host.
pub proof fn law_schemes_without_addresses(scheme: Seq<char>)
    ensures
        needs_no_address(scheme) <==> scheme == "ring"@ || scheme == "txt"@ || scheme == "srv"@,
{
    crate::endpoint_url::law_words_mean_their_schemes(scheme);
}

/// A version is tried just where there is an address of it, and IPv4 is tried before IPv6.
pub proof fn law_versions_that_are_tried(addrs: Seq<SocketAddress>, i: int)
    ensures
        ({
            let versions = versions_among(addrs);
            &&& 0 <= i < addrs.len() && addrs[i] is V4 ==> versions.len() > 0 && versions[0]
                == IpVersion::V4
            &&& 0 <= i < addrs.len() && addrs[i] is V6 ==> versions.len() > 0 && versions.last()
                == IpVersion::V6
            &&& (forall|k: int| 0 <= k < addrs.len() ==> (#[trigger] addrs[k]) is V4)
                ==> !versions.contains(IpVersion::V6)
            &&& (forall|k: int| 0 <= k < addrs.len() ==> (#[trigger] addrs[k]) is V6)
                ==> !versions.contains(IpVersion::V4)
            &&& versions.len() <= 2 && !versions.contains(IpVersion::Both)
            &&& addrs.len() == 0 ==> versions.len() == 0
        }),
{
    let versions = versions_among(addrs);
    assert forall|k: int| 0 <= k < versions.len() implies (#[trigger] versions[k] == IpVersion::V4
        && has_ipv4(addrs)) || (versions[k] == IpVersion::V6 && has_ipv6(addrs)) by {}
}

/// While versions are left, the next one is tried; then the last error stands, or there was nothing to try.
pub proof fn law_versions_are_tried_in_turn(run: ReconnectRun)
    requires
        run.wf(),
    ensures
        run.pending() is Try <==> run.tried < run.versions@.len(),
        run.pending() matches ReconnectStep::Try(version) ==> version == run.versions@[run.tried as int],
        run.pending() is NoAddress <==> run.versions@.len() == 0,
        run.pending() is LastErrorStands <==> run.tried == run.versions@.len() && run.tried > 0,
{
}

/// The stages are told apart by their names.
pub proof fn law_stages_have_names(a: ReconnectStage, b: ReconnectStage)
    ensures
        a.text() == b.text() ==> a == b,
        a is Resolve <==> a.text() == "resolve"@,
        a is Connect <==> a.text() == "connect"@,
        a is Handshake <==> a.text() == "handshake"@,
{
    reveal_strlit("resolve");
    reveal_strlit("connect");
    reveal_strlit("handshake");
    assert("resolve"@[0] == 'r' && "connect"@[0] == 'c' && "handshake"@[0] == 'h');
}

/// Adding a URL keeps every other URL as it was, makes this one a connector unless it is being reconnected,
/// and takes back that it is to be removed or is only a helper.
pub proof fn law_adding_a_connector(sets: ConnectorSets, url: Seq<char>, other: Seq<char>)
    requires
        sets.wf(),
    ensures
        sets.added(url).wf(),
        sets.added(url).known(url),
        !sets.added(url).removed.contains(url) && !sets.added(url).helpers.contains(url),
        sets.added(url).reconnecting == sets.reconnecting,
        other != url ==> sets.added(url).connectors.contains(other) == sets.connectors.contains(other)
            && sets.added(url).helpers.contains(other) == sets.helpers.contains(other) && sets.added(
            url,
        ).removed.contains(other) == sets.removed.contains(other),
{
}

/// A helper is a connector too. A URL that is kept connected anyway does not become a mere helper, unless
/// it was about to be removed.
pub proof fn law_adding_a_helper(sets: ConnectorSets, url: Seq<char>, other: Seq<char>)
    requires
        sets.wf(),
    ensures
        ({
            let after = sets.helper_added(url);
            &&& after.wf() && after.known(url) && !after.removed.contains(url)
            &&& !sets.known(url) ==> after.helpers.contains(url)
            &&& sets.removed.contains(url) ==> after.helpers.contains(url)
            &&& sets.known(url) && !sets.removed.contains(url) ==> after.helpers.contains(url)
                == sets.helpers.contains(url)
            &&& other != url ==> after.connectors.contains(other) == sets.connectors.contains(other)
                && after.helpers.contains(other) == sets.helpers.contains(other)
                && after.removed.contains(other) == sets.removed.contains(other)
            &&& after.reconnecting == sets.reconnecting
        }),
{
}

/// Asking for the removal of a URL concerns that URL alone, and it ends being a helper at once.
pub proof fn law_asking_for_removal(sets: ConnectorSets, url: Seq<char>, other: Seq<char>)
    ensures
        ({
            let after = sets.removal_asked(url);
            &&& after.removed.contains(url) && !after.helpers.contains(url)
            &&& after.connectors == sets.connectors && after.reconnecting == sets.reconnecting
            &&& other != url ==> after.removed.contains(other) == sets.removed.contains(other)
                && after.helpers.contains(other) == sets.helpers.contains(other)
        }),
        ({
            let after = sets.all_removal_asked();
            &&& sets.known(other) ==> after.removed.contains(other)
            &&& after.removed.contains(other) ==> sets.known(other) || sets.removed.contains(other)
            &&& !after.helpers.contains(other)
            &&& after.connectors == sets.connectors && after.reconnecting == sets.reconnecting
        }),
{
}

/// What is to be removed is removed, and nothing else; the removal of what is being reconnected is kept for
/// later.
pub proof fn law_settling_removes_what_was_asked_for(sets: ConnectorSets, url: Seq<char>)
    ensures
        sets.settled().connectors.contains(url) <==> sets.connectors.contains(url)
            && !sets.removed.contains(url),
        sets.settled().removed.contains(url) <==> sets.removed.contains(url)
            && sets.reconnecting.contains(url),
        sets.settled().reconnecting == sets.reconnecting,
        sets.settled().helpers == sets.helpers,
{
}

/// A connector is claimed once: it moves from those that wait to those that are being reconnected, and a
/// second claim changes nothing. When reconnecting ends it waits again, unless its removal was asked for.
pub proof fn law_claiming_a_connector(sets: ConnectorSets, url: Seq<char>, other: Seq<char>)
    requires
        sets.wf(),
    ensures
        sets.connectors.contains(url) ==> sets.claimed(url).reconnecting.contains(url) && !sets.claimed(
            url,
        ).connectors.contains(url),
        !sets.connectors.contains(url) ==> sets.claimed(url) == sets,
        sets.claimed(url).claimed(url) == sets.claimed(url),
        sets.claimed(url).wf(),
        other != url ==> sets.claimed(url).connectors.contains(other) == sets.connectors.contains(other)
            && sets.claimed(url).reconnecting.contains(other) == sets.reconnecting.contains(other),
        !sets.reconnected(url).reconnecting.contains(url),
        sets.removed.contains(url) && !sets.connectors.contains(url) ==> !sets.reconnected(url).known(url),
        !sets.removed.contains(url) ==> sets.reconnected(url).connectors.contains(url),
        !sets.reconnected(url).removed.contains(url),
{
}

/// Texts are in the order of a dictionary: of two different ones exactly one comes before the other.
pub proof fn law_order_of_texts(a: Seq<char>, b: Seq<char>, c: Seq<char>)
    ensures
        !text_before(a, a),
        a != b ==> text_before(a, b) || text_before(b, a),
        !(text_before(a, b) && text_before(b, a)),
        text_before(a, b) && text_before(b, c) ==> text_before(a, c),
        a.len() > 0 && b.len() > 0 && a[0] < b[0] ==> text_before(a, b),
        a.len() == 0 && b.len() > 0 ==> text_before(a, b),
{
    lemma_text_order(a, b, c);
    lemma_text_order(a, b, a);
    lemma_text_order(a, a, a);
}

/// Every connector is reconnected when it is found dead, except that helpers pause while there is a live
/// connection to a peer and one of the dead URLs is a helper.
pub proof fn law_what_is_reconnected(
    sets: ConnectorSets,
    dead: Set<Seq<char>>,
    has_live_peer_conn: bool,
    url: Seq<char>,
)
    ensures
        ({
            let paused = ManualConnectorManager::pauses(sets, dead, has_live_peer_conn);
            &&& !has_live_peer_conn ==> !paused
            &&& has_live_peer_conn && dead.contains(url) && sets.helpers.contains(url) ==> paused
            &&& !sets.connectors.contains(url) ==> !ManualConnectorManager::takes_on(sets, paused, url)
            &&& sets.connectors.contains(url) && !sets.helpers.contains(url)
                ==> ManualConnectorManager::takes_on(sets, paused, url)
            &&& sets.connectors.contains(url) && !has_live_peer_conn ==> ManualConnectorManager::takes_on(
                sets,
                paused,
                url,
            )
            &&& has_live_peer_conn && dead.contains(url) && sets.helpers.contains(url)
                ==> !ManualConnectorManager::takes_on(sets, paused, url)
        }),
{
}

/// What is left of a time, together with what has elapsed, is the whole of it; nothing is left once it has
/// elapsed.
pub proof fn law_what_is_left_of_a_time(elapsed: u64, total_timeout: u64, r: Option<u64>)
    requires
        call_ensures(remaining_budget, (elapsed, total_timeout), r),
    ensures
        r is Some ==> r->0 > 0 && r->0 + elapsed == total_timeout,
        r is None ==> elapsed >= total_timeout,
{
}

/// A stage gets all the time that is left, and is not begun where none is left.
pub proof fn law_stages_get_the_time_that_is_left(
    stage: ReconnectStage,
    elapsed: u64,
    total_timeout: u64,
    r: Result<u64, StageTimeout>,
)
    requires
        call_ensures(begin_stage, (stage, elapsed, total_timeout), r),
    ensures
        r is Ok ==> r->Ok_0 > 0 && r->Ok_0 + elapsed == total_timeout,
        r is Err ==> elapsed >= total_timeout && r->Err_0.stage == stage && r->Err_0.after == elapsed,
{
}

/// A stage that ended in time ends as it did; any other has used up its time.
pub proof fn law_stages_end_in_time<T, E>(
    stage: ReconnectStage,
    remaining: u64,
    result: Option<Result<T, E>>,
    r: Result<Result<T, E>, StageTimeout>,
)
    requires
        call_ensures(end_stage::<T, E>, (stage, remaining, result), r),
    ensures
        r is Ok <==> result is Some,
        r is Ok ==> r->Ok_0 == result->0,
        r is Err ==> r->Err_0.stage == stage && r->Err_0.after == remaining,
{
}

/// Exactly the dead connectors that are taken on move to those that are being reconnected, and no
/// connector is lost by it.
pub proof fn law_claimed_connectors_are_reconnecting(
    manager: &mut ManualConnectorManager,
    dead: &TextSet,
    has_live_peer_conn: bool,
    r: TextSet,
)
    requires
        old(manager).wf(),
        call_ensures(ManualConnectorManager::claim_dead_connectors, (manager, dead, has_live_peer_conn), r),
    ensures
        forall|url: Seq<char>| #[trigger] r@.contains(url) ==> dead@.contains(url),
        forall|url: Seq<char>| #[trigger]
            final(manager)@.connectors.contains(url) <==> old(manager)@.connectors.contains(url)
                && !r@.contains(url),
        forall|url: Seq<char>| #[trigger]
            final(manager)@.reconnecting.contains(url) <==> old(manager)@.reconnecting.contains(url)
                || r@.contains(url),
{
}

} // verus!
