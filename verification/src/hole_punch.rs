//! What punching holes over UDP and over TCP have in common.
use vstd::prelude::*;

use crate::addr::PeerId;
use crate::blacklist::PeerBlacklist;
use crate::config::PeerFeatureFlag;
use crate::retry_backoff::{next_position, previous_position};

verus! {

/// How long a peer that does not know the service is left alone, in seconds.
pub const BLACKLIST_TIMEOUT_SEC: u64 = 3600;

/// How long a peer that turned out to be this node is left alone, in seconds.
pub const LOOP_BLACKLIST_TIMEOUT_SEC: u64 = 300;

/// How the network address translation before a node behaves.
#[derive(Clone, Copy, Debug, PartialEq, Eq, Structural)]
pub enum NatType {
    Unknown,
    OpenInternet,
    NoPat,
    FullCone,
    Restricted,
    PortRestricted,
    Symmetric,
    SymUdpFirewall,
    SymmetricEasyInc,
    SymmetricEasyDec,
}

impl NatType {
    /// Nothing stands between the node and those that connect to it.
    pub open spec fn open(self) -> bool {
        self is OpenInternet || self is NoPat
    }

    pub fn is_open(self) -> (r: bool)
        ensures
            r == self.open(),
    {
        match self {
            NatType::OpenInternet | NatType::NoPat => true,
            _ => false,
        }
    }
}

/// What is known of a peer to which holes may be punched.
#[derive(Debug)]
pub struct RouteFacts {
    pub peer_id: PeerId,
    pub feature_flag: Option<PeerFeatureFlag>,
    pub has_recent_traffic: bool,
    /// The peer is connected already.
    pub has_peer: bool,
    /// The peer is connected by the transport for which holes would be punched.
    pub has_live_transport: bool,
    /// That transport would be better than those by which the peer is connected.
    pub candidate_improves: bool,
    /// Nothing for a type of which this node knows nothing.
    pub nat_type: Option<NatType>,
    /// The two types of address translation let this node punch a hole.
    pub can_punch_hole: bool,
}

/// Waiting times that grow from one try to the next.
#[derive(Debug)]
pub struct BackOff {
    backoffs_ms: Vec<u64>,
    current_idx: usize,
}

impl BackOff {
    pub closed spec fn schedule(&self) -> Seq<u64> {
        self.backoffs_ms@
    }

    pub closed spec fn position(&self) -> int {
        self.current_idx as int
    }

    /// The position lies in the schedule, if there is one.
    pub open spec fn wf(&self) -> bool {
        0 <= self.position() < self.schedule().len() || (self.schedule().len() == 0 && self.position()
            == 0)
    }

    pub fn new(backoffs_ms: Vec<u64>) -> (r: Self)
        ensures
            r.wf(),
            r.schedule() == backoffs_ms@,
            r.position() == 0,
    {
        BackOff { backoffs_ms, current_idx: 0 }
    }

    /// The next waiting time. The last one repeats.
    pub fn next_backoff(&mut self) -> (r: u64)
        requires
            old(self).wf(),
            old(self).schedule().len() > 0,
        ensures
            final(self).wf(),
            final(self).schedule() == old(self).schedule(),
            r == old(self).schedule()[old(self).position()],
            final(self).position() == next_position(
                old(self).position(),
                old(self).schedule().len() as int,
            ),
    {
        let backoff = self.backoffs_ms[self.current_idx];
        let last = self.backoffs_ms.len() - 1;
        if self.current_idx < last {
            self.current_idx = self.current_idx + 1;
        }
        backoff
    }

    /// Takes the last step back.
    pub fn rollback(&mut self)
        requires
            old(self).wf(),
        ensures
            final(self).wf(),
            final(self).schedule() == old(self).schedule(),
            final(self).position() == previous_position(old(self).position()),
    {
        self.current_idx = self.current_idx.saturating_sub(1);
    }
}

/// Of a list nothing but peers that were asked for has gone.
pub open spec fn only_asked_leave(
    before: Map<u32, u64>,
    after: Map<u32, u64>,
    asked: Seq<RouteFacts>,
) -> bool {
    after.submap_of(before) && forall|peer_id: u32|
        before.contains_key(peer_id) && !#[trigger] after.contains_key(peer_id) ==> exists|i: int|
            0 <= i < asked.len() && (#[trigger] asked[i]).peer_id == peer_id
}

/// Only peers that are listed are left alone.
pub open spec fn only_listed(routes: Seq<RouteFacts>, left_alone: Seq<bool>, listed: Set<u32>) -> bool {
    left_alone.len() == routes.len() && forall|i: int|
        0 <= i < routes.len() && #[trigger] left_alone[i] ==> listed.contains(routes[i].peer_id)
}

/// Every peer that is listed is left alone.
pub open spec fn every_listed(routes: Seq<RouteFacts>, left_alone: Seq<bool>, listed: Set<u32>) -> bool {
    left_alone.len() == routes.len() && forall|i: int|
        0 <= i < routes.len() && !(#[trigger] left_alone[i]) ==> !listed.contains(routes[i].peer_id)
}

/// Asks two lists for each peer: one that is on either of them is left alone. Of the entries that
/// the lists hold before, some may turn out to be over; what they hold afterwards is obeyed.
pub fn ask_lists(
    blacklist: &mut PeerBlacklist,
    loop_blacklist: &mut PeerBlacklist,
    routes: &Vec<RouteFacts>,
) -> (r: Vec<bool>)
    ensures
        only_listed(routes@, r@, old(blacklist)@.dom().union(old(loop_blacklist)@.dom())),
        every_listed(routes@, r@, final(blacklist)@.dom().union(final(loop_blacklist)@.dom())),
        only_asked_leave(old(blacklist)@, final(blacklist)@, routes@),
        only_asked_leave(old(loop_blacklist)@, final(loop_blacklist)@, routes@),
{
    let mut left_alone: Vec<bool> = Vec::new();
    let mut i: usize = 0;
    while i < routes.len()
        invariant
            i <= routes@.len(),
            left_alone@.len() == i,
            only_asked_leave(old(blacklist)@, blacklist@, routes@),
            only_asked_leave(old(loop_blacklist)@, loop_blacklist@, routes@),
            forall|j: int|
                0 <= j < i && #[trigger] left_alone@[j] ==> old(blacklist)@.contains_key(
                    routes@[j].peer_id,
                ) || old(loop_blacklist)@.contains_key(routes@[j].peer_id),
            forall|j: int|
                0 <= j < i && !(#[trigger] left_alone@[j]) ==> !blacklist@.contains_key(
                    routes@[j].peer_id,
                ) && !loop_blacklist@.contains_key(routes@[j].peer_id),
        decreases routes@.len() - i,
    {
        let peer_id = routes[i].peer_id;
        let listed = blacklist.contains(peer_id) || loop_blacklist.contains(peer_id);
        left_alone.push(listed);
        i += 1;
    }
    left_alone
}

/// Why a request to a peer failed.
#[derive(Clone, Copy, Debug, PartialEq, Eq, Structural)]
pub enum RpcError {
    /// The peer does not know the service.
    InvalidServiceKey,
    Other,
}

/// Takes in what came of a request to a peer. A peer that does not know the service is left alone.
pub fn handle_rpc_result<T>(
    ret: Result<T, RpcError>,
    dst_peer_id: PeerId,
    blacklist: &mut PeerBlacklist,
) -> (r: Result<T, RpcError>)
    ensures
        r == ret,
        final(blacklist)@ == (if ret is Err && ret->Err_0 == RpcError::InvalidServiceKey {
            old(blacklist)@.insert(dst_peer_id, BLACKLIST_TIMEOUT_SEC)
        } else {
            old(blacklist)@
        }),
{
    match ret {
        Ok(value) => Ok(value),
        Err(error) => {
            match error {
                RpcError::InvalidServiceKey => {
                    blacklist.insert(dst_peer_id, BLACKLIST_TIMEOUT_SEC);
                },
                RpcError::Other => {},
            }
            Err(error)
        },
    }
}

/// A node is open just where nothing translates its address.
pub proof fn law_open_nodes(nat_type: NatType)
    ensures
        nat_type is OpenInternet ==> nat_type.open(),
        nat_type is NoPat ==> nat_type.open(),
        nat_type is Unknown || nat_type is FullCone || nat_type is Restricted || nat_type is PortRestricted
            || nat_type is Symmetric || nat_type is SymUdpFirewall || nat_type is SymmetricEasyInc
            || nat_type is SymmetricEasyDec ==> !nat_type.open(),
{
}

/// A reply is handed on as it came. A peer that does not know the request is left alone for an hour, and
/// nothing else changes the list.
pub proof fn law_replies_are_handed_on<T>(
    ret: Result<T, RpcError>,
    dst_peer_id: PeerId,
    blacklist: &mut PeerBlacklist,
    r: Result<T, RpcError>,
)
    requires
        call_ensures(handle_rpc_result::<T>, (ret, dst_peer_id, blacklist), r),
    ensures
        r == ret,
        forall|peer_id: PeerId|
            #![auto]
            final(blacklist)@.contains_key(peer_id) <==> old(blacklist)@.contains_key(peer_id) || (ret is Err
                && ret->Err_0 is InvalidServiceKey && peer_id == dst_peer_id),
        ret is Err && ret->Err_0 is InvalidServiceKey ==> final(blacklist)@[dst_peer_id] == 3600,
{
}

} // verus!
