//! How a proxy target confirms a prepared stream, and what comes of it when it does not.
use vstd::prelude::*;

use crate::addr::{IpAddress, SocketAddress};
use crate::global_ctx::PROXY_PREPARE_ACK_VERSION;

verus! {

/// The longest payload of a confirmation.
pub const PROXY_PREPARE_ACK_MAX_FRAME: usize = 64;

/// The version of the confirmations that a peer is asked for: the newest that both sides know,
/// zero if the peer knows none.
pub open spec fn prepare_version(remote_version: u32) -> u32 {
    if remote_version >= PROXY_PREPARE_ACK_VERSION {
        PROXY_PREPARE_ACK_VERSION
    } else {
        0
    }
}

pub fn requested_proxy_prepare_version(remote_version: u32) -> (r: u32)
    ensures
        r == prepare_version(remote_version),
{
    if remote_version >= PROXY_PREPARE_ACK_VERSION {
        PROXY_PREPARE_ACK_VERSION
    } else {
        0
    }
}

/// Where a proxied connection that ends at this node goes: without a virtual interface to the
/// loopback address of the family, else where it was meant to go.
pub open spec fn local_proxy_destination(
    destination: SocketAddress,
    send_to_self: bool,
    no_tun: bool,
) -> SocketAddress {
    if !send_to_self || !no_tun {
        destination
    } else {
        match destination {
            SocketAddress::V4 { port, .. } => SocketAddress::V4 { ipv4: 0x7f00_0001, port },
            SocketAddress::V6 { port, .. } => SocketAddress::V6 {
                ipv6: 1,
                port,
                flowinfo: 0,
                scope_id: 0,
            },
        }
    }
}

pub fn normalize_local_proxy_destination(
    destination: SocketAddress,
    send_to_self: bool,
    no_tun: bool,
) -> (r: SocketAddress)
    ensures
        r == local_proxy_destination(destination, send_to_self, no_tun),
{
    if !send_to_self || !no_tun {
        return destination;
    }
    let loopback = match destination.ip() {
        IpAddress::V4(_) => IpAddress::V4(0x7f00_0001),
        IpAddress::V6(_) => IpAddress::V6(1),
    };
    SocketAddress::new(loopback, destination.port())
}

/// Whose fault it is that a stream could not be prepared.
#[derive(Clone, Copy, Debug, PartialEq, Eq, Structural)]
pub enum ProxyPrepareFailureClass {
    Transport,
    Destination,
    Policy,
    RouteStale,
    BusinessTimeout,
    AmbiguousTimeout,
}

/// Why a stream could not be prepared.
#[derive(Debug)]
pub struct ProxyPrepareError {
    pub class: ProxyPrepareFailureClass,
    pub source: String,
}

impl ProxyPrepareError {
    pub fn new(class: ProxyPrepareFailureClass, source: String) -> (r: Self)
        ensures
            r == (ProxyPrepareError { class, source }),
    {
        ProxyPrepareError { class, source }
    }

    pub fn transport(source: String) -> (r: Self)
        ensures
            r == (ProxyPrepareError { class: ProxyPrepareFailureClass::Transport, source }),
    {
        Self::new(ProxyPrepareFailureClass::Transport, source)
    }

    pub fn destination(source: String) -> (r: Self)
        ensures
            r == (ProxyPrepareError { class: ProxyPrepareFailureClass::Destination, source }),
    {
        Self::new(ProxyPrepareFailureClass::Destination, source)
    }

    pub fn policy(source: String) -> (r: Self)
        ensures
            r == (ProxyPrepareError { class: ProxyPrepareFailureClass::Policy, source }),
    {
        Self::new(ProxyPrepareFailureClass::Policy, source)
    }

    pub fn business_timeout(source: String) -> (r: Self)
        ensures
            r == (ProxyPrepareError { class: ProxyPrepareFailureClass::BusinessTimeout, source }),
    {
        Self::new(ProxyPrepareFailureClass::BusinessTimeout, source)
    }

    pub fn ambiguous_timeout(source: String) -> (r: Self)
        ensures
            r == (ProxyPrepareError { class: ProxyPrepareFailureClass::AmbiguousTimeout, source }),
    {
        Self::new(ProxyPrepareFailureClass::AmbiguousTimeout, source)
    }
}

/// What a proxy target says of a stream.
#[derive(Clone, Copy, Debug, PartialEq, Eq, Structural)]
pub enum ProxyPrepareAckStatus {
    Unspecified,
    Accepted,
    Ready,
    DestinationFailed,
    PolicyDenied,
    BusinessTimeout,
}

/// What comes of waiting for a confirmation.
#[derive(Clone, Copy, Debug, PartialEq, Eq, Structural)]
pub enum AckEvent {
    Status(ProxyPrepareAckStatus),
    /// The stream ended or broke, or what came is no confirmation.
    Broken,
    TimedOut,
}

/// What follows the first confirmation.
#[derive(Clone, Copy, Debug, PartialEq, Eq, Structural)]
pub enum AckStep {
    /// The stream can be used.
    Ready,
    /// The target has taken the request; wait for the final confirmation.
    AwaitFinal,
    Failed(ProxyPrepareFailureClass),
}

/// The failure that a target reports.
pub open spec fn reported_failure(status: ProxyPrepareAckStatus) -> Option<
    ProxyPrepareFailureClass,
> {
    match status {
        ProxyPrepareAckStatus::DestinationFailed => Some(ProxyPrepareFailureClass::Destination),
        ProxyPrepareAckStatus::PolicyDenied => Some(ProxyPrepareFailureClass::Policy),
        ProxyPrepareAckStatus::BusinessTimeout => Some(ProxyPrepareFailureClass::BusinessTimeout),
        _ => None,
    }
}

/// What follows the first confirmation, with or without time left to wait for another.
pub open spec fn first_ack_step(event: AckEvent, time_left: bool) -> AckStep {
    match event {
        AckEvent::Status(ProxyPrepareAckStatus::Accepted) => if time_left {
            AckStep::AwaitFinal
        } else {
            AckStep::Failed(ProxyPrepareFailureClass::AmbiguousTimeout)
        },
        AckEvent::Status(ProxyPrepareAckStatus::Ready) => AckStep::Ready,
        AckEvent::Status(status) => match reported_failure(status) {
            Some(class) => AckStep::Failed(class),
            None => AckStep::Failed(ProxyPrepareFailureClass::Transport),
        },
        AckEvent::Broken => AckStep::Failed(ProxyPrepareFailureClass::Transport),
        AckEvent::TimedOut => AckStep::Failed(ProxyPrepareFailureClass::Transport),
    }
}

/// What the confirmation after an acceptance means.
pub open spec fn final_ack_result(event: AckEvent) -> Result<(), ProxyPrepareFailureClass> {
    match event {
        AckEvent::Status(ProxyPrepareAckStatus::Ready) => Ok(()),
        AckEvent::Status(status) => match reported_failure(status) {
            Some(class) => Err(class),
            None => Err(ProxyPrepareFailureClass::Transport),
        },
        AckEvent::Broken => Err(ProxyPrepareFailureClass::Transport),
        AckEvent::TimedOut => Err(ProxyPrepareFailureClass::AmbiguousTimeout),
    }
}

/// Decides what follows the first confirmation.
pub fn after_first_ack(event: AckEvent, time_left: bool) -> (r: AckStep)
    ensures
        r == first_ack_step(event, time_left),
{
    match event {
        AckEvent::Broken => AckStep::Failed(ProxyPrepareFailureClass::Transport),
        AckEvent::TimedOut => AckStep::Failed(ProxyPrepareFailureClass::Transport),
        AckEvent::Status(status) => match status {
            ProxyPrepareAckStatus::Accepted => if time_left {
                AckStep::AwaitFinal
            } else {
                AckStep::Failed(ProxyPrepareFailureClass::AmbiguousTimeout)
            },
            ProxyPrepareAckStatus::Ready => AckStep::Ready,
            ProxyPrepareAckStatus::DestinationFailed => AckStep::Failed(
                ProxyPrepareFailureClass::Destination,
            ),
            ProxyPrepareAckStatus::PolicyDenied => AckStep::Failed(
                ProxyPrepareFailureClass::Policy,
            ),
            ProxyPrepareAckStatus::BusinessTimeout => AckStep::Failed(
                ProxyPrepareFailureClass::BusinessTimeout,
            ),
            ProxyPrepareAckStatus::Unspecified => AckStep::Failed(
                ProxyPrepareFailureClass::Transport,
            ),
        },
    }
}

/// Decides what the confirmation after an acceptance means.
pub fn after_final_ack(event: AckEvent) -> (r: Result<(), ProxyPrepareFailureClass>)
    ensures
        r == final_ack_result(event),
{
    match event {
        AckEvent::Broken => Err(ProxyPrepareFailureClass::Transport),
        AckEvent::TimedOut => Err(ProxyPrepareFailureClass::AmbiguousTimeout),
        AckEvent::Status(status) => match status {
            ProxyPrepareAckStatus::Ready => Ok(()),
            ProxyPrepareAckStatus::DestinationFailed => Err(ProxyPrepareFailureClass::Destination),
            ProxyPrepareAckStatus::PolicyDenied => Err(ProxyPrepareFailureClass::Policy),
            ProxyPrepareAckStatus::BusinessTimeout => Err(
                ProxyPrepareFailureClass::BusinessTimeout,
            ),
            ProxyPrepareAckStatus::Accepted | ProxyPrepareAckStatus::Unspecified => Err(
                ProxyPrepareFailureClass::Transport,
            ),
        },
    }
}

/// A timeout is ambiguous only after the target has accepted the request; before that, and where
/// the stream breaks, it is the transport that failed.
pub proof fn law_only_accepted_requests_time_out_ambiguously(
    first: AckEvent,
    time_left: bool,
    second: AckEvent,
)
    ensures
        first_ack_step(first, time_left) == AckStep::Failed(
            ProxyPrepareFailureClass::AmbiguousTimeout,
        ) ==> first == AckEvent::Status(ProxyPrepareAckStatus::Accepted),
        first_ack_step(AckEvent::TimedOut, time_left) == AckStep::Failed(
            ProxyPrepareFailureClass::Transport,
        ),
        first_ack_step(first, time_left) is AwaitFinal ==> first == AckEvent::Status(
            ProxyPrepareAckStatus::Accepted,
        ),
        final_ack_result(second) == Err::<(), ProxyPrepareFailureClass>(
            ProxyPrepareFailureClass::AmbiguousTimeout,
        ) <==> second is TimedOut,
        final_ack_result(AckEvent::Broken) == Err::<(), ProxyPrepareFailureClass>(
            ProxyPrepareFailureClass::Transport,
        ),
{
}

/// The payload of a confirmation is too long.
#[derive(Clone, Copy, Debug, PartialEq, Eq, Structural)]
pub struct AckFrameTooLarge;

/// A confirmation on the wire: the length of its payload in two bytes, and the payload.
pub open spec fn ack_frame(payload: Seq<u8>) -> Seq<u8> {
    seq![(payload.len() / 0x100) as u8, (payload.len() % 0x100) as u8] + payload
}

/// Frames a confirmation.
pub fn frame_proxy_prepare_ack(payload: &[u8]) -> (r: Result<Vec<u8>, AckFrameTooLarge>)
    ensures
        match r {
            Ok(frame) => payload@.len() <= PROXY_PREPARE_ACK_MAX_FRAME && frame@ == ack_frame(
                payload@,
            ),
            Err(_) => payload@.len() > PROXY_PREPARE_ACK_MAX_FRAME,
        },
{
    if payload.len() > PROXY_PREPARE_ACK_MAX_FRAME {
        return Err(AckFrameTooLarge);
    }
    let mut frame: Vec<u8> = Vec::new();
    frame.push(0);
    frame.push(payload.len() as u8);
    let mut i: usize = 0;
    while i < payload.len()
        invariant
            i <= payload@.len() <= PROXY_PREPARE_ACK_MAX_FRAME,
            frame@ == seq![0u8, payload@.len() as u8] + payload@.take(i as int),
        decreases payload@.len() - i,
    {
        frame.push(payload[i]);
        assert(payload@.take(i as int + 1) =~= payload@.take(i as int).push(payload@[i as int]));
        i += 1;
    }
    assert(payload@.take(payload@.len() as int) =~= payload@);
    Ok(frame)
}

/// The length that the first two bytes of a confirmation give.
pub open spec fn announced_length(high: u8, low: u8) -> int {
    high * 0x100 + low
}

/// The length of the payload that follows, if it is not too long.
pub fn proxy_prepare_ack_length(high: u8, low: u8) -> (r: Result<usize, AckFrameTooLarge>)
    ensures
        match r {
            Ok(length) => length == announced_length(high, low) && length
                <= PROXY_PREPARE_ACK_MAX_FRAME,
            Err(_) => announced_length(high, low) > PROXY_PREPARE_ACK_MAX_FRAME,
        },
{
    let length = high as usize * 0x100 + low as usize;
    if length > PROXY_PREPARE_ACK_MAX_FRAME {
        return Err(AckFrameTooLarge);
    }
    Ok(length)
}

/// Reading a framed confirmation from the front of a stream gives its payload back and leaves what
/// follows it in the stream.
pub proof fn law_framing_keeps_what_follows(payload: Seq<u8>, following: Seq<u8>)
    requires
        payload.len() <= PROXY_PREPARE_ACK_MAX_FRAME,
    ensures
        ({
            let stream = ack_frame(payload) + following;
            let length = announced_length(stream[0], stream[1]);
            &&& length == payload.len()
            &&& stream.subrange(2, 2 + length) == payload
            &&& stream.skip(2 + length) == following
        }),
{
    let stream = ack_frame(payload) + following;
    assert(stream[0] == 0 && stream[1] == payload.len());
    assert(stream.subrange(2, 2 + payload.len() as int) =~= payload);
    assert(stream.skip(2 + payload.len() as int) =~= following);
}

/// A peer is never asked for confirmations that it does not know: the version is one that both sides
/// know, and zero just where the peer knows none.
pub proof fn law_version_is_known_to_both(remote_version: u32)
    ensures
        prepare_version(remote_version) <= remote_version,
        prepare_version(remote_version) <= 1,
        remote_version >= 1 ==> prepare_version(remote_version) == 1,
        remote_version == 0 ==> prepare_version(remote_version) == 0,
{
}

/// Only a connection to this node that has no virtual interface goes elsewhere than it was meant to: to
/// the loopback address of the same family, at the same port.
pub proof fn law_only_own_connections_go_to_loopback(
    destination: SocketAddress,
    send_to_self: bool,
    no_tun: bool,
)
    ensures
        ({
            let target = local_proxy_destination(destination, send_to_self, no_tun);
            &&& target.spec_port() == destination.spec_port()
            &&& !send_to_self ==> target == destination
            &&& !no_tun ==> target == destination
            &&& target is V4 <==> destination is V4
            &&& send_to_self && no_tun && destination is V4 ==> target.spec_ip() == IpAddress::V4(
                0x7f00_0001,
            )
            &&& send_to_self && no_tun && destination is V6 ==> target.spec_ip() == IpAddress::V6(1)
        }),
{
}

/// A stream can be used only once the target has said that it is ready. What the target reports is what
/// failed; anything else that is not an answer is the transport's failure. An acceptance is waited on as
/// long as there is time.
pub proof fn law_streams_are_used_once_ready(event: AckEvent, time_left: bool)
    ensures
        ({
            let step = first_ack_step(event, time_left);
            let ready = AckEvent::Status(ProxyPrepareAckStatus::Ready);
            let accepted = AckEvent::Status(ProxyPrepareAckStatus::Accepted);
            let unreachable = AckEvent::Status(ProxyPrepareAckStatus::DestinationFailed);
            let denied = AckEvent::Status(ProxyPrepareAckStatus::PolicyDenied);
            let slow = AckEvent::Status(ProxyPrepareAckStatus::BusinessTimeout);
            &&& step is Ready <==> event == ready
            &&& step is AwaitFinal <==> event == accepted && time_left
            &&& step == AckStep::Failed(ProxyPrepareFailureClass::AmbiguousTimeout) <==> event == accepted
                && !time_left
            &&& step == AckStep::Failed(ProxyPrepareFailureClass::Destination) <==> event == unreachable
            &&& step == AckStep::Failed(ProxyPrepareFailureClass::Policy) <==> event == denied
            &&& step == AckStep::Failed(ProxyPrepareFailureClass::BusinessTimeout) <==> event == slow
            &&& final_ack_result(event) is Ok <==> event == ready
            &&& final_ack_result(event) == Err::<(), _>(ProxyPrepareFailureClass::Destination) <==> event
                == unreachable
            &&& final_ack_result(event) == Err::<(), _>(ProxyPrepareFailureClass::Policy) <==> event
                == denied
            &&& final_ack_result(event) == Err::<(), _>(ProxyPrepareFailureClass::BusinessTimeout)
                <==> event == slow
            &&& final_ack_result(event) == Err::<(), _>(ProxyPrepareFailureClass::AmbiguousTimeout)
                <==> event is TimedOut
        }),
{
}

/// A confirmation of at most 64 bytes is framed by its length in two bytes, the higher one first, and no
/// longer one is; the length is read back as it was written.
pub proof fn law_confirmations_are_framed_by_their_length(
    payload: &[u8],
    r: Result<Vec<u8>, AckFrameTooLarge>,
    length: Result<usize, AckFrameTooLarge>,
)
    requires
        call_ensures(frame_proxy_prepare_ack, (payload,), r),
        r is Ok ==> call_ensures(proxy_prepare_ack_length, (r->Ok_0@[0], r->Ok_0@[1]), length),
    ensures
        r is Ok <==> payload@.len() <= 64,
        r is Ok ==> r->Ok_0@.len() == payload@.len() + 2 && r->Ok_0@.skip(2) == payload@ && r->Ok_0@[0] == 0
            && r->Ok_0@[1] == payload@.len(),
        r is Ok ==> length is Ok && length->Ok_0 == payload@.len(),
{
    if payload@.len() <= 64 {
        let following = Seq::<u8>::empty();
        law_framing_keeps_what_follows(payload@, following);
        assert(ack_frame(payload@) + following =~= ack_frame(payload@));
        assert(ack_frame(payload@).skip(2) =~= payload@);
    }
}

/// A length of more than 64 bytes is refused, and any other is that of the two bytes, the higher one first.
pub proof fn law_long_confirmations_are_refused(high: u8, low: u8, r: Result<usize, AckFrameTooLarge>)
    requires
        call_ensures(proxy_prepare_ack_length, (high, low), r),
    ensures
        r is Ok <==> high * 256 + low <= 64,
        r is Ok ==> r->Ok_0 == high * 256 + low,
{
}

} // verus!
