//! Proxy streams that have been prepared for flows and wait to be taken. A stream is stood for by
//! a number under which its owner finds it again. Times are in nanoseconds.
use vstd::prelude::*;

use crate::addr::{PeerId, SocketAddress};
use crate::indexed_table::{IndexKey, IndexedTable};
use crate::keyed_table::TableKey;
use crate::transport_health::ProxyTransport;

verus! {

/// How long a prepared stream waits.
pub const PREPARED_TTL: u64 = 5_000_000_000;

/// The two ends of a proxied connection.
#[derive(Clone, Copy, Debug, PartialEq, Eq, Structural)]
pub struct FlowKey {
    pub src: SocketAddress,
    pub dst: SocketAddress,
}

impl TableKey for FlowKey {
    fn same(&self, other: &Self) -> (r: bool) {
        *self == *other
    }
}

impl IndexKey for FlowKey {
    open spec fn words(self) -> Seq<u64> {
        self.src.words() + self.dst.words()
    }

    fn to_words(&self) -> (r: Vec<u64>) {
        let mut r = self.src.to_words();
        let mut dst = self.dst.to_words();
        r.append(&mut dst);
        r
    }

    proof fn lemma_words(a: Self, b: Self) {
        if a.words() == b.words() {
            assert(a.src.words() =~= a.words().take(6));
            assert(b.src.words() =~= b.words().take(6));
            assert(a.dst.words() =~= a.words().skip(6));
            assert(b.dst.words() =~= b.words().skip(6));
            SocketAddress::lemma_words(a.src, b.src);
            SocketAddress::lemma_words(a.dst, b.dst);
        }
    }
}

/// What a stream has been prepared for.
#[derive(Clone, Copy, Debug, PartialEq, Eq, Structural)]
pub struct PreparedKey {
    pub flow: FlowKey,
    pub initial_sequence: u32,
    pub generation: u64,
    pub dst_peer_id: PeerId,
    pub transport: ProxyTransport,
}

/// Where a stream waits: there is one place for each transport of a flow.
#[derive(Clone, Copy, Debug, PartialEq, Eq, Structural)]
pub struct PreparedPlace {
    pub flow: FlowKey,
    pub transport: ProxyTransport,
}

impl TableKey for PreparedPlace {
    fn same(&self, other: &Self) -> (r: bool) {
        *self == *other
    }
}

impl IndexKey for PreparedPlace {
    open spec fn words(self) -> Seq<u64> {
        self.flow.words().push(self.transport.word())
    }

    fn to_words(&self) -> (r: Vec<u64>) {
        let mut r = self.flow.to_words();
        r.push(self.transport.to_word());
        r
    }

    proof fn lemma_words(a: Self, b: Self) {
        if a.words() == b.words() {
            assert(a.flow.words() =~= a.words().drop_last());
            assert(b.flow.words() =~= b.words().drop_last());
            assert(a.words().last() == a.transport.word());
            assert(b.words().last() == b.transport.word());
            FlowKey::lemma_words(a.flow, b.flow);
        }
    }
}

impl PreparedKey {
    pub open spec fn spec_place(self) -> PreparedPlace {
        PreparedPlace { flow: self.flow, transport: self.transport }
    }

    pub fn place(&self) -> (r: PreparedPlace)
        ensures
            r == self.spec_place(),
    {
        PreparedPlace { flow: self.flow, transport: self.transport }
    }
}

/// A stream that waits.
#[derive(Clone, Copy, Debug, PartialEq, Eq, Structural)]
pub struct PreparedStream {
    pub key: PreparedKey,
    pub stream: u64,
    pub expires_at: u64,
}

pub type PreparedStreams = Map<PreparedPlace, PreparedStream>;

/// The streams that still wait at `now`.
pub open spec fn waiting(streams: PreparedStreams, now: u64) -> PreparedStreams {
    streams.restrict(
        Set::new(
            |place: PreparedPlace|
                streams.contains_key(place) && streams[place].expires_at > now,
        ),
    )
}

pub open spec fn expiry(now: u64) -> u64 {
    if now + PREPARED_TTL <= u64::MAX {
        (now + PREPARED_TTL) as u64
    } else {
        u64::MAX
    }
}

/// The streams after one was put in, in place of an older one of the same flow and transport.
pub open spec fn with_prepared(
    streams: PreparedStreams,
    key: PreparedKey,
    stream: u64,
    now: u64,
) -> PreparedStreams {
    waiting(streams, now).insert(
        key.spec_place(),
        PreparedStream { key, stream, expires_at: expiry(now) },
    )
}

/// The streams after the one for `key` was given up. A newer one in its place stays.
pub open spec fn without_prepared(streams: PreparedStreams, key: PreparedKey) -> PreparedStreams {
    if streams.contains_key(key.spec_place()) && streams[key.spec_place()].key == key {
        streams.remove(key.spec_place())
    } else {
        streams
    }
}

/// A stream waits for the flow, on the transport, for a connection that starts with the sequence
/// number.
pub open spec fn claimable(
    streams: PreparedStreams,
    place: PreparedPlace,
    initial_sequence: u32,
    now: u64,
) -> bool {
    waiting(streams, now).contains_key(place) && streams[place].key.initial_sequence
        == initial_sequence
}

pub struct PreparedProxyStore {
    streams: IndexedTable<PreparedPlace, PreparedStream>,
}

impl View for PreparedProxyStore {
    type V = PreparedStreams;

    closed spec fn view(&self) -> PreparedStreams {
        self.streams@
    }
}

impl PreparedProxyStore {
    /// Each stream waits at the place of what it was prepared for.
    pub closed spec fn wf(&self) -> bool {
        &&& self.streams.wf()
        &&& forall|place: PreparedPlace| #[trigger]
            self.streams@.contains_key(place) ==> self.streams@[place].key.spec_place() == place
    }

    pub fn new() -> (r: Self)
        ensures
            r.wf(),
            r@ == PreparedStreams::empty(),
    {
        PreparedProxyStore { streams: IndexedTable::new() }
    }

    pub fn is_empty(&self) -> (r: bool)
        requires
            self.wf(),
        ensures
            r == (self@.len() == 0),
    {
        self.streams.len() == 0
    }

    /// The numbers of the streams that are held.
    pub fn held_streams(&self) -> (r: Vec<u64>)
        requires
            self.wf(),
        ensures
            forall|stream: u64|
                r@.contains(stream) <==> exists|place: PreparedPlace| #[trigger]
                    self@.contains_key(place) && self@[place].stream == stream,
    {
        let mut out: Vec<u64> = Vec::new();
        let mut i: usize = 0;
        proof {
            self.streams.lemma_view();
        }
        while i < self.streams.len()
            invariant
                self.wf(),
                i <= self.streams.pairs().len(),
                out@.len() == i,
                forall|j: int|
                    0 <= j < i ==> (#[trigger] out@[j]) == self.streams.pairs()[j].1.stream,
            decreases self.streams.pairs().len() - i,
        {
            out.push(self.streams.at(i).1.stream);
            i += 1;
        }
        proof {
            self.streams.lemma_view();
            assert forall|stream: u64| out@.contains(stream) <==> exists|place: PreparedPlace| #[trigger]
                self@.contains_key(place) && self@[place].stream == stream by {
                if out@.contains(stream) {
                    let j = choose|j: int| 0 <= j < out@.len() && #[trigger] out@[j] == stream;
                    assert(self@.contains_key(self.streams.pairs()[j].0));
                }
                if exists|place: PreparedPlace| #[trigger]
                    self@.contains_key(place) && self@[place].stream == stream {
                    let place = choose|place: PreparedPlace| #[trigger]
                        self@.contains_key(place) && self@[place].stream == stream;
                    let j = choose|j: int|
                        0 <= j < self.streams.pairs().len() && (#[trigger] self.streams.pairs()[j]).0
                            == place;
                    assert(out@[j] == stream);
                }
            }
        }
        out
    }

    /// Gives up the streams that have waited too long.
    pub fn cleanup(&mut self, now: u64)
        requires
            old(self).wf(),
        ensures
            final(self).wf(),
            final(self)@ == waiting(old(self)@, now),
    {
        let ghost before = self@;
        let mut i: usize = self.streams.len();
        while i > 0
            invariant
                self.wf(),
                self@ == self.streams@,
                i <= self.streams.pairs().len(),
                forall|k: PreparedPlace| #[trigger]
                    self@.contains_key(k) ==> before.contains_key(k) && self@[k] == before[k],
                forall|k: PreparedPlace| #[trigger]
                    before.contains_key(k) && !self@.contains_key(k) ==> before[k].expires_at <= now,
                forall|j: int|
                    i <= j < self.streams.pairs().len() ==> (
                    #[trigger] self.streams.pairs()[j]).1.expires_at > now,
            decreases i,
        {
            i -= 1;
            if self.streams.at(i).1.expires_at <= now {
                let ghost earlier = *self;
                proof {
                    self.streams.lemma_view();
                }
                let removed = self.streams.remove_at(i);
                proof {
                    assert forall|j: int| i <= j < self.streams.pairs().len() implies (
                    #[trigger] self.streams.pairs()[j]).1.expires_at > now by {
                        assert(self.streams.pairs()[j] == earlier.streams.pairs()[j + 1]);
                    }
                }
            }
        }
        proof {
            self.streams.lemma_view();
            assert forall|k: PreparedPlace| #[trigger] self@.contains_key(k) implies self@[k].expires_at
                > now by {
                let j = choose|j: int|
                    0 <= j < self.streams.pairs().len() && (#[trigger] self.streams.pairs()[j]).0
                        == k;
                assert(self@[k] == self.streams.pairs()[j].1);
            }
            assert(self@ =~= waiting(before, now));
        }
    }

    /// Puts a prepared stream in.
    pub fn insert(&mut self, key: PreparedKey, stream: u64, now: u64)
        requires
            old(self).wf(),
        ensures
            final(self).wf(),
            final(self)@ == with_prepared(old(self)@, key, stream, now),
    {
        self.cleanup(now);
        let expires_at = now.saturating_add(PREPARED_TTL);
        self.streams.insert(key.place(), PreparedStream { key, stream, expires_at });
    }

    /// Takes the stream that waits for a connection.
    pub fn claim_for_syn(
        &mut self,
        flow: FlowKey,
        transport: ProxyTransport,
        initial_sequence: u32,
        now: u64,
    ) -> (r: Option<u64>)
        requires
            old(self).wf(),
        ensures
            final(self).wf(),
            ({
                let place = PreparedPlace { flow, transport };
                if claimable(old(self)@, place, initial_sequence, now) {
                    r == Some(old(self)@[place].stream) && final(self)@ == waiting(
                        old(self)@,
                        now,
                    ).remove(place)
                } else {
                    r is None && final(self)@ == waiting(old(self)@, now)
                }
            }),
    {
        self.cleanup(now);
        let place = PreparedPlace { flow, transport };
        match self.streams.get(&place) {
            None => None,
            Some(prepared) => {
                if prepared.key.initial_sequence != initial_sequence {
                    return None;
                }
                let removed = self.streams.remove(&place);
                Some(prepared.stream)
            },
        }
    }

    /// Gives a prepared stream up.
    pub fn remove(&mut self, key: PreparedKey)
        requires
            old(self).wf(),
        ensures
            final(self).wf(),
            final(self)@ == without_prepared(old(self)@, key),
    {
        let place = key.place();
        if let Some(prepared) = self.streams.get(&place) {
            if prepared.key == key {
                let removed = self.streams.remove(&place);
            }
        }
    }
}

/// A prepared stream can be taken by the connection that it was prepared for, on its transport
/// and before it expires, and by no other; and once taken it is gone.
pub proof fn law_prepared_stream_is_taken_once(
    streams: PreparedStreams,
    key: PreparedKey,
    stream: u64,
    prepared_at: u64,
    now: u64,
    place: PreparedPlace,
    initial_sequence: u32,
)
    requires
        prepared_at <= now < prepared_at + PREPARED_TTL,
        prepared_at + PREPARED_TTL <= u64::MAX,
    ensures
        ({
            let held = with_prepared(streams, key, stream, prepared_at);
            &&& claimable(held, key.spec_place(), key.initial_sequence, now)
            &&& held[key.spec_place()].stream == stream
            &&& place == key.spec_place() && initial_sequence != key.initial_sequence
                ==> !claimable(held, place, initial_sequence, now)
            &&& !claimable(
                waiting(held, now).remove(key.spec_place()),
                key.spec_place(),
                key.initial_sequence,
                now,
            )
        }),
{
}

/// A newer stream takes the place of an older one, and giving the older one up afterwards leaves
/// the newer one alone.
pub proof fn law_newer_stream_replaces_older(
    streams: PreparedStreams,
    older: PreparedKey,
    newer: PreparedKey,
    old_stream: u64,
    new_stream: u64,
    t1: u64,
    t2: u64,
)
    requires
        older.spec_place() == newer.spec_place(),
        older != newer,
    ensures
        ({
            let held = with_prepared(
                with_prepared(streams, older, old_stream, t1),
                newer,
                new_stream,
                t2,
            );
            &&& held[newer.spec_place()].stream == new_stream
            &&& held[newer.spec_place()].key == newer
            &&& without_prepared(held, older) == held
        }),
{
}

/// A stream that was not taken in time cannot be taken any more.
pub proof fn law_prepared_stream_expires(
    streams: PreparedStreams,
    key: PreparedKey,
    stream: u64,
    prepared_at: u64,
    now: u64,
)
    requires
        prepared_at + PREPARED_TTL <= now,
    ensures
        !claimable(
            with_prepared(streams, key, stream, prepared_at),
            key.spec_place(),
            key.initial_sequence,
            now,
        ),
{
}

/// A stream waits for five seconds.
pub proof fn law_streams_wait_five_seconds(
    streams: PreparedStreams,
    key: PreparedKey,
    stream: u64,
    prepared_at: u64,
    now: u64,
)
    requires
        prepared_at + 5_000_000_000 <= u64::MAX,
    ensures
        ({
            let held = with_prepared(streams, key, stream, prepared_at);
            let place = PreparedPlace { flow: key.flow, transport: key.transport };
            &&& held.contains_key(place) && held[place].key == key && held[place].stream == stream
            &&& held[place].expires_at == prepared_at + 5_000_000_000
            &&& waiting(held, now).contains_key(place) <==> now < prepared_at + 5_000_000_000
        }),
{
}

/// What waits is what was put in and has not expired; a stream of another flow or transport is not
/// touched by putting one in or giving one up.
pub proof fn law_streams_are_kept_apart(
    streams: PreparedStreams,
    key: PreparedKey,
    stream: u64,
    now: u64,
    other: PreparedPlace,
)
    requires
        other.flow != key.flow || other.transport != key.transport,
    ensures
        with_prepared(streams, key, stream, now).contains_key(other) <==> streams.contains_key(other)
            && now < streams[other].expires_at,
        with_prepared(streams, key, stream, now).contains_key(other) ==> with_prepared(
            streams,
            key,
            stream,
            now,
        )[other] == streams[other],
        without_prepared(streams, key).contains_key(other) == streams.contains_key(other),
        streams.contains_key(other) ==> without_prepared(streams, key)[other] == streams[other],
{
}

/// Giving up a stream that was put in for exactly this purpose removes it.
pub proof fn law_given_up_stream_is_gone(
    streams: PreparedStreams,
    key: PreparedKey,
    stream: u64,
    now: u64,
)
    ensures
        !without_prepared(with_prepared(streams, key, stream, now), key).contains_key(
            key.spec_place(),
        ),
{
}

/// A stream is handed out just to the connection that it was prepared for, on its transport and before it
/// expires, and is gone then; streams that have expired are gone in any case.
pub proof fn law_streams_go_to_their_connections(
    store: &mut PreparedProxyStore,
    flow: FlowKey,
    transport: ProxyTransport,
    initial_sequence: u32,
    now: u64,
    r: Option<u64>,
)
    requires
        old(store).wf(),
        call_ensures(PreparedProxyStore::claim_for_syn, (store, flow, transport, initial_sequence, now), r),
    ensures
        ({
            let place = PreparedPlace { flow, transport };
            &&& r is Some <==> old(store)@.contains_key(place) && old(store)@[place].expires_at > now
                && old(store)@[place].key.initial_sequence == initial_sequence
            &&& r is Some ==> r->0 == old(store)@[place].stream && !final(store)@.contains_key(place)
            &&& forall|other: PreparedPlace| #[trigger]
                final(store)@.contains_key(other) <==> old(store)@.contains_key(other)
                    && old(store)@[other].expires_at > now && !(r is Some && other == place)
            &&& forall|other: PreparedPlace| #[trigger]
                final(store)@.contains_key(other) ==> final(store)@[other] == old(store)@[other]
        }),
{
}

} // verus!
