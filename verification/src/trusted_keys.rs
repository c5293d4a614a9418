//! The public keys that each network trusts.
use vstd::prelude::*;

use crate::indexed_table::{get_place, held_places, new_index, remove_place, set_place, Places};
use crate::text::chars_of;

verus! {

/// Where a trusted public key comes from.
#[derive(Clone, Copy, Debug, PartialEq, Eq, Structural)]
pub enum TrustedKeySource {
    /// A peer's own static key.
    OspfNode,
    /// A credential that an administrator declared.
    OspfCredential,
}

/// What is known of a trusted key.
#[derive(Clone, Copy, Debug, PartialEq, Eq, Structural)]
pub struct TrustedKeyMetadata {
    pub source: TrustedKeySource,
    /// In Unix seconds; a key without an expiry never expires.
    pub expiry_unix: Option<i64>,
}

/// The seconds since the Unix epoch, from `std::time::SystemTime::elapsed`; zero while the clock
/// stands before the epoch. Nothing is claimed of it.
#[verifier::external_body]
fn unix_now() -> (r: i64) {
    std::time::UNIX_EPOCH.elapsed().unwrap_or_default().as_secs() as i64
}

impl TrustedKeyMetadata {
    pub open spec fn expired(self, now_unix: i64) -> bool {
        self.expiry_unix is Some && now_unix >= self.expiry_unix->0
    }

    /// Tells whether the key has expired at the given time.
    pub fn is_expired_at(&self, now_unix: i64) -> (r: bool)
        ensures
            r == self.expired(now_unix),
    {
        match self.expiry_unix {
            Some(expiry) => now_unix >= expiry,
            None => false,
        }
    }

    /// Tells whether the key has expired by now. When a key with an expiry counts as expired is up
    /// to the clock; one without an expiry never does.
    pub fn is_expired(&self) -> (r: bool)
        ensures
            self.expiry_unix is None ==> !r,
            r ==> exists|now: i64| self.expired(now),
            !r ==> exists|now: i64| !self.expired(now),
    {
        let now: i64 = unix_now();
        let r = self.is_expired_at(now);
        assert(self.expired(now) == r);
        r
    }
}

/// `a` comes before `b` in the order of byte strings.
pub open spec fn bytes_before(a: Seq<u8>, b: Seq<u8>) -> bool
    decreases a.len(),
{
    if b.len() == 0 {
        false
    } else if a.len() == 0 {
        true
    } else if a[0] != b[0] {
        a[0] < b[0]
    } else {
        bytes_before(a.subrange(1, a.len() as int), b.subrange(1, b.len() as int))
    }
}

/// The order of byte strings is total: of two different strings exactly one comes first.
proof fn lemma_bytes_total(a: Seq<u8>, b: Seq<u8>)
    ensures
        a != b ==> (bytes_before(a, b) <==> !bytes_before(b, a)),
        !bytes_before(a, a),
    decreases a.len(),
{
    if a.len() > 0 {
        let a1 = a.subrange(1, a.len() as int);
        lemma_bytes_total(a1, a1);
        if b.len() > 0 && a[0] == b[0] {
            let b1 = b.subrange(1, b.len() as int);
            lemma_bytes_total(a1, b1);
            if a1 == b1 {
                assert(a =~= seq![a[0]] + a1);
                assert(b =~= seq![b[0]] + b1);
            }
        }
    } else if b.len() == 0 {
        assert(a =~= b);
    }
}

proof fn lemma_bytes_transitive(a: Seq<u8>, b: Seq<u8>, c: Seq<u8>)
    requires
        bytes_before(a, b),
        bytes_before(b, c),
    ensures
        bytes_before(a, c),
    decreases a.len(),
{
    if a.len() > 0 && a[0] == b[0] && b[0] == c[0] {
        lemma_bytes_transitive(
            a.subrange(1, a.len() as int),
            b.subrange(1, b.len() as int),
            c.subrange(1, c.len() as int),
        );
    }
}

/// How two byte strings stand to each other.
#[derive(Clone, Copy, Debug, PartialEq, Eq, Structural)]
pub enum ByteOrder {
    Before,
    Same,
    After,
}

fn order_bytes(a: &[u8], b: &[u8]) -> (r: ByteOrder)
    ensures
        r == (if a@ == b@ {
            ByteOrder::Same
        } else if bytes_before(a@, b@) {
            ByteOrder::Before
        } else {
            ByteOrder::After
        }),
{
    let mut i: usize = 0;
    proof {
        assert(a@.subrange(0, a@.len() as int) =~= a@);
        assert(b@.subrange(0, b@.len() as int) =~= b@);
    }
    while i < a.len() && i < b.len()
        invariant
            i <= a@.len(),
            i <= b@.len(),
            a@.take(i as int) == b@.take(i as int),
            bytes_before(a@, b@) == bytes_before(
                a@.subrange(i as int, a@.len() as int),
                b@.subrange(i as int, b@.len() as int),
            ),
        decreases a@.len() - i,
    {
        proof {
            let a1 = a@.subrange(i as int, a@.len() as int);
            let b1 = b@.subrange(i as int, b@.len() as int);
            assert(a1[0] == a@[i as int] && b1[0] == b@[i as int]);
            assert(a1.subrange(1, a1.len() as int) =~= a@.subrange(i as int + 1, a@.len() as int));
            assert(b1.subrange(1, b1.len() as int) =~= b@.subrange(i as int + 1, b@.len() as int));
        }
        if a[i] < b[i] {
            assert(a@ != b@);
            return ByteOrder::Before;
        }
        if a[i] > b[i] {
            assert(a@ != b@);
            return ByteOrder::After;
        }
        proof {
            assert(a@.take(i as int + 1) =~= a@.take(i as int).push(a@[i as int]));
            assert(b@.take(i as int + 1) =~= b@.take(i as int).push(b@[i as int]));
        }
        i += 1;
    }
    if i < b.len() {
        assert(a@.len() < b@.len());
        ByteOrder::Before
    } else if i < a.len() {
        assert(a@.len() > b@.len());
        ByteOrder::After
    } else {
        assert(a@.take(i as int) =~= a@);
        assert(b@.take(i as int) =~= b@);
        ByteOrder::Same
    }
}

/// A key with what is known of it, as a mathematical value.
pub type KeyRecord = (Seq<u8>, TrustedKeyMetadata);

/// The keys come in ascending order, so none occurs twice.
pub open spec fn ascending(records: Seq<KeyRecord>) -> bool {
    forall|i: int, j: int|
        0 <= i < j < records.len() ==> bytes_before(
            (#[trigger] records[i]).0,
            (#[trigger] records[j]).0,
        )
}

/// What is known of a key.
pub open spec fn known(records: Seq<KeyRecord>, pubkey: Seq<u8>) -> Option<TrustedKeyMetadata> {
    if exists|i: int| 0 <= i < records.len() && (#[trigger] records[i]).0 == pubkey {
        Some(
            records[choose|i: int| 0 <= i < records.len() && (#[trigger] records[i]).0 == pubkey].1,
        )
    } else {
        None
    }
}

/// The trusted keys of one network.
#[derive(Debug)]
pub struct TrustedKeyMap {
    keys: Vec<(Vec<u8>, TrustedKeyMetadata)>,
}

impl View for TrustedKeyMap {
    type V = Seq<KeyRecord>;

    closed spec fn view(&self) -> Seq<KeyRecord> {
        self.keys@.map_values(|k: (Vec<u8>, TrustedKeyMetadata)| (k.0@, k.1))
    }
}

impl TrustedKeyMap {
    pub open spec fn wf(&self) -> bool {
        ascending(self@)
    }

    pub fn new() -> (r: Self)
        ensures
            r.wf(),
            r@ == Seq::<KeyRecord>::empty(),
    {
        let r = TrustedKeyMap { keys: Vec::new() };
        assert(r@ =~= Seq::<KeyRecord>::empty());
        r
    }

    /// Stores what is known of a key, in place of what was there.
    pub fn insert(&mut self, pubkey: Vec<u8>, metadata: TrustedKeyMetadata)
        requires
            old(self).wf(),
        ensures
            final(self).wf(),
            known(final(self)@, pubkey@) == Some(metadata),
            forall|other: Seq<u8>|
                other != pubkey@ ==> #[trigger] known(final(self)@, other) == known(
                    old(self)@,
                    other,
                ),
    {
        let ghost before = self@;
        let ghost record = (pubkey@, metadata);
        let mut i: usize = 0;
        while i < self.keys.len()
            invariant
                i <= self.keys@.len(),
                *self == *old(self),
                before == self@,
                record == (pubkey@, metadata),
                ascending(before),
                forall|j: int|
                    0 <= j < i ==> bytes_before((#[trigger] before[j]).0, pubkey@),
            decreases self.keys@.len() - i,
        {
            let order = order_bytes(self.keys[i].0.as_slice(), pubkey.as_slice());
            proof {
                lemma_bytes_total(before[i as int].0, pubkey@);
            }
            match order {
                ByteOrder::Before => {
                    i += 1;
                },
                ByteOrder::Same => {
                    self.keys.set(i, (pubkey, metadata));
                    proof {
                        let after = before.update(i as int, record);
                        assert(self@ =~= after);
                        assert(ascending(after)) by {
                            assert forall|a: int, b: int| 0 <= a < b < after.len() implies bytes_before(
                                (#[trigger] after[a]).0,
                                (#[trigger] after[b]).0,
                            ) by {
                                assert(bytes_before(before[a].0, before[b].0));
                            }
                        }
                        lemma_known(after, i as int);
                        assert forall|other: Seq<u8>| other != record.0 implies #[trigger] known(
                            after,
                            other,
                        ) == known(before, other) by {
                            if exists|k: int| 0 <= k < before.len() && (#[trigger] before[k]).0 == other {
                                let k = choose|k: int|
                                    0 <= k < before.len() && (#[trigger] before[k]).0 == other;
                                assert(after[k] == before[k]);
                                lemma_known(after, k);
                                lemma_known(before, k);
                            } else if exists|k: int|
                                0 <= k < after.len() && (#[trigger] after[k]).0 == other {
                                let k = choose|k: int|
                                    0 <= k < after.len() && (#[trigger] after[k]).0 == other;
                                assert(before[k].0 == other);
                            }
                        }
                    }
                    return;
                },
                ByteOrder::After => {
                    proof {
                        assert(bytes_before(pubkey@, before[i as int].0));
                        lemma_inserted(before, i as int, record);
                    }
                    self.keys.insert(i, (pubkey, metadata));
                    assert(self@ =~= before.insert(i as int, record));
                    return;
                },
            }
        }
        proof {
            lemma_inserted(before, i as int, record);
        }
        self.keys.insert(i, (pubkey, metadata));
        assert(self@ =~= before.insert(i as int, record));
    }

    /// What is known of a key.
    pub fn get(&self, pubkey: &[u8]) -> (r: Option<TrustedKeyMetadata>)
        requires
            self.wf(),
        ensures
            r == known(self@, pubkey@),
    {
        let mut i: usize = 0;
        while i < self.keys.len()
            invariant
                i <= self.keys@.len(),
                self.wf(),
                forall|j: int| 0 <= j < i ==> (#[trigger] self@[j]).0 != pubkey@,
            decreases self.keys@.len() - i,
        {
            match order_bytes(self.keys[i].0.as_slice(), pubkey) {
                ByteOrder::Same => {
                    proof {
                        assert(self@[i as int].0 == pubkey@);
                        lemma_known(self@, i as int);
                    }
                    return Some(self.keys[i].1);
                },
                _ => {},
            }
            assert(self@[i as int].0 == self.keys@[i as int].0@);
            i += 1;
        }
        None
    }
}

/// With ascending keys each record is what is known of its key.
proof fn lemma_known(records: Seq<KeyRecord>, i: int)
    requires
        ascending(records),
        0 <= i < records.len(),
    ensures
        known(records, records[i].0) == Some(records[i].1),
{
    let pubkey = records[i].0;
    assert(records[i].0 == pubkey);
    let k = choose|k: int| 0 <= k < records.len() && (#[trigger] records[k]).0 == pubkey;
    lemma_bytes_total(pubkey, pubkey);
    if k < i {
        assert(bytes_before(records[k].0, records[i].0));
    } else if i < k {
        assert(bytes_before(records[i].0, records[k].0));
    }
}

/// Inserting a key where the order puts it keeps the order and changes nothing for other keys.
proof fn lemma_inserted(before: Seq<KeyRecord>, i: int, record: KeyRecord)
    requires
        ascending(before),
        0 <= i <= before.len(),
        forall|j: int| 0 <= j < i ==> bytes_before((#[trigger] before[j]).0, record.0),
        i < before.len() ==> bytes_before(record.0, before[i].0),
    ensures
        ascending(before.insert(i, record)),
        known(before.insert(i, record), record.0) == Some(record.1),
        forall|other: Seq<u8>|
            other != record.0 ==> #[trigger] known(before.insert(i, record), other) == known(
                before,
                other,
            ),
{
    let after = before.insert(i, record);
    assert forall|a: int, b: int| 0 <= a < b < after.len() implies bytes_before(
        (#[trigger] after[a]).0,
        (#[trigger] after[b]).0,
    ) by {
        let a0 = if a < i { a } else { a - 1 };
        let b0 = if b < i { b } else { b - 1 };
        if a == i {
            if b0 > i {
                assert(bytes_before(before[i].0, before[b0].0));
                lemma_bytes_transitive(record.0, before[i].0, before[b0].0);
            }
        } else if b == i {
        } else {
            assert(after[a] == before[a0]);
            assert(after[b] == before[b0]);
            assert(bytes_before(before[a0].0, before[b0].0));
        }
    }
    assert(after[i] == record);
    lemma_known(after, i);
    assert forall|other: Seq<u8>| other != record.0 implies #[trigger] known(after, other) == known(
        before,
        other,
    ) by {
        if exists|k: int| 0 <= k < before.len() && (#[trigger] before[k]).0 == other {
            let k = choose|k: int| 0 <= k < before.len() && (#[trigger] before[k]).0 == other;
            let k1 = if k < i { k } else { k + 1 };
            assert(after[k1] == before[k]);
            lemma_known(after, k1);
            lemma_known(before, k);
        } else if exists|k: int| 0 <= k < after.len() && (#[trigger] after[k]).0 == other {
            let k = choose|k: int| 0 <= k < after.len() && (#[trigger] after[k]).0 == other;
            let k0 = if k < i { k } else { k - 1 };
            assert(before[k0] == after[k]);
        }
    }
}

/// The records that have not expired.
pub open spec fn unexpired(records: Seq<KeyRecord>, now_unix: i64) -> Seq<KeyRecord> {
    records.filter(|record: KeyRecord| !record.1.expired(now_unix))
}

/// The trusted keys of each network.
#[derive(Debug)]
pub struct TrustedKeyMapManager {
    networks: Vec<(String, TrustedKeyMap)>,
    /// Where each network is listed.
    index: dashmap::DashMap<Vec<u64>, u64>,
}

/// A name as the numbers of its letters.
pub open spec fn letters(name: Seq<char>) -> Seq<u64> {
    name.map_values(|c: char| c as u64)
}

proof fn lemma_letter(a: char, b: char)
    ensures
        a as u64 == b as u64 ==> a == b,
{
}

/// No two names have the same letters.
proof fn lemma_letters(a: Seq<char>, b: Seq<char>)
    ensures
        letters(a) == letters(b) ==> a == b,
{
    if letters(a) == letters(b) {
        assert(a.len() == letters(a).len() && b.len() == letters(b).len());
        assert forall|i: int| 0 <= i < a.len() implies a[i] == b[i] by {
            assert(letters(a)[i] == a[i] as u64);
            assert(letters(b)[i] == b[i] as u64);
            lemma_letter(a[i], b[i]);
        }
        assert(a =~= b);
    }
}

fn letters_of(name: &str) -> (r: Vec<u64>)
    ensures
        r@ == letters(name@),
{
    let chars = chars_of(name);
    let mut out: Vec<u64> = Vec::new();
    let mut i: usize = 0;
    while i < chars.len()
        invariant
            i <= chars@.len(),
            out@ == letters(chars@.take(i as int)),
        decreases chars@.len() - i,
    {
        out.push(chars[i] as u64);
        i += 1;
        assert(out@ =~= letters(chars@.take(i as int)));
    }
    assert(chars@.take(i as int) =~= chars@);
    out
}

/// The index tells where each network is listed, and nothing else.
pub open spec fn finds_networks(places: Places, networks: Seq<(Seq<char>, Seq<KeyRecord>)>) -> bool {
    &&& forall|i: int|
        0 <= i < networks.len() ==> places.contains_key(letters((#[trigger] networks[i]).0))
            && places[letters(networks[i].0)] == i
    &&& forall|w: Seq<u64>| #[trigger]
        places.contains_key(w) ==> exists|i: int|
            0 <= i < networks.len() && letters((#[trigger] networks[i]).0) == w
}

/// The keys of a network, as far as the list says.
pub open spec fn keys_of(networks: Seq<(Seq<char>, Seq<KeyRecord>)>, name: Seq<char>) -> Option<
    Seq<KeyRecord>,
> {
    if exists|i: int| 0 <= i < networks.len() && (#[trigger] networks[i]).0 == name {
        Some(
            networks[choose|i: int| 0 <= i < networks.len() && (#[trigger] networks[i]).0 == name].1,
        )
    } else {
        None
    }
}

/// The index knows every network and nothing else, and is right about those before place `n`.
pub open spec fn finds_some(
    places: Places,
    networks: Seq<(Seq<char>, Seq<KeyRecord>)>,
    n: int,
) -> bool {
    &&& forall|i: int|
        0 <= i < networks.len() ==> places.contains_key(letters((#[trigger] networks[i]).0)) && (i < n
            ==> places[letters(networks[i].0)] == i)
    &&& forall|w: Seq<u64>| #[trigger]
        places.contains_key(w) ==> exists|i: int|
            0 <= i < networks.len() && letters((#[trigger] networks[i]).0) == w
}

/// An index from which a network has been taken out is right about those before it.
proof fn lemma_gap_in_index(
    before: Places,
    after: Places,
    networks: Seq<(Seq<char>, Seq<KeyRecord>)>,
    i: int,
)
    requires
        finds_networks(before, networks),
        0 <= i < networks.len(),
        after == before.remove(letters(networks[i].0)),
        forall|a: int, b: int|
            0 <= a < b < networks.len() ==> (#[trigger] networks[a]).0 != (#[trigger] networks[b]).0,
    ensures
        finds_some(after, networks.remove(i), i),
{
    let rest = networks.remove(i);
    assert forall|k: int| 0 <= k < rest.len() implies after.contains_key(
        letters((#[trigger] rest[k]).0),
    ) && (k < i ==> after[letters(rest[k].0)] == k) by {
        let came = if k < i {
            k
        } else {
            k + 1
        };
        assert(rest[k] == networks[came]);
        lemma_letters(networks[came].0, networks[i].0);
        if came < i {
            assert(networks[came].0 != networks[i].0);
        } else {
            assert(networks[i].0 != networks[came].0);
        }
        assert(before.contains_key(letters(networks[came].0)));
    }
    assert forall|w: Seq<u64>| #[trigger] after.contains_key(w) implies exists|k: int|
        0 <= k < rest.len() && letters((#[trigger] rest[k]).0) == w by {
        let k = choose|k: int| 0 <= k < networks.len() && letters((#[trigger] networks[k]).0) == w;
        let moved = if k < i {
            k
        } else {
            k - 1
        };
        assert(rest[moved] == networks[k]);
    }
}

impl View for TrustedKeyMapManager {
    type V = Seq<(Seq<char>, Seq<KeyRecord>)>;

    closed spec fn view(&self) -> Seq<(Seq<char>, Seq<KeyRecord>)> {
        self.networks@.map_values(|n: (String, TrustedKeyMap)| (n.0@, n.1@))
    }
}

impl TrustedKeyMapManager {
    /// The index is right.
    pub closed spec fn indexed(&self) -> bool {
        finds_networks(held_places(self.index), self@)
    }

    /// No network is listed twice, and the keys of each are in order.
    pub open spec fn wf(&self) -> bool {
        &&& self.indexed()
        &&& forall|i: int, j: int|
            0 <= i < j < self@.len() ==> (#[trigger] self@[i]).0 != (#[trigger] self@[j]).0
        &&& forall|i: int| 0 <= i < self@.len() ==> ascending((#[trigger] self@[i]).1)
    }

    /// The keys of a network.
    pub open spec fn trusted(&self, network_name: Seq<char>) -> Option<Seq<KeyRecord>> {
        keys_of(self@, network_name)
    }

    /// The network trusts the key at the given time: the key is known, has not expired and, where
    /// one is asked for, comes from the source.
    pub open spec fn trusts(
        &self,
        pubkey: Seq<u8>,
        network_name: Seq<char>,
        source: Option<TrustedKeySource>,
        now_unix: i64,
    ) -> bool {
        match self.trusted(network_name) {
            None => false,
            Some(records) => match known(records, pubkey) {
                None => false,
                Some(metadata) => !metadata.expired(now_unix) && (source is None
                    || metadata.source == source->0),
            },
        }
    }

    pub fn new() -> (r: Self)
        ensures
            r.wf(),
            forall|name: Seq<char>| #[trigger] r.trusted(name) is None,
    {
        TrustedKeyMapManager { networks: Vec::new(), index: new_index() }
    }

    fn position(&self, network_name: &str) -> (r: Option<usize>)
        requires
            self.wf(),
        ensures
            match r {
                Some(i) => i < self@.len() && self@[i as int].0 == network_name@ && self.trusted(
                    network_name@,
                ) == Some(self@[i as int].1),
                None => self.trusted(network_name@) is None,
            },
    {
        let letters = letters_of(network_name);
        match get_place(&self.index, &letters) {
            Some(place) => {
                proof {
                    let i = choose|i: int|
                        0 <= i < self@.len() && self::letters((#[trigger] self@[i]).0) == letters@;
                    lemma_letters(self@[i].0, network_name@);
                    assert(place == i);
                    assert(self@.len() == self.networks.len());
                    let k = choose|k: int|
                        0 <= k < self@.len() && (#[trigger] self@[k]).0 == network_name@;
                    if k < i {
                        assert(self@[k].0 != self@[i].0);
                    } else if i < k {
                        assert(self@[i].0 != self@[k].0);
                    }
                }
                Some(place as usize)
            },
            None => {
                proof {
                    if exists|k: int| 0 <= k < self@.len() && (#[trigger] self@[k]).0 == network_name@ {
                        let k = choose|k: int|
                            0 <= k < self@.len() && (#[trigger] self@[k]).0 == network_name@;
                        assert(held_places(self.index).contains_key(self::letters(self@[k].0)));
                    }
                }
                None
            },
        }
    }

    /// Replaces all trusted keys of a network.
    pub fn update_trusted_keys(&mut self, network_name: &str, trusted_keys: TrustedKeyMap)
        requires
            old(self).wf(),
            trusted_keys.wf(),
        ensures
            final(self).wf(),
            final(self).trusted(network_name@) == Some(trusted_keys@),
            forall|other: Seq<char>|
                other != network_name@ ==> #[trigger] final(self).trusted(other) == old(
                    self,
                ).trusted(other),
    {
        let ghost before = self@;
        let ghost record = (network_name@, trusted_keys@);
        match self.position(network_name) {
            Some(i) => {
                self.networks.set(i, (network_name.to_owned(), trusted_keys));
                proof {
                    let after = self@;
                    assert(after =~= before.update(i as int, record));
                    assert(after[i as int].0 == network_name@);
                    assert(forall|k: int|
                        0 <= k < before.len() ==> (#[trigger] after[k]).0 == before[k].0);
                    let places = held_places(self.index);
                    assert forall|w: Seq<u64>| #[trigger] places.contains_key(w) implies exists|k: int|
                        0 <= k < after.len() && letters((#[trigger] after[k]).0) == w by {
                        let k = choose|k: int|
                            0 <= k < before.len() && letters((#[trigger] before[k]).0) == w;
                        assert(letters(after[k].0) == w);
                    }
                    assert forall|a: int, b: int| 0 <= a < b < after.len() implies (
                    #[trigger] after[a]).0 != (#[trigger] after[b]).0 by {
                        assert(before[a].0 != before[b].0);
                    }
                    assert forall|other: Seq<char>| other != network_name@ implies #[trigger] keys_of(
                        after,
                        other,
                    ) == keys_of(before, other) by {
                        if exists|k: int| 0 <= k < before.len() && (#[trigger] before[k]).0 == other {
                            let k = choose|k: int|
                                0 <= k < before.len() && (#[trigger] before[k]).0 == other;
                            assert(after[k] == before[k]);
                        } else if exists|k: int| 0 <= k < after.len() && (#[trigger] after[k]).0 == other {
                            let k = choose|k: int| 0 <= k < after.len() && (#[trigger] after[k]).0 == other;
                            assert(before[k].0 == other);
                        }
                    }
                }
            },
            None => {
                let place = self.networks.len() as u64;
                set_place(&mut self.index, letters_of(network_name), place);
                self.networks.push((network_name.to_owned(), trusted_keys));
                proof {
                    let after = self@;
                    assert(after =~= before.push(record));
                    assert(before.len() == place);
                    let places = held_places(self.index);
                    assert forall|k: int| 0 <= k < after.len() implies places.contains_key(
                        letters((#[trigger] after[k]).0),
                    ) && places[letters(after[k].0)] == k by {
                        if k < before.len() {
                            assert(after[k] == before[k]);
                            lemma_letters(before[k].0, network_name@);
                        }
                    }
                    assert forall|w: Seq<u64>| #[trigger] places.contains_key(w) implies exists|k: int|
                        0 <= k < after.len() && letters((#[trigger] after[k]).0) == w by {
                        if w == letters(network_name@) {
                            assert(letters(after[before.len() as int].0) == w);
                        } else {
                            assert(held_places(old(self).index).contains_key(w));
                            let k = choose|k: int|
                                0 <= k < before.len() && letters((#[trigger] before[k]).0) == w;
                            assert(after[k] == before[k]);
                        }
                    }
                    assert(after[before.len() as int].0 == network_name@);
                    assert forall|a: int, b: int| 0 <= a < b < after.len() implies (
                    #[trigger] after[a]).0 != (#[trigger] after[b]).0 by {
                        assert(after[a] == before[a]);
                        if b < before.len() {
                            assert(after[b] == before[b]);
                        }
                    }
                    assert forall|a: int| 0 <= a < after.len() implies ascending(
                        (#[trigger] after[a]).1,
                    ) by {
                        if a < before.len() {
                            assert(after[a] == before[a]);
                        }
                    }
                    assert forall|other: Seq<char>| other != network_name@ implies #[trigger] keys_of(
                        after,
                        other,
                    ) == keys_of(before, other) by {
                        if exists|k: int| 0 <= k < before.len() && (#[trigger] before[k]).0 == other {
                            let k = choose|k: int|
                                0 <= k < before.len() && (#[trigger] before[k]).0 == other;
                            assert(after[k] == before[k]);
                        } else if exists|k: int| 0 <= k < after.len() && (#[trigger] after[k]).0 == other {
                            let k = choose|k: int| 0 <= k < after.len() && (#[trigger] after[k]).0 == other;
                            assert(before[k].0 == other);
                        }
                    }
                }
            },
        }
    }

    /// Forgets all trusted keys of a network.
    pub fn remove_trusted_keys(&mut self, network_name: &str)
        requires
            old(self).wf(),
        ensures
            final(self).wf(),
            final(self).trusted(network_name@) is None,
            forall|other: Seq<char>|
                other != network_name@ ==> #[trigger] final(self).trusted(other) == old(
                    self,
                ).trusted(other),
    {
        let ghost before = self@;
        if let Some(i) = self.position(network_name) {
            let letters = letters_of(network_name);
            remove_place(&mut self.index, &letters);
            self.networks.remove(i);
            proof {
                assert(self@ =~= before.remove(i as int));
                lemma_gap_in_index(
                    held_places(old(self).index),
                    held_places(self.index),
                    before,
                    i as int,
                );
            }
            self.reindex_from(i);
            proof {
                let after = self@;
                assert forall|a: int, b: int| 0 <= a < b < after.len() implies (#[trigger] after[a]).0
                    != (#[trigger] after[b]).0 by {
                    let a0 = if a < i { a } else { a + 1 };
                    let b0 = if b < i { b } else { b + 1 };
                    assert(after[a] == before[a0] && after[b] == before[b0]);
                }
                assert forall|a: int| 0 <= a < after.len() implies ascending((#[trigger] after[a]).1) by {
                    let a0 = if a < i { a } else { a + 1 };
                    assert(after[a] == before[a0]);
                }
                if exists|k: int| 0 <= k < after.len() && (#[trigger] after[k]).0 == network_name@ {
                    let k = choose|k: int| 0 <= k < after.len() && (#[trigger] after[k]).0 == network_name@;
                    let k0 = if k < i { k } else { k + 1 };
                    assert(after[k] == before[k0]);
                    if k0 < i {
                        assert(before[k0].0 != before[i as int].0);
                    } else {
                        assert(before[i as int].0 != before[k0].0);
                    }
                }
                assert forall|other: Seq<char>| other != network_name@ implies #[trigger] keys_of(
                    after,
                    other,
                ) == keys_of(before, other) by {
                    if exists|k: int| 0 <= k < before.len() && (#[trigger] before[k]).0 == other {
                        let k = choose|k: int| 0 <= k < before.len() && (#[trigger] before[k]).0 == other;
                        let k1 = if k < i { k } else { k - 1 };
                        assert(after[k1] == before[k]);
                        let m = choose|m: int| 0 <= m < after.len() && (#[trigger] after[m]).0 == other;
                        if m < k1 {
                            assert(after[m].0 != after[k1].0);
                        } else if k1 < m {
                            assert(after[k1].0 != after[m].0);
                        }
                    } else if exists|k: int| 0 <= k < after.len() && (#[trigger] after[k]).0 == other {
                        let k = choose|k: int| 0 <= k < after.len() && (#[trigger] after[k]).0 == other;
                        let k0 = if k < i { k } else { k + 1 };
                        assert(before[k0] == after[k]);
                    }
                }
            }
        }
    }

    /// Sets the index right for the networks from place `i` on.
    fn reindex_from(&mut self, i: usize)
        requires
            i <= old(self)@.len(),
            finds_some(held_places(old(self).index), old(self)@, i as int),
            forall|a: int, b: int|
                0 <= a < b < old(self)@.len() ==> (#[trigger] old(self)@[a]).0 != (
                #[trigger] old(self)@[b]).0,
        ensures
            final(self)@ == old(self)@,
            final(self).indexed(),
    {
        let mut j: usize = i;
        let count = self.networks.len();
        while j < count
            invariant
                i <= j <= count,
                count == self.networks@.len(),
                self@ == old(self)@,
                self@.len() == count,
                finds_some(held_places(self.index), self@, j as int),
                forall|a: int, b: int|
                    0 <= a < b < self@.len() ==> (#[trigger] self@[a]).0 != (#[trigger] self@[b]).0,
            decreases count - j,
        {
            let ghost before = held_places(self.index);
            let letters = letters_of(self.networks[j].0.as_str());
            assert(letters@ == self::letters(self@[j as int].0));
            set_place(&mut self.index, letters, j as u64);
            proof {
                let places = held_places(self.index);
                let networks = self@;
                assert(networks =~= old(self)@);
                assert forall|k: int| 0 <= k < networks.len() implies places.contains_key(
                    self::letters((#[trigger] networks[k]).0),
                ) && (k < j + 1 ==> places[self::letters(networks[k].0)] == k) by {
                    lemma_letters(networks[k].0, networks[j as int].0);
                    if k < j {
                        assert(networks[k].0 != networks[j as int].0);
                    } else if j < k {
                        assert(networks[j as int].0 != networks[k].0);
                    }
                }
                assert forall|w: Seq<u64>| #[trigger] places.contains_key(w) implies exists|k: int|
                    0 <= k < networks.len() && self::letters((#[trigger] networks[k]).0) == w by {
                    if w == self::letters(networks[j as int].0) {
                        assert(self::letters(networks[j as int].0) == w);
                    } else {
                        assert(before.contains_key(w));
                    }
                }
            }
            j += 1;
        }
    }

    /// Tells whether the network trusts the key at the given time.
    pub fn verify_trusted_key_with_source(
        &self,
        pubkey: &[u8],
        network_name: &str,
        source: Option<TrustedKeySource>,
        now_unix: i64,
    ) -> (r: bool)
        requires
            self.wf(),
        ensures
            r == self.trusts(pubkey@, network_name@, source, now_unix),
    {
        let i = match self.position(network_name) {
            Some(i) => i,
            None => {
                return false;
            },
        };
        assert(self@[i as int].1 == self.networks@[i as int].1@);
        match self.networks[i].1.get(pubkey) {
            None => false,
            Some(metadata) => match source {
                Some(source) => metadata.source == source && !metadata.is_expired_at(now_unix),
                None => !metadata.is_expired_at(now_unix),
            },
        }
    }

    pub fn verify_trusted_key(&self, pubkey: &[u8], network_name: &str, now_unix: i64) -> (r: bool)
        requires
            self.wf(),
        ensures
            r == self.trusts(pubkey@, network_name@, None, now_unix),
    {
        self.verify_trusted_key_with_source(pubkey, network_name, None, now_unix)
    }

    /// The keys that the network trusts at the given time, in ascending order.
    pub fn list_trusted_keys(&self, network_name: &str, now_unix: i64) -> (r: Vec<
        (Vec<u8>, TrustedKeyMetadata),
    >)
        requires
            self.wf(),
        ensures
            ({
                let expected = match self.trusted(network_name@) {
                    Some(records) => unexpired(records, now_unix),
                    None => Seq::empty(),
                };
                &&& r@.len() == expected.len()
                &&& forall|i: int|
                    0 <= i < r@.len() ==> (#[trigger] r@[i]).0@ == expected[i].0 && r@[i].1
                        == expected[i].1
            }),
    {
        let mut out: Vec<(Vec<u8>, TrustedKeyMetadata)> = Vec::new();
        let n = match self.position(network_name) {
            Some(n) => n,
            None => {
                return out;
            },
        };
        let ghost records = self@[n as int].1;
        let ghost pred = |record: KeyRecord| !record.1.expired(now_unix);
        assert(records == self.networks@[n as int].1@);
        proof {
            reveal(Seq::filter);
            assert(records.take(0).filter(pred) =~= Seq::<KeyRecord>::empty());
        }
        let mut i: usize = 0;
        while i < self.networks[n].1.keys.len()
            invariant
                n < self.networks@.len(),
                records == self.networks@[n as int].1@,
                i <= self.networks@[n as int].1.keys@.len(),
                pred == |record: KeyRecord| !record.1.expired(now_unix),
                out@.len() == records.take(i as int).filter(pred).len(),
                forall|k: int|
                    0 <= k < out@.len() ==> (#[trigger] out@[k]).0@ == records.take(
                        i as int,
                    ).filter(pred)[k].0 && out@[k].1 == records.take(i as int).filter(pred)[k].1,
            decreases self.networks@[n as int].1.keys@.len() - i,
        {
            proof {
                reveal(Seq::filter);
                assert(records.take(i as int + 1).drop_last() =~= records.take(i as int));
                assert(records.take(i as int + 1).last() == records[i as int]);
            }
            let metadata = self.networks[n].1.keys[i].1;
            if !metadata.is_expired_at(now_unix) {
                out.push((copy_bytes(&self.networks[n].1.keys[i].0), metadata));
            }
            i += 1;
        }
        assert(records.take(i as int) =~= records);
        out
    }
}

fn copy_bytes(bytes: &Vec<u8>) -> (r: Vec<u8>)
    ensures
        r@ == bytes@,
{
    let mut out: Vec<u8> = Vec::new();
    let mut i: usize = 0;
    while i < bytes.len()
        invariant
            i <= bytes@.len(),
            out@ == bytes@.take(i as int),
        decreases bytes@.len() - i,
    {
        out.push(bytes[i]);
        i += 1;
        assert(bytes@.take(i as int) =~= bytes@.take(i as int - 1).push(bytes@[i as int - 1]));
    }
    assert(bytes@.take(i as int) =~= bytes@);
    out
}

/// A key that is looked up with a source is also trusted without one, and never under the other
/// source.
pub proof fn law_source_lookup_is_precise(
    manager: TrustedKeyMapManager,
    pubkey: Seq<u8>,
    network_name: Seq<char>,
    source: TrustedKeySource,
    other: TrustedKeySource,
    now_unix: i64,
)
    requires
        manager.trusts(pubkey, network_name, Some(source), now_unix),
        other != source,
    ensures
        manager.trusts(pubkey, network_name, None, now_unix),
        !manager.trusts(pubkey, network_name, Some(other), now_unix),
{
}

/// A key without an expiry never expires; any other is expired from its expiry on, and not before.
pub proof fn law_expiry_of_keys(metadata: TrustedKeyMetadata, now_unix: i64, later: i64)
    requires
        now_unix <= later,
    ensures
        metadata.expiry_unix is None ==> !metadata.expired(now_unix),
        metadata.expiry_unix is Some ==> (metadata.expired(now_unix) <==> metadata.expiry_unix->0
            <= now_unix),
        metadata.expired(now_unix) ==> metadata.expired(later),
{
}

/// Byte strings are in one order: of two different ones exactly one comes before the other, and none
/// comes before itself. A string comes before those that it begins.
pub proof fn law_order_of_byte_strings(a: Seq<u8>, b: Seq<u8>, c: Seq<u8>)
    ensures
        !bytes_before(a, a),
        a != b ==> bytes_before(a, b) || bytes_before(b, a),
        !(bytes_before(a, b) && bytes_before(b, a)),
        bytes_before(a, b) && bytes_before(b, c) ==> bytes_before(a, c),
        b.len() > 0 ==> bytes_before(a, a + b),
        a.len() > 0 && b.len() > 0 && a[0] < b[0] ==> bytes_before(a, b),
{
    lemma_bytes_total(a, b);
    lemma_bytes_total(a, a);
    if bytes_before(a, b) && bytes_before(b, c) {
        lemma_bytes_transitive(a, b, c);
    }
    if bytes_before(a, b) && bytes_before(b, a) {
        lemma_bytes_transitive(a, b, a);
    }
    if b.len() > 0 {
        lemma_begun_string_is_later(a, b);
    }
}

proof fn lemma_begun_string_is_later(a: Seq<u8>, b: Seq<u8>)
    requires
        b.len() > 0,
    ensures
        bytes_before(a, a + b),
    decreases a.len(),
{
    if a.len() > 0 {
        let rest = a.subrange(1, a.len() as int);
        lemma_begun_string_is_later(rest, b);
        let whole = a + b;
        assert(whole.subrange(1, whole.len() as int) =~= rest + b);
        assert(whole[0] == a[0]);
    }
}

/// The records that are left are those that have not expired.
pub proof fn law_expired_records_go(records: Seq<KeyRecord>, now_unix: i64, record: KeyRecord)
    ensures
        unexpired(records, now_unix).contains(record) <==> records.contains(record) && (
        record.1.expiry_unix is None || now_unix < record.1.expiry_unix->0),
{
    crate::stealth_registry::lemma_filter_holds(
        records,
        |record: KeyRecord| !record.1.expired(now_unix),
        record,
    );
}

/// A network trusts a key just where the key is recorded for that network, has not expired, and comes
/// from the source that is asked for, if one is.
pub proof fn law_trusted_keys_are_recorded(
    manager: TrustedKeyMapManager,
    pubkey: Seq<u8>,
    network_name: Seq<char>,
    source: Option<TrustedKeySource>,
    now_unix: i64,
    n: int,
    i: int,
)
    requires
        manager.wf(),
        0 <= n < manager@.len(),
        manager@[n].0 == network_name,
    ensures
        0 <= i < manager@[n].1.len() && manager@[n].1[i].0 == pubkey ==> (manager.trusts(
            pubkey,
            network_name,
            source,
            now_unix,
        ) <==> ({
            let metadata = manager@[n].1[i].1;
            &&& metadata.expiry_unix is None || now_unix < metadata.expiry_unix->0
            &&& source is None || source->0 == metadata.source
        })),
        (forall|k: int| 0 <= k < manager@[n].1.len() ==> (#[trigger] manager@[n].1[k]).0 != pubkey)
            ==> !manager.trusts(pubkey, network_name, source, now_unix),
{
    let networks = manager@;
    let found = choose|k: int| 0 <= k < networks.len() && (#[trigger] networks[k]).0 == network_name;
    assert(networks[n].0 == network_name);
    assert(found == n) by {
        if found < n {
            assert(manager@[found].0 != manager@[n].0);
        } else if n < found {
            assert(manager@[n].0 != manager@[found].0);
        }
    }
    let records = networks[n].1;
    assert(manager.trusted(network_name) == Some(records));
    if 0 <= i < records.len() && records[i].0 == pubkey {
        assert(ascending(manager@[n].1));
        lemma_known(records, i);
    }
}

/// A network of which nothing is known trusts no key.
pub proof fn law_unknown_networks_trust_nobody(
    manager: TrustedKeyMapManager,
    pubkey: Seq<u8>,
    network_name: Seq<char>,
    source: Option<TrustedKeySource>,
    now_unix: i64,
)
    requires
        forall|n: int| 0 <= n < manager@.len() ==> (#[trigger] manager@[n]).0 != network_name,
    ensures
        !manager.trusts(pubkey, network_name, source, now_unix),
{
}

} // verus!
