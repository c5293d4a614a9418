//! What is left alone for a while: peers, addresses, and the URLs of peers. An entry says for how
//! many seconds it was put on its list. Whether they are over is a matter of the clock: what is known
//! of an entry is that it may be there.
use vstd::prelude::*;

use crate::addr::{PeerId, SocketAddress};
use crate::expiring_table::{key_view, EntryKey, ExpiringTable, KeyView};

verus! {

spec fn peer_key(peer_id: PeerId) -> KeyView {
    (peer_id, 0, 0, 0, Seq::empty())
}

fn key_of_peer(peer_id: PeerId) -> (r: EntryKey)
    ensures
        key_view(r) == peer_key(peer_id),
{
    let text = String::new();
    assert(text@ =~= Seq::<char>::empty());
    (peer_id, 0, 0, 0, text)
}

/// A set of peers that are left alone for a while.
pub struct PeerBlacklist {
    table: ExpiringTable,
}

impl View for PeerBlacklist {
    type V = Map<u32, u64>;

    /// The peers that may be on the list, and for how many seconds each was put on it.
    closed spec fn view(&self) -> Map<u32, u64> {
        Map::new(
            |peer_id: u32| self.table@.contains_key(peer_key(peer_id)),
            |peer_id: u32| self.table@[peer_key(peer_id)].2,
        )
    }
}

impl PeerBlacklist {
    pub fn new() -> (r: Self)
        ensures
            r@ == Map::<u32, u64>::empty(),
    {
        let list = PeerBlacklist { table: ExpiringTable::new() };
        assert(list@ =~= Map::<u32, u64>::empty());
        list
    }

    /// Leaves a peer alone for a number of seconds.
    pub fn insert(&mut self, peer_id: PeerId, secs: u64)
        requires
            secs <= u32::MAX,
        ensures
            final(self)@ == old(self)@.insert(peer_id, secs),
    {
        self.table.insert(key_of_peer(peer_id), (0, 0, secs));
        assert(self@ =~= old(self)@.insert(peer_id, secs));
    }

    /// Gives up the room of the entries that are over. No answer changes by that.
    pub fn cleanup(&mut self)
        ensures
            final(self)@ == old(self)@,
    {
        self.table.cleanup();
        assert(self@ =~= old(self)@);
    }

    /// Tells whether a peer is left alone. One that was never put on the list is not.
    pub fn contains(&mut self, peer_id: PeerId) -> (r: bool)
        ensures
            r ==> old(self)@.contains_key(peer_id),
            final(self)@ == (if r {
                old(self)@
            } else {
                old(self)@.remove(peer_id)
            }),
    {
        let found = self.table.get(&key_of_peer(peer_id)).is_some();
        assert(self@ =~= (if found {
            old(self)@
        } else {
            old(self)@.remove(peer_id)
        }));
        found
    }
}

spec fn address_key(addr: SocketAddress) -> KeyView {
    match addr {
        SocketAddress::V4 { ipv4, port } => (port as u32, ipv4 as u128, 0, 0, Seq::empty()),
        SocketAddress::V6 { ipv6, port, flowinfo, scope_id } => (
            (0x10000 + port) as u32,
            ipv6,
            flowinfo,
            scope_id,
            Seq::empty(),
        ),
    }
}

fn key_of_address(addr: SocketAddress) -> (r: EntryKey)
    ensures
        key_view(r) == address_key(addr),
{
    let text = String::new();
    assert(text@ =~= Seq::<char>::empty());
    match addr {
        SocketAddress::V4 { ipv4, port } => (port as u32, ipv4 as u128, 0, 0, text),
        SocketAddress::V6 { ipv6, port, flowinfo, scope_id } => (
            0x10000 + port as u32,
            ipv6,
            flowinfo,
            scope_id,
            text,
        ),
    }
}

/// A set of addresses that are left alone for a while.
pub struct AddressBlacklist {
    table: ExpiringTable,
}

impl View for AddressBlacklist {
    type V = Map<SocketAddress, u64>;

    /// The addresses that may be on the list, and for how many seconds each was put on it.
    closed spec fn view(&self) -> Map<SocketAddress, u64> {
        Map::new(
            |addr: SocketAddress| self.table@.contains_key(address_key(addr)),
            |addr: SocketAddress| self.table@[address_key(addr)].2,
        )
    }
}

impl AddressBlacklist {
    pub fn new() -> (r: Self)
        ensures
            r@ == Map::<SocketAddress, u64>::empty(),
    {
        let list = AddressBlacklist { table: ExpiringTable::new() };
        assert(list@ =~= Map::<SocketAddress, u64>::empty());
        list
    }

    /// Leaves an address alone for a number of seconds.
    pub fn insert(&mut self, addr: SocketAddress, secs: u64)
        requires
            secs <= u32::MAX,
        ensures
            final(self)@ == old(self)@.insert(addr, secs),
    {
        self.table.insert(key_of_address(addr), (0, 0, secs));
        assert(self@ =~= old(self)@.insert(addr, secs));
    }

    /// Gives up the room of the entries that are over. No answer changes by that.
    pub fn cleanup(&mut self)
        ensures
            final(self)@ == old(self)@,
    {
        self.table.cleanup();
        assert(self@ =~= old(self)@);
    }

    /// Tells whether an address is left alone. One that was never put on the list is not.
    pub fn contains(&mut self, addr: SocketAddress) -> (r: bool)
        ensures
            r ==> old(self)@.contains_key(addr),
            final(self)@ == (if r {
                old(self)@
            } else {
                old(self)@.remove(addr)
            }),
    {
        let found = self.table.get(&key_of_address(addr)).is_some();
        assert(self@ =~= (if found {
            old(self)@
        } else {
            old(self)@.remove(addr)
        }));
        found
    }
}

spec fn url_key(peer_id: PeerId, url: Seq<char>) -> KeyView {
    (peer_id, 0, 0, 0, url)
}

fn key_of_url(peer_id: PeerId, url: &str) -> (r: EntryKey)
    ensures
        key_view(r) == url_key(peer_id, url@),
{
    (peer_id, 0, 0, 0, url.to_owned())
}

/// A set of URLs of peers that are left alone for a while.
pub struct UrlBlacklist {
    table: ExpiringTable,
}

impl View for UrlBlacklist {
    type V = Map<(u32, Seq<char>), u64>;

    /// The peers and their URLs that may be on the list, and for how many seconds each was put on it.
    closed spec fn view(&self) -> Map<(u32, Seq<char>), u64> {
        Map::new(
            |item: (u32, Seq<char>)| self.table@.contains_key(url_key(item.0, item.1)),
            |item: (u32, Seq<char>)| self.table@[url_key(item.0, item.1)].2,
        )
    }
}

impl UrlBlacklist {
    pub fn new() -> (r: Self)
        ensures
            r@ == Map::<(u32, Seq<char>), u64>::empty(),
    {
        let list = UrlBlacklist { table: ExpiringTable::new() };
        assert(list@ =~= Map::<(u32, Seq<char>), u64>::empty());
        list
    }

    /// Leaves a URL of a peer alone for a number of seconds.
    pub fn insert(&mut self, peer_id: PeerId, url: &str, secs: u64)
        requires
            secs <= u32::MAX,
        ensures
            final(self)@ == old(self)@.insert((peer_id, url@), secs),
    {
        self.table.insert(key_of_url(peer_id, url), (0, 0, secs));
        assert(self@ =~= old(self)@.insert((peer_id, url@), secs));
    }

    /// Gives up the room of the entries that are over. No answer changes by that.
    pub fn cleanup(&mut self)
        ensures
            final(self)@ == old(self)@,
    {
        self.table.cleanup();
        assert(self@ =~= old(self)@);
    }

    /// Tells whether a URL of a peer is left alone. One that was never put on the list is not.
    pub fn contains(&mut self, peer_id: PeerId, url: &str) -> (r: bool)
        ensures
            r ==> old(self)@.contains_key((peer_id, url@)),
            final(self)@ == (if r {
                old(self)@
            } else {
                old(self)@.remove((peer_id, url@))
            }),
    {
        let found = self.table.get(&key_of_url(peer_id, url)).is_some();
        assert(self@ =~= (if found {
            old(self)@
        } else {
            old(self)@.remove((peer_id, url@))
        }));
        found
    }
}

} // verus!
