//! A table whose entries expire. An entry says for how long it was put in. Whether that time is over
//! is a matter of the clock: what is known of an entry is that it may be there.
use vstd::prelude::*;
use timedmap::Cleanup as _;

verus! {

/// The time of `std::time::Instant`, which the entries of `timedmap::TimedMap` hold.
#[verifier::external_type_specification]
#[verifier::external_body]
pub struct ExInstant(std::time::Instant);

/// The map of `timedmap`, whose entries expire.
#[verifier::external_type_specification]
#[verifier::external_body]
#[verifier::reject_recursive_types(K)]
#[verifier::reject_recursive_types(V)]
#[verifier::reject_recursive_types(TS)]
pub struct ExTimedMap<K, V, TS>(timedmap::TimedMap<K, V, TS>);

/// A key: numbers, and a text.
pub type EntryKey = (u32, u128, u32, u32, String);

/// An `EntryKey` as a mathematical value.
pub type KeyView = (u32, u128, u32, u32, Seq<char>);

/// What an entry holds: two numbers, and the seconds for which it was put in.
pub type EntryValue = (u8, u64, u64);

/// What a table holds.
pub type Entries = Map<KeyView, EntryValue>;

pub open spec fn key_view(key: EntryKey) -> KeyView {
    (key.0, key.1, key.2, key.3, key.4@)
}

/// What a map of `timedmap` holds, the entries that have expired and were not cleared away among
/// them.
pub uninterp spec fn held_entries(
    map: timedmap::TimedMap<EntryKey, EntryValue, std::time::Instant>,
) -> Entries;

/// Makes an empty map with `timedmap::TimedMap::new`. What is claimed of it: it holds nothing.
#[verifier::external_body]
fn new_map() -> (r: timedmap::TimedMap<EntryKey, EntryValue, std::time::Instant>)
    ensures
        held_entries(r) == Entries::empty(),
{
    timedmap::TimedMap::new()
}

/// Puts an entry in with `timedmap::TimedMap::insert`, for the seconds that the value says. What is
/// claimed of it: the key has the value afterwards, and no other key is affected. When the entry
/// stops to be found is not stated: that is a matter of the clock. The lifetime is kept within what
/// can be added to any time.
#[verifier::external_body]
fn insert_entry(
    map: &mut timedmap::TimedMap<EntryKey, EntryValue, std::time::Instant>,
    key: EntryKey,
    value: EntryValue,
)
    requires
        value.2 <= u32::MAX,
    ensures
        held_entries(*final(map)) == held_entries(*old(map)).insert(key_view(key), value),
{
    map.insert(key, value, std::time::Duration::from_secs(value.2));
}

/// Asks for an entry with `timedmap::TimedMap::get`. What is claimed of it: what it gives is what is
/// held, and of a key for which it gives nothing, because it was never put in or has expired,
/// nothing is held afterwards. Whether an entry has expired is a matter of the clock.
#[verifier::external_body]
fn get_entry(
    map: &mut timedmap::TimedMap<EntryKey, EntryValue, std::time::Instant>,
    key: &EntryKey,
) -> (r: Option<EntryValue>)
    ensures
        r is Some ==> held_entries(*old(map)).contains_key(key_view(*key)) && r->0 == held_entries(
            *old(map),
        )[key_view(*key)],
        held_entries(*final(map)) == (if r is Some {
            held_entries(*old(map))
        } else {
            held_entries(*old(map)).remove(key_view(*key))
        }),
{
    map.get(key)
}

/// Takes an entry out with `timedmap::TimedMap::remove`. What is claimed of it: the key is not held
/// afterwards, and no other key is affected.
#[verifier::external_body]
fn remove_entry(map: &mut timedmap::TimedMap<EntryKey, EntryValue, std::time::Instant>, key: &EntryKey)
    ensures
        held_entries(*final(map)) == held_entries(*old(map)).remove(key_view(*key)),
{
    map.remove(key);
}

/// Clears away the entries that have expired with `cleanup` of `timedmap::Cleanup`. What is claimed
/// of it: nothing is put in and what stays is as it was. Which entries have expired is a matter of
/// the clock.
#[verifier::external_body]
fn clear_expired(map: &mut timedmap::TimedMap<EntryKey, EntryValue, std::time::Instant>)
    ensures
        held_entries(*final(map)).submap_of(held_entries(*old(map))),
{
    map.cleanup();
}

/// A table whose entries expire.
pub struct ExpiringTable {
    map: timedmap::TimedMap<EntryKey, EntryValue, std::time::Instant>,
    /// What the table held when it was last cleaned, without what was seen to be gone since.
    cleaned: Ghost<Entries>,
}

impl View for ExpiringTable {
    type V = Entries;

    /// The entries that were put in and have not been seen to be gone. Each of them may be there,
    /// and no other is.
    closed spec fn view(&self) -> Entries {
        self.cleaned@.union_prefer_right(held_entries(self.map))
    }
}

impl ExpiringTable {
    /// The entries that take up room.
    pub closed spec fn held(&self) -> Entries {
        held_entries(self.map)
    }

    pub fn new() -> (r: Self)
        ensures
            r@ == Entries::empty(),
            r.held() == Entries::empty(),
    {
        let table = ExpiringTable { map: new_map(), cleaned: Ghost(Entries::empty()) };
        assert(table@ =~= Entries::empty());
        table
    }

    /// Puts an entry in for the seconds that it says.
    pub fn insert(&mut self, key: EntryKey, value: EntryValue)
        requires
            value.2 <= u32::MAX,
        ensures
            final(self)@ == old(self)@.insert(key_view(key), value),
            final(self).held() == old(self).held().insert(key_view(key), value),
    {
        insert_entry(&mut self.map, key, value);
        assert(self@ =~= old(self)@.insert(key_view(key), value));
    }

    /// Asks for an entry. There is none for a key that was never put in.
    pub fn get(&mut self, key: &EntryKey) -> (r: Option<EntryValue>)
        ensures
            r is Some ==> old(self)@.contains_key(key_view(*key)) && r->0 == old(self)@[key_view(
                *key,
            )],
            final(self)@ == (if r is Some {
                old(self)@
            } else {
                old(self)@.remove(key_view(*key))
            }),
    {
        let found = get_entry(&mut self.map, key);
        if found.is_none() {
            self.cleaned = Ghost(self.cleaned@.remove(key_view(*key)));
            assert(self@ =~= old(self)@.remove(key_view(*key)));
        }
        found
    }

    pub fn remove(&mut self, key: &EntryKey)
        ensures
            final(self)@ == old(self)@.remove(key_view(*key)),
    {
        remove_entry(&mut self.map, key);
        self.cleaned = Ghost(self.cleaned@.remove(key_view(*key)));
        assert(self@ =~= old(self)@.remove(key_view(*key)));
    }

    /// Gives up the room of the entries that have expired. What is known of the entries stays: one
    /// that is cleared away would not have been found either.
    pub fn cleanup(&mut self)
        ensures
            final(self)@ == old(self)@,
            final(self).held().submap_of(old(self).held()),
    {
        let ghost known = self@;
        clear_expired(&mut self.map);
        self.cleaned = Ghost(known);
        assert(self@ =~= known);
    }
}

} // verus!
