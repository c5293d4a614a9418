//! Sets of texts.
use vstd::prelude::*;

use crate::text::texts_of;

verus! {

/// The concurrent set of `dashmap`.
#[verifier::external_type_specification]
#[verifier::external_body]
#[verifier::reject_recursive_types(K)]
#[verifier::reject_recursive_types(S)]
pub struct ExDashSet<K, S>(dashmap::DashSet<K, S>);

/// The texts that a set holds.
pub type Texts = Set<Seq<char>>;

/// What a set of `dashmap` holds.
pub uninterp spec fn held_texts(set: dashmap::DashSet<String>) -> Texts;

/// No text occurs twice.
pub open spec fn distinct_texts(items: Seq<String>) -> bool {
    forall|i: int, j: int|
        0 <= i < j < items.len() ==> (#[trigger] items[i])@ != (#[trigger] items[j])@
}

/// Makes an empty set with `dashmap::DashSet::new`. What is claimed of it: it holds nothing.
#[verifier::external_body]
fn new_set() -> (r: dashmap::DashSet<String>)
    ensures
        held_texts(r) == Texts::empty(),
{
    dashmap::DashSet::new()
}

/// Asks for a text with `dashmap::DashSet::contains`. What is claimed of it: it tells whether the
/// text is held.
#[verifier::external_body]
fn has_text(set: &dashmap::DashSet<String>, text: &str) -> (r: bool)
    ensures
        r == held_texts(*set).contains(text@),
{
    set.contains(text)
}

/// Puts a text in with `dashmap::DashSet::insert`. What is claimed of it: the text is held
/// afterwards, no other is affected, and the result tells whether the text is new.
#[verifier::external_body]
fn add_text(set: &mut dashmap::DashSet<String>, text: String) -> (r: bool)
    ensures
        held_texts(*final(set)) == held_texts(*old(set)).insert(text@),
        r == !held_texts(*old(set)).contains(text@),
{
    set.insert(text)
}

/// Takes a text out with `dashmap::DashSet::remove`. What is claimed of it: the text is not held
/// afterwards, no other is affected, and the text is given back if it was held.
#[verifier::external_body]
fn remove_text(set: &mut dashmap::DashSet<String>, text: &str) -> (r: Option<String>)
    ensures
        held_texts(*final(set)) == held_texts(*old(set)).remove(text@),
        r is Some == held_texts(*old(set)).contains(text@),
        r is Some ==> r->0@ == text@,
{
    set.remove(text)
}

/// Takes all texts out with `dashmap::DashSet::clear`. What is claimed of it: nothing is held
/// afterwards.
#[verifier::external_body]
fn remove_all_texts(set: &mut dashmap::DashSet<String>)
    ensures
        held_texts(*final(set)) == Texts::empty(),
{
    set.clear();
}

/// Hands out copies of the texts with `dashmap::DashSet::iter`. What is claimed of it: each text
/// that is held comes once, and no other comes. In which order they come is not stated: that
/// depends on how the set hashes them, which differs from set to set.
#[verifier::external_body]
fn copy_texts(set: &dashmap::DashSet<String>) -> (r: Vec<String>)
    ensures
        texts_of(r@) == held_texts(*set),
        distinct_texts(r@),
{
    set.iter().map(|text| text.key().clone()).collect()
}

/// A set of texts.
pub struct TextSet {
    texts: dashmap::DashSet<String>,
}

impl View for TextSet {
    type V = Texts;

    closed spec fn view(&self) -> Texts {
        held_texts(self.texts)
    }
}

impl TextSet {
    pub fn new() -> (r: Self)
        ensures
            r@ == Texts::empty(),
    {
        TextSet { texts: new_set() }
    }

    pub fn contains(&self, text: &str) -> (r: bool)
        ensures
            r == self@.contains(text@),
    {
        has_text(&self.texts, text)
    }

    /// Adds a text; tells whether it is new.
    pub fn insert(&mut self, text: &str) -> (r: bool)
        ensures
            final(self)@ == old(self)@.insert(text@),
            r == !old(self)@.contains(text@),
    {
        add_text(&mut self.texts, text.to_owned())
    }

    /// Takes a text out; tells whether it was there.
    pub fn remove(&mut self, text: &str) -> (r: bool)
        ensures
            final(self)@ == old(self)@.remove(text@),
            r == old(self)@.contains(text@),
    {
        match remove_text(&mut self.texts, text) {
            Some(_) => true,
            None => false,
        }
    }

    pub fn clear(&mut self)
        ensures
            final(self)@ == Texts::empty(),
    {
        remove_all_texts(&mut self.texts);
    }

    /// The texts, each of them once, in any order.
    pub fn texts(&self) -> (r: Vec<String>)
        ensures
            texts_of(r@) == self@,
            distinct_texts(r@),
    {
        copy_texts(&self.texts)
    }
}

} // verus!
