//! The broker that keeps, for one kind of message, the subscribers that
//! want it, keyed by subscription id.
use fnv::FnvHasher;
use std::collections::HashMap;
use std::hash::BuildHasherDefault;
use vstd::prelude::*;

verus! {

/// Declares `fnv::FnvHasher`, the hasher of the subscription map.
#[verifier::external_type_specification]
#[verifier::external_body]
pub struct ExFnvHasher(FnvHasher);

/// Declares `std::hash::BuildHasherDefault`, which builds the map's hashers.
#[verifier::external_type_specification]
#[verifier::external_body]
#[verifier::reject_recursive_types(H)]
pub struct ExBuildHasherDefault<H>(BuildHasherDefault<H>);

/// The map from subscription ids to senders, hashed with FNV.
pub type SubscriptionMap<S> = HashMap<u64, S, BuildHasherDefault<FnvHasher>>;

/// An empty subscription map.
///
/// Wraps `HashMap::default` with the FNV hasher, which builds an empty map.
#[verifier::external_body]
fn fnv_map_new<S>() -> (fresh: SubscriptionMap<S>)
    ensures
        fresh@.dom() == Set::<u64>::empty(),
{
    HashMap::default()
}

/// Maps a key to a value, replacing any earlier value.
///
/// Wraps `HashMap::insert`; with `u64` keys and the deterministic FNV hasher
/// the map behaves as std documents: afterwards the key maps to the value
/// and no other key changes.
#[verifier::external_body]
fn fnv_map_insert<S>(m: &mut SubscriptionMap<S>, key: u64, value: S)
    ensures
        final(m)@ == old(m)@.insert(key, value),
{
    m.insert(key, value);
}

/// Removes a key.
///
/// Wraps `HashMap::remove`, which std documents to remove the key, if it is
/// there, and to leave every other key as it was.
#[verifier::external_body]
fn fnv_map_remove<S>(m: &mut SubscriptionMap<S>, key: u64)
    ensures
        final(m)@ == old(m)@.remove(key),
{
    m.remove(&key);
}

/// The keys of the map, each once, in an order the map chooses.
///
/// Wraps `HashMap::keys`, which std documents to visit every key once in
/// arbitrary order; the keys are collected as visited. Which order comes out
/// is left open.
#[verifier::external_body]
fn fnv_map_keys<S>(m: &SubscriptionMap<S>) -> (keys: Vec<u64>)
    ensures
        keys@.to_set() == m@.dom(),
        keys@.no_duplicates(),
{
    m.keys().copied().collect()
}

/// The value a key maps to.
///
/// Wraps `HashMap::get`, which std documents to return the key's value, or
/// `None` when the key is absent.
#[verifier::external_body]
fn fnv_map_get<S>(m: &SubscriptionMap<S>, key: u64) -> (value: Option<&S>)
    ensures
        value == (if m@.contains_key(key) {
            Some(&m@[key])
        } else {
            None
        }),
{
    m.get(&key)
}

/// Asks a broker to deliver its messages to `sender` under subscription `id`.
pub struct Subscribe<S> {
    pub id: u64,
    pub sender: S,
}

/// Asks a broker to stop delivering to subscription `id`.
pub struct Unsubscribe {
    pub id: u64,
}

/// The subscribers of one kind of message, keyed by subscription id.
pub struct Broker<S> {
    subscribes: SubscriptionMap<S>,
}

impl<S> View for Broker<S> {
    type V = Map<u64, S>;

    closed spec fn view(&self) -> Map<u64, S> {
        self.subscribes@
    }
}

impl<S> Default for Broker<S> {
    /// A broker with no subscribers.
    fn default() -> (b: Broker<S>)
        ensures
            b@ == Map::<u64, S>::empty(),
    {
        let b = Broker { subscribes: fnv_map_new() };
        assert(b@ =~= Map::<u64, S>::empty());
        b
    }
}

impl<S> Broker<S> {
    /// Records a subscription, replacing any earlier one with the same id.
    pub fn subscribe(&mut self, msg: Subscribe<S>)
        ensures
            final(self)@ == old(self)@.insert(msg.id, msg.sender),
    {
        fnv_map_insert(&mut self.subscribes, msg.id, msg.sender);
    }

    /// Ends a subscription, if there is one with that id.
    pub fn unsubscribe(&mut self, msg: Unsubscribe)
        ensures
            final(self)@ == old(self)@.remove(msg.id),
    {
        fnv_map_remove(&mut self.subscribes, msg.id);
    }

    /// The ids that a published message goes to: every subscription, once.
    pub fn recipients(&self) -> (ids: Vec<u64>)
        ensures
            ids@.to_set() == self@.dom(),
            ids@.no_duplicates(),
    {
        fnv_map_keys(&self.subscribes)
    }

    /// The sender of a subscription.
    pub fn subscriber(&self, id: u64) -> (sender: Option<&S>)
        ensures
            sender == (if self@.contains_key(id) {
                Some(&self@[id])
            } else {
                None
            }),
    {
        fnv_map_get(&self.subscribes, id)
    }
}

/// Law: a subscription maps its id to its sender and adds only that id to
/// the key set; unsubscribing undoes a new subscription and restores the key
/// set; unsubscribing an absent id changes nothing; a later subscription
/// with the same id replaces the earlier one; subscriptions with other ids
/// are unaffected.
pub proof fn lemma_subscriptions<S>(m: Map<u64, S>, id: u64, other: u64, s1: S, s2: S)
    ensures
        m.insert(id, s1)[id] == s1,
        m.insert(id, s1).dom() == m.dom().insert(id),
        !m.contains_key(id) ==> m.insert(id, s1).remove(id).dom() == m.dom(),
        !m.contains_key(id) ==> m.remove(id) == m,
        !m.contains_key(id) ==> m.insert(id, s1).remove(id) == m,
        m.insert(id, s1).insert(id, s2) == m.insert(id, s2),
        other != id ==> m.insert(id, s1).remove(id).contains_key(other) == m.contains_key(other),
        other != id && m.contains_key(other) ==> m.insert(id, s1)[other] == m[other],
{
    assert(m.insert(id, s1).dom() =~= m.dom().insert(id));
    if !m.contains_key(id) {
        assert(m.insert(id, s1).remove(id) =~= m);
        assert(m.remove(id) =~= m);
    }
    assert(m.insert(id, s1).insert(id, s2) =~= m.insert(id, s2));
}

} // verus!
