//! Registries of live handles: each handle is moved in once and taken out
//! once, by the id it was registered under, so that it is released once.
use std::collections::HashMap;
use vstd::prelude::*;
use vstd::std_specs::hash::group_hash_axioms;

verus! {

broadcast use group_hash_axioms;

/// Writer halves of forwarded TCP streams, by stream id.
pub struct TcpWriteStreamMap<W> {
    writers: HashMap<u32, W>,
}

impl<W> TcpWriteStreamMap<W> {
    /// The handles held, by stream id.
    pub closed spec fn view(&self) -> Map<u32, W> {
        self.writers@
    }

    pub fn new() -> (r: Self)
        ensures
            r.view() == Map::<u32, W>::empty(),
    {
        TcpWriteStreamMap { writers: HashMap::new() }
    }

    /// Registers the writer of stream `id`; one registered before under
    /// that id is handed back.
    pub fn put(&mut self, id: u32, wr: W) -> (r: Option<W>)
        ensures
            final(self).view() == old(self).view().insert(id, wr),
            r == old(self).view().get(id),
    {
        self.writers.insert(id, wr)
    }

    /// The writer of stream `id`, if one is registered.
    pub fn get(&self, id: u32) -> (r: Option<&W>)
        ensures
            r is Some <==> self.view().contains_key(id),
            r is Some ==> *r->0 == self.view()[id],
    {
        self.writers.get(&id)
    }

    /// Takes the writer of stream `id` out, for the caller to shut down;
    /// a second call for the same id finds nothing.
    pub fn end(&mut self, id: u32) -> (r: Option<W>)
        ensures
            final(self).view() == old(self).view().remove(id),
            r == old(self).view().get(id),
    {
        self.writers.remove(&id)
    }
}

/// The single `u64` that a rule key is stored under.
pub open spec fn rule_slot(session_id: u32, channel_id: u32) -> u64 {
    (session_id as int * 0x1_0000_0000 + channel_id as int) as u64
}

fn slot(session_id: u32, channel_id: u32) -> (r: u64)
    ensures
        r == rule_slot(session_id, channel_id),
{
    (session_id as u64) * 0x1_0000_0000u64 + (channel_id as u64)
}

proof fn lemma_slot_injective(a: (u32, u32), b: (u32, u32))
    ensures
        rule_slot(a.0, a.1) == rule_slot(b.0, b.1) ==> a == b,
{
}

/// Accept loops of bound listeners, by the (session, channel) key of their
/// rule.
pub struct TcpListenerMap<L> {
    listeners: HashMap<u64, L>,
}

impl<L> TcpListenerMap<L> {
    /// The handles held, by rule key.
    pub closed spec fn view(&self) -> Map<(u32, u32), L> {
        Map::new(
            |k: (u32, u32)| self.listeners@.contains_key(rule_slot(k.0, k.1)),
            |k: (u32, u32)| self.listeners@[rule_slot(k.0, k.1)],
        )
    }

    pub fn new() -> (r: Self)
        ensures
            r.view() == Map::<(u32, u32), L>::empty(),
    {
        let r = TcpListenerMap { listeners: HashMap::new() };
        assert(r.view() =~= Map::<(u32, u32), L>::empty());
        r
    }

    /// Registers the accept loop of a rule; one registered before under
    /// that key is handed back.
    pub fn put(&mut self, session_id: u32, channel_id: u32, listener: L) -> (r: Option<L>)
        ensures
            final(self).view() == old(self).view().insert((session_id, channel_id), listener),
            r == old(self).view().get((session_id, channel_id)),
    {
        let ghost k = (session_id, channel_id);
        let ghost l = listener;
        let r = self.listeners.insert(slot(session_id, channel_id), listener);
        assert forall|j: (u32, u32)| #[trigger] self.view().contains_key(j) == old(self).view().insert(k, l).contains_key(j) by {
            lemma_slot_injective(j, k);
        }
        assert forall|j: (u32, u32)| #[trigger] self.view().contains_key(j) implies self.view()[j] == old(self).view().insert(k, l)[j] by {
            lemma_slot_injective(j, k);
        }
        assert(self.view() =~= old(self).view().insert(k, l));
        r
    }

    /// Takes the accept loop of a rule out, for the caller to cancel; safe
    /// to call when it has already been taken.
    pub fn end(&mut self, session_id: u32, channel_id: u32) -> (r: Option<L>)
        ensures
            final(self).view() == old(self).view().remove((session_id, channel_id)),
            r == old(self).view().get((session_id, channel_id)),
    {
        let ghost k = (session_id, channel_id);
        let r = self.listeners.remove(&slot(session_id, channel_id));
        assert forall|j: (u32, u32)| #[trigger] self.view().contains_key(j) == old(self).view().remove(k).contains_key(j) by {
            lemma_slot_injective(j, k);
        }
        assert(self.view() =~= old(self).view().remove(k));
        r
    }
}

} // verus!
