use std::collections::HashMap;
use vstd::prelude::*;

verus! {

broadcast use vstd::std_specs::hash::group_hash_axioms;

/// The response-delivery callbacks of one server, keyed by session identifier.
///
/// An identifier is present exactly while the session it names is alive.
pub struct Registry<C> {
    callbacks: HashMap<u32, C>,
}

impl<C> View for Registry<C> {
    type V = Map<u32, C>;

    closed spec fn view(&self) -> Map<u32, C> {
        self.callbacks@
    }
}

impl<C> Registry<C> {
    /// An empty registry.
    pub fn new() -> (r: Self)
        ensures
            r@ == Map::<u32, C>::empty(),
    {
        Registry { callbacks: HashMap::new() }
    }

    /// Whether a callback is registered under `id`.
    pub fn is_registered(&self, id: u32) -> (r: bool)
        ensures
            r == self@.contains_key(id),
    {
        self.callbacks.contains_key(&id)
    }

    /// The callback registered under `id`, if any.
    pub fn lookup(&self, id: u32) -> (r: Option<&C>)
        ensures
            match r {
                Some(c) => self@.contains_key(id) && *c == self@[id],
                None => !self@.contains_key(id),
            },
    {
        self.callbacks.get(&id)
    }

    /// The number of live sessions.
    pub fn len(&self) -> (r: usize)
        ensures
            r == self@.len(),
    {
        self.callbacks.len()
    }

    /// Registers `callback` under `id`, which must name no live session.
    ///
    /// An identifier that is already live is refused: the registry is left as
    /// it was and the callback is handed back.
    pub fn register(&mut self, id: u32, callback: C) -> (r: Result<(), C>)
        ensures
            !old(self)@.contains_key(id) ==> r is Ok && final(self)@ == old(self)@.insert(
                id,
                callback,
            ),
            old(self)@.contains_key(id) ==> r == Err::<(), C>(callback) && final(self)@ == old(
                self,
            )@,
    {
        if self.callbacks.contains_key(&id) {
            Err(callback)
        } else {
            self.callbacks.insert(id, callback);
            Ok(())
        }
    }

    /// Removes the callback registered under `id` and returns it; `None` where
    /// none is registered, in which case nothing changes.
    pub fn deregister(&mut self, id: u32) -> (r: Option<C>)
        ensures
            final(self)@ == old(self)@.remove(id),
            r == (if old(self)@.contains_key(id) {
                Some(old(self)@[id])
            } else {
                None::<C>
            }),
    {
        self.callbacks.remove(&id)
    }
}

/// Removing a session twice has the effect of removing it once: after the
/// first removal nothing is registered under the identifier, so the second
/// finds nothing and leaves the registry as it was.
pub proof fn lemma_deregister_idempotent<C>(registry: Map<u32, C>, id: u32)
    ensures
        !registry.remove(id).contains_key(id),
        registry.remove(id).remove(id) == registry.remove(id),
{
    assert(registry.remove(id).remove(id) =~= registry.remove(id));
}

} // verus!
