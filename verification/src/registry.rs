//! The connections of a broadcast session: who is registered, under which identifier,
//! and who a message from one of them goes to.

use std::collections::BTreeMap;
use vstd::prelude::*;

verus! {

/// The identifiers in `ids` ascend strictly.
pub open spec fn ascending(ids: Seq<usize>) -> bool {
    forall|i: int, j: int| 0 <= i < j < ids.len() ==> ids[i] < ids[j]
}

/// `ids` are the connections in `listeners` that a message from `sender_id` goes to:
/// every registered connection but the sender, each once, in ascending order.
pub open spec fn is_fan_out<S>(
    ids: Seq<usize>,
    listeners: Map<usize, S>,
    sender_id: usize,
) -> bool {
    &&& ascending(ids)
    &&& forall|id: usize| ids.contains(id) <==> listeners.contains_key(id) && id != sender_id
}

/// The sink of `id` if it is registered, and nothing if not.
pub open spec fn lookup<S>(listeners: Map<usize, S>, id: usize) -> Option<S> {
    if listeners.contains_key(id) {
        Some(listeners[id])
    } else {
        None
    }
}

/// The registered connections, each with the sink that messages for it go to.
///
/// Identifiers are handed out in ascending order and never again: each registered
/// connection has an identifier below the next one to be handed out.
#[derive(Debug)]
pub struct Services<S> {
    next_id: usize,
    listeners: BTreeMap<usize, S>,
    order: Vec<usize>,
}

impl<S> Services<S> {
    /// The registered connections and their sinks.
    pub closed spec fn listeners(&self) -> Map<usize, S> {
        self.listeners@
    }

    /// The identifier that the next connection gets.
    pub closed spec fn next_id(&self) -> usize {
        self.next_id
    }

    /// The registry is consistent: it knows the registered identifiers in ascending
    /// order, and all of them are below the next identifier.
    pub closed spec fn wf(&self) -> bool {
        &&& ascending(self.order@)
        &&& forall|id: usize| self.order@.contains(id) <==> self.listeners@.contains_key(id)
        &&& forall|id: usize| self.listeners@.contains_key(id) ==> id < self.next_id
    }

    /// No registered identifier will be handed out again.
    pub proof fn lemma_registered_below_next(&self)
        requires
            self.wf(),
        ensures
            forall|id: usize| self.listeners().contains_key(id) ==> id < self.next_id(),
    {
    }

    /// A registry without connections. The first identifier is zero.
    pub fn new() -> (services: Services<S>)
        ensures
            services.wf(),
            services.next_id() == 0,
            services.listeners() == Map::<usize, S>::empty(),
    {
        Services { next_id: 0, listeners: BTreeMap::new(), order: Vec::new() }
    }

    /// Whether another connection can be registered.
    pub fn has_room(&self) -> (room: bool)
        ensures
            room == (self.next_id() < usize::MAX),
    {
        self.next_id < usize::MAX
    }

    /// Registers a connection under the next identifier.
    pub fn add_listener(&mut self, tx: S) -> (id: usize)
        requires
            old(self).wf(),
            old(self).next_id() < usize::MAX,
        ensures
            final(self).wf(),
            id == old(self).next_id(),
            final(self).next_id() == id + 1,
            !old(self).listeners().contains_key(id),
            final(self).listeners() == old(self).listeners().insert(id, tx),
    {
        let id: usize = self.next_id;
        let ghost before = self.order@;
        self.next_id = id + 1;
        self.listeners.insert(id, tx);
        self.order.push(id);
        proof {
            assert forall|other: usize|
                self.order@.contains(other) implies self.listeners@.contains_key(other) by {
                let i = choose|i: int| 0 <= i < self.order@.len() && self.order@[i] == other;
                if i < before.len() {
                    assert(before[i] == other);
                    assert(before.contains(other));
                }
            }
            assert forall|other: usize|
                self.listeners@.contains_key(other) implies self.order@.contains(other) by {
                if other == id {
                    assert(self.order@[before.len() as int] == id);
                } else {
                    assert(before.contains(other));
                    let i = choose|i: int| 0 <= i < before.len() && before[i] == other;
                    assert(self.order@[i] == other);
                }
            }
            assert forall|i: int, j: int| 0 <= i < j < self.order@.len() implies self.order@[i]
                < self.order@[j] by {
                assert(before.contains(before[i]));
            }
        }
        id
    }

    /// Takes a connection out of the registry. Taking out one that is not registered
    /// changes nothing.
    pub fn remove_listener(&mut self, id: usize) -> (removed: Option<S>)
        requires
            old(self).wf(),
        ensures
            final(self).wf(),
            removed == lookup(old(self).listeners(), id),
            final(self).listeners() == old(self).listeners().remove(id),
            final(self).next_id() == old(self).next_id(),
    {
        let ghost before = self.order@;
        let removed = self.listeners.remove(&id);
        if removed.is_some() {
            assert(before.contains(id));
            let n: usize = self.order.len();
            let mut at: usize = 0;
            while self.order[at] != id
                invariant
                    self.order@ == before,
                    n == before.len(),
                    before.contains(id),
                    at < before.len(),
                    forall|i: int| 0 <= i <= at ==> before[i] <= id,
                    forall|i: int| 0 <= i < at ==> before[i] != id,
                    ascending(before),
                decreases before.len() - at,
            {
                proof {
                    let i = choose|i: int| 0 <= i < before.len() && before[i] == id;
                    assert(i > at);
                }
                at += 1;
            }
            self.order.remove(at);
            proof {
                let after = self.order@;
                assert forall|other: usize| after.contains(other) implies before.contains(other)
                    && other != id by {
                    let i = choose|i: int| 0 <= i < after.len() && after[i] == other;
                    if i < at {
                        assert(before[i] == other);
                    } else {
                        assert(before[i + 1] == other);
                    }
                }
                assert forall|other: usize|
                    before.contains(other) && other != id implies after.contains(other) by {
                    let i = choose|i: int| 0 <= i < before.len() && before[i] == other;
                    if i < at {
                        assert(after[i] == other);
                    } else {
                        assert(after[i - 1] == other);
                    }
                }
                assert forall|i: int, j: int| 0 <= i < j < after.len() implies after[i]
                    < after[j] by {
                    let a = if i < at { i } else { i + 1 };
                    let b = if j < at { j } else { j + 1 };
                    assert(after[i] == before[a] && after[j] == before[b]);
                }
            }
        } else {
            assert(self.listeners@ =~= old(self).listeners@);
        }
        removed
    }

    /// The sink of a connection, if it is registered.
    pub fn sink(&self, id: usize) -> (sink: Option<&S>)
        ensures
            match sink {
                Some(found) => lookup(self.listeners(), id) == Some(*found),
                None => lookup(self.listeners(), id) is None,
            },
    {
        self.listeners.get(&id)
    }

    /// Number of registered connections.
    pub fn len(&self) -> (count: usize)
        ensures
            count == self.listeners().len(),
    {
        self.listeners.len()
    }

    /// The connections that a message from `sender_id` goes to.
    pub fn peers(&self, sender_id: usize) -> (ids: Vec<usize>)
        requires
            self.wf(),
        ensures
            is_fan_out(ids@, self.listeners(), sender_id),
    {
        let mut ids: Vec<usize> = Vec::new();
        let mut at: usize = 0;
        while at < self.order.len()
            invariant
                at <= self.order@.len(),
                self.wf(),
                ascending(ids@),
                forall|i: int| 0 <= i < ids@.len() ==> ids@[i] != sender_id,
                forall|i: int|
                    0 <= i < ids@.len() ==> exists|j: int|
                        0 <= j < at && self.order@[j] == #[trigger] ids@[i],
                forall|j: int|
                    0 <= j < at && self.order@[j] != sender_id ==> ids@.contains(
                        #[trigger] self.order@[j],
                    ),
            decreases self.order@.len() - at,
        {
            let id: usize = self.order[at];
            if id != sender_id {
                let ghost before = ids@;
                ids.push(id);
                proof {
                    assert forall|i: int, j: int| 0 <= i < j < ids@.len() implies ids@[i]
                        < ids@[j] by {
                        if j == before.len() {
                            let k = choose|k: int| 0 <= k < at && self.order@[k] == before[i];
                            assert(self.order@[k] < self.order@[at as int]);
                        }
                    }
                    assert forall|j: int|
                        0 <= j < at + 1 && self.order@[j] != sender_id implies ids@.contains(
                        #[trigger] self.order@[j],
                    ) by {
                        if j < at {
                            assert(before.contains(self.order@[j]));
                            let i = choose|i: int|
                                0 <= i < before.len() && before[i] == self.order@[j];
                            assert(ids@[i] == self.order@[j]);
                        } else {
                            assert(ids@[before.len() as int] == id);
                        }
                    }
                }
            }
            at += 1;
        }
        proof {
            assert forall|id: usize| ids@.contains(id) implies self.listeners().contains_key(id)
                && id != sender_id by {
                let i = choose|i: int| 0 <= i < ids@.len() && ids@[i] == id;
                let j = choose|j: int| 0 <= j < at && self.order@[j] == ids@[i];
                assert(self.order@.contains(id));
            }
            assert forall|id: usize|
                self.listeners().contains_key(id) && id != sender_id implies ids@.contains(id) by {
                assert(self.order@.contains(id));
                let j = choose|j: int| 0 <= j < self.order@.len() && self.order@[j] == id;
                assert(ids@.contains(self.order@[j]));
            }
        }
        ids
    }
}

/// Taking a connection out twice is taking it out once: the second time nothing is
/// handed back, and the registry stays as the first time left it.
pub proof fn lemma_removal_is_idempotent<S>(listeners: Map<usize, S>, id: usize)
    ensures
        lookup(listeners.remove(id), id) is None,
        listeners.remove(id).remove(id) == listeners.remove(id),
{
    assert(listeners.remove(id).remove(id) =~= listeners.remove(id));
}

/// A message never goes back to its sender, and goes to every other registered
/// connection.
pub proof fn lemma_fan_out_excludes_sender<S>(
    ids: Seq<usize>,
    listeners: Map<usize, S>,
    sender_id: usize,
)
    requires
        is_fan_out(ids, listeners, sender_id),
    ensures
        !ids.contains(sender_id),
        forall|id: usize| listeners.contains_key(id) && id != sender_id ==> ids.contains(id),
        ids.no_duplicates(),
{
}

} // verus!
