use vstd::prelude::*;

use crate::context::{ViewId, WindowMessage};
use crate::lifecycle::Lifecycle;
use crate::pressable::PressableMessage;

verus! {

/// What a message carries.
#[derive(Clone, Copy, Debug, PartialEq, Eq, Structural, Hash)]
pub enum Payload {
    Window(WindowMessage),
    Pressable(PressableMessage),
    Lifecycle(Lifecycle),
    /// An event of the application, identified by a number of its own.
    Event(u64),
}

/// A message, addressed to one view or, with no target, to the whole tree.
#[derive(Clone, Copy, Debug, PartialEq, Eq, Structural, Hash)]
pub struct Message {
    pub target: Option<ViewId>,
    pub payload: Option<Payload>,
}

impl Message {
    pub fn new(payload: Payload, target: Option<ViewId>) -> (r: Message)
        ensures
            r.target == target,
            r.payload == Some(payload),
    {
        Message { target, payload: Some(payload) }
    }

    /// Takes the payload out if this message is addressed to `id`, so that it
    /// is handled there and not forwarded further.
    pub fn take_targeted(&mut self, id: ViewId) -> (r: Option<Payload>)
        ensures
            old(self).target == Some(id) ==> r == old(self).payload && final(self).payload.is_none()
                && final(self).target == old(self).target,
            old(self).target != Some(id) ==> r.is_none() && *final(self) == *old(self),
    {
        if self.target == Some(id) {
            let taken = self.payload;
            self.payload = None;
            taken
        } else {
            None
        }
    }

    /// The payload of a message addressed to nobody in particular.
    pub fn get(&self) -> (r: Option<Payload>)
        ensures
            self.target.is_none() ==> r == self.payload,
            self.target.is_some() ==> r.is_none(),
    {
        if self.target.is_none() {
            self.payload
        } else {
            None
        }
    }
}

/// The view ids of the elements alive now. A message to any other id is
/// dropped.
pub struct Registry {
    pub live: Vec<ViewId>,
}

impl Registry {
    pub open spec fn holds(&self, id: ViewId) -> bool {
        self.live@.contains(id)
    }

    pub fn new() -> (r: Registry)
        ensures
            forall|id: ViewId| !r.holds(id),
    {
        Registry { live: Vec::new() }
    }

    /// Whether `id` belongs to a live element.
    pub fn is_live(&self, id: ViewId) -> (r: bool)
        ensures
            r == self.holds(id),
    {
        let mut k: usize = 0;
        while k < self.live.len()
            invariant
                k <= self.live@.len(),
                forall|m: int| 0 <= m < k ==> self.live@[m] != id,
            decreases self.live@.len() - k,
        {
            if self.live[k] == id {
                return true;
            }
            k += 1;
        }
        false
    }

    /// Records that the element with id `id` was built.
    pub fn register(&mut self, id: ViewId)
        ensures
            final(self).holds(id),
            forall|other: ViewId| other != id ==> (final(self).holds(other) == old(self).holds(other)),
    {
        self.live.push(id);
        proof {
            assert(self.live@[self.live@.len() - 1] == id);
            assert forall|other: ViewId| other != id implies (self.holds(other) == old(self).holds(other)) by {
                if self.holds(other) {
                    let m = choose|m: int| 0 <= m < self.live@.len() && self.live@[m] == other;
                    assert(old(self).live@[m] == other);
                }
                if old(self).holds(other) {
                    let m = choose|m: int| 0 <= m < old(self).live@.len() && old(self).live@[m] == other;
                    assert(self.live@[m] == other);
                }
            }
        }
    }

    /// Records that the element with id `id` was torn down.
    pub fn unregister(&mut self, id: ViewId)
        ensures
            !final(self).holds(id),
            forall|other: ViewId| other != id ==> (final(self).holds(other) == old(self).holds(other)),
    {
        let mut kept: Vec<ViewId> = Vec::new();
        let mut k: usize = 0;
        while k < self.live.len()
            invariant
                k <= self.live@.len(),
                !kept@.contains(id),
                forall|other: ViewId| other != id ==> (kept@.contains(other) == self.live@.take(k as int).contains(other)),
            decreases self.live@.len() - k,
        {
            let v = self.live[k];
            let ghost before = kept@;
            if v != id {
                kept.push(v);
            }
            proof {
                let t = self.live@.take(k as int + 1);
                assert(t =~= self.live@.take(k as int).push(v));
                assert forall|other: ViewId| other != id implies (kept@.contains(other) == t.contains(other)) by {
                    if kept@.contains(other) {
                        let m = choose|m: int| 0 <= m < kept@.len() && kept@[m] == other;
                        if m < before.len() {
                            assert(before.contains(other));
                            assert(self.live@.take(k as int).contains(other));
                            let m2 = choose|m2: int| 0 <= m2 < k && self.live@.take(k as int)[m2] == other;
                            assert(t[m2] == other);
                        } else {
                            assert(t[k as int] == other);
                        }
                    }
                    if t.contains(other) {
                        let m = choose|m: int| 0 <= m < t.len() && t[m] == other;
                        if m < k {
                            assert(self.live@.take(k as int)[m] == other);
                            assert(before.contains(other));
                            let m2 = choose|m2: int| 0 <= m2 < before.len() && before[m2] == other;
                            assert(kept@[m2] == other);
                        } else {
                            assert(kept@[kept@.len() - 1] == other);
                        }
                    }
                }
                assert(!kept@.contains(id)) by {
                    if kept@.contains(id) {
                        let m = choose|m: int| 0 <= m < kept@.len() && kept@[m] == id;
                        if m < before.len() {
                            assert(before[m] == id);
                        }
                    }
                }
            }
            k += 1;
        }
        proof {
            assert(self.live@.take(k as int) =~= self.live@);
        }
        self.live = kept;
    }

    /// Whether `m` is to be dispatched: a message to the whole tree always is,
    /// one addressed to a view only while that view is alive.
    pub fn deliverable(&self, m: &Message) -> (r: bool)
        ensures
            r == match m.target {
                Some(id) => self.holds(id),
                None => true,
            },
    {
        match m.target {
            Some(id) => self.is_live(id),
            None => true,
        }
    }
}

/// What handling a message caused, accumulated over the handlers it passed.
#[derive(Clone, Copy, Debug, PartialEq, Eq, Structural, Hash)]
pub struct Action {
    /// Application state changed: the view tree is to be rebuilt.
    pub rebuild: bool,
    /// A fresh layout pass is wanted.
    pub relayout: bool,
}

pub open spec fn merge_spec(a: Action, b: Action) -> Action {
    Action { rebuild: a.rebuild || b.rebuild, relayout: a.relayout || b.relayout }
}

impl Action {
    /// The action that asks for nothing.
    pub fn new() -> (r: Action)
        ensures
            r == (Action { rebuild: false, relayout: false }),
    {
        Action { rebuild: false, relayout: false }
    }

    /// The action that asks for a rebuild.
    pub fn rebuild() -> (r: Action)
        ensures
            r == (Action { rebuild: true, relayout: false }),
    {
        Action { rebuild: true, relayout: false }
    }

    /// Both actions together: whatever either asks for.
    pub fn merge(self, other: Action) -> (r: Action)
        ensures
            r == merge_spec(self, other),
    {
        Action { rebuild: self.rebuild || other.rebuild, relayout: self.relayout || other.relayout }
    }
}

/// Actions compose: the empty action changes nothing on either side, and
/// the order and grouping of merges do not matter.
pub proof fn lemma_action_merge(a: Action, b: Action, c: Action)
    ensures
        merge_spec(a, Action { rebuild: false, relayout: false }) == a,
        merge_spec(Action { rebuild: false, relayout: false }, a) == a,
        merge_spec(a, b) == merge_spec(b, a),
        merge_spec(merge_spec(a, b), c) == merge_spec(a, merge_spec(b, c)),
        merge_spec(a, a) == a,
{
}

} // verus!
