use vstd::prelude::*;
use crate::entity::Entity;

verus! {

struct Slot<T> {
    generation: u64,
    value: T,
}

/// A sparse table from entities to values of one component type. At most one
/// generation of a slot index has an entry at a time.
pub struct ComponentTable<T> {
    slots: Vec<Option<Slot<T>>>,
}

impl<T: Copy> ComponentTable<T> {
    pub closed spec fn wf(&self) -> bool {
        self.slots@.len() <= u32::MAX as nat + 1
    }

    /// The value stored for an entity, if any.
    pub closed spec fn spec_get(&self, e: Entity) -> Option<T> {
        if e.index < self.slots@.len() {
            match self.slots@[e.index as int] {
                Some(s) => if s.generation == e.generation {
                    Some(s.value)
                } else {
                    None
                },
                None => None,
            }
        } else {
            None
        }
    }

    /// An index holds an entry for at most one generation.
    pub proof fn lemma_one_generation(&self, a: Entity, b: Entity)
        requires
            self.spec_get(a) is Some,
            self.spec_get(b) is Some,
            a.index == b.index,
        ensures
            a == b,
    {
    }

    pub fn new() -> (r: ComponentTable<T>)
        ensures
            r.wf(),
            forall|e: Entity| r.spec_get(e) is None,
    {
        ComponentTable { slots: Vec::new() }
    }

    pub fn get(&self, e: Entity) -> (r: Option<T>)
        ensures
            r == self.spec_get(e),
    {
        let i = e.index as usize;
        if i < self.slots.len() {
            match &self.slots[i] {
                Some(s) => if s.generation == e.generation {
                    Some(s.value)
                } else {
                    None
                },
                None => None,
            }
        } else {
            None
        }
    }

    pub fn contains(&self, e: Entity) -> (r: bool)
        ensures
            r == self.spec_get(e) is Some,
    {
        self.get(e).is_some()
    }

    /// Stores `v` for `e`. An entry of another generation of the same index is
    /// dropped; entries of other indices are kept.
    pub fn insert(&mut self, e: Entity, v: T)
        requires
            old(self).wf(),
        ensures
            final(self).wf(),
            final(self).spec_get(e) == Some(v),
            forall|x: Entity|
                x.index != e.index ==> #[trigger] final(self).spec_get(x) == old(self).spec_get(x),
            forall|x: Entity|
                x.index == e.index && x != e ==> #[trigger] final(self).spec_get(x) is None,
    {
        let i = e.index as usize;
        while self.slots.len() <= i
            invariant
                self.wf(),
                i == e.index,
                forall|x: Entity| #[trigger]
                    self.spec_get(x) == old(self).spec_get(x),
            decreases i + 1 - self.slots.len(),
        {
            let ghost before = *self;
            self.slots.push(None);
            assert forall|x: Entity| #[trigger] self.spec_get(x) == before.spec_get(x) by {
                if x.index < before.slots@.len() {
                    assert(self.slots@[x.index as int] == before.slots@[x.index as int]);
                }
            }
        }
        let ghost before = *self;
        self.slots.set(i, Some(Slot { generation: e.generation, value: v }));
        assert forall|x: Entity| x.index != e.index implies #[trigger] self.spec_get(x)
            == before.spec_get(x) by {
            if x.index < before.slots@.len() {
                assert(self.slots@[x.index as int] == before.slots@[x.index as int]);
            }
        }
    }

    /// Drops the entry of `e`; every other entity keeps its entry.
    pub fn remove(&mut self, e: Entity)
        requires
            old(self).wf(),
        ensures
            final(self).wf(),
            final(self).spec_get(e) is None,
            forall|x: Entity| x != e ==> #[trigger] final(self).spec_get(x) == old(self).spec_get(x),
    {
        if self.contains(e) {
            self.slots.set(e.index as usize, None);
        }
    }

    /// Whether no entity has an entry.
    pub fn is_empty(&self) -> (r: bool)
        requires
            self.wf(),
        ensures
            r == (forall|e: Entity| #[trigger] self.spec_get(e) is None),
    {
        let mut i: usize = 0;
        while i < self.slots.len()
            invariant
                self.wf(),
                i <= self.slots@.len(),
                forall|k: int| 0 <= k < i ==> self.slots@[k] is None,
            decreases self.slots.len() - i,
        {
            if self.slots[i].is_some() {
                let ghost s = self.slots@[i as int].unwrap();
                assert(self.spec_get(Entity { index: i as u32, generation: s.generation }) is Some);
                return false;
            }
            i += 1;
        }
        assert forall|e: Entity| #[trigger] self.spec_get(e) is None by {
            if e.index < self.slots@.len() {
                assert(self.slots@[e.index as int] is None);
            }
        }
        true
    }

    /// The entities that have an entry, in increasing order of index.
    pub fn entities(&self) -> (r: Vec<Entity>)
        requires
            self.wf(),
        ensures
            forall|k: int| 0 <= k < r@.len() ==> (#[trigger] self.spec_get(r@[k])) is Some,
            forall|e: Entity| self.spec_get(e) is Some ==> r@.contains(e),
            forall|j: int, k: int| 0 <= j < k < r@.len() ==> r@[j].index < r@[k].index,
    {
        let mut out: Vec<Entity> = Vec::new();
        let mut i: usize = 0;
        while i < self.slots.len()
            invariant
                i <= self.slots@.len(),
                self.slots@.len() <= u32::MAX + 1,
                forall|k: int| 0 <= k < out@.len() ==> (#[trigger] self.spec_get(out@[k])) is Some,
                forall|k: int| 0 <= k < out@.len() ==> out@[k].index < i,
                forall|e: Entity| e.index < i && self.spec_get(e) is Some ==> out@.contains(e),
                forall|j: int, k: int| 0 <= j < k < out@.len() ==> out@[j].index < out@[k].index,
            decreases self.slots.len() - i,
        {
            match &self.slots[i] {
                Some(s) => {
                    let e = Entity { index: i as u32, generation: s.generation };
                    let ghost prev = out@;
                    out.push(e);
                    assert(out@[out@.len() - 1] == e);
                    assert forall|x: Entity|
                        x.index < i + 1 && self.spec_get(x) is Some implies out@.contains(x) by {
                        if x.index < i {
                            assert(prev.contains(x));
                            let k = choose|k: int| 0 <= k < prev.len() && prev[k] == x;
                            assert(out@[k] == x);
                        } else {
                            assert(x == e);
                        }
                    }
                },
                None => {
                    assert forall|x: Entity|
                        x.index < i + 1 && self.spec_get(x) is Some implies out@.contains(x) by {
                        assert(x.index < i);
                    }
                },
            }
            i += 1;
        }
        out
    }
}

} // verus!
