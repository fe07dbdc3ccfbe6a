use vstd::prelude::*;

verus! {

/// Handle of a simulated object: a slot index and the generation of that slot
/// at the time the handle was issued.
#[derive(Clone, Copy, Debug, PartialEq, Eq, Structural)]
pub struct Entity {
    pub index: u32,
    pub generation: u64,
}

/// Issues entity handles and tracks which of them are alive. A freed slot is
/// reused with a higher generation, so a stale handle never matches it again.
pub struct EntityAllocator {
    generations: Vec<u64>,
    live: Vec<bool>,
    free: Vec<u32>,
}

impl EntityAllocator {
    pub closed spec fn wf(&self) -> bool {
        &&& self.generations@.len() == self.live@.len()
        &&& self.live@.len() <= u32::MAX
        &&& forall|k: int| 0 <= k < self.free@.len() ==> self.free@[k] < self.live@.len()
        &&& forall|k: int| 0 <= k < self.free@.len() ==> !self.live@[#[trigger] self.free@[k] as int]
        &&& self.free@.no_duplicates()
    }

    /// Whether the handle has ever been handed out by `spawn`. A slot's
    /// current generation counts as handed out unless the slot waits in the
    /// free list.
    pub closed spec fn issued(&self, e: Entity) -> bool {
        &&& e.index < self.live@.len()
        &&& (e.generation < self.generations@[e.index as int] || (e.generation
            == self.generations@[e.index as int] && !self.free@.contains(e.index)))
    }

    /// A live handle has been handed out.
    pub proof fn lemma_alive_issued(&self, e: Entity)
        requires
            self.wf(),
            self.alive(e),
        ensures
            self.issued(e),
    {
        if self.free@.contains(e.index) {
            let k = choose|k: int| 0 <= k < self.free@.len() && self.free@[k] == e.index;
            assert(!self.live@[self.free@[k] as int]);
        }
    }

    /// Whether the handle names a live entity.
    pub closed spec fn alive(&self, e: Entity) -> bool {
        &&& e.index < self.live@.len()
        &&& self.live@[e.index as int]
        &&& self.generations@[e.index as int] == e.generation
    }

    /// Every index is in use and no freed slot waits for reuse.
    pub closed spec fn is_full(&self) -> bool {
        self.live@.len() == u32::MAX && self.free@.len() == 0
    }

    /// Number of slots ever allocated.
    pub closed spec fn slot_count(&self) -> nat {
        self.live@.len()
    }

    /// A full allocator has used every index.
    pub proof fn lemma_full_slot_count(&self)
        requires
            self.is_full(),
        ensures
            self.slot_count() == u32::MAX,
    {
    }

    /// At most one generation of an index is alive.
    pub proof fn lemma_unique_generation(&self, a: Entity, b: Entity)
        requires
            self.alive(a),
            self.alive(b),
            a.index == b.index,
        ensures
            a == b,
    {
    }

    pub fn new() -> (r: EntityAllocator)
        ensures
            r.wf(),
            forall|e: Entity| !r.alive(e),
            forall|e: Entity| !r.issued(e),
            r.slot_count() == 0,
    {
        EntityAllocator { generations: Vec::new(), live: Vec::new(), free: Vec::new() }
    }

    pub fn is_alive(&self, e: Entity) -> (r: bool)
        requires
            self.wf(),
        ensures
            r == self.alive(e),
    {
        let i = e.index as usize;
        i < self.live.len() && self.live[i] && self.generations[i] == e.generation
    }

    /// Allocates a handle that is not alive before the call, or `None` when every
    /// index is in use. No other handle changes liveness.
    pub fn spawn(&mut self) -> (r: Option<Entity>)
        requires
            old(self).wf(),
        ensures
            final(self).wf(),
            r matches Some(e) ==> !old(self).alive(e) && final(self).alive(e),
            forall|x: Entity|
                (r != Some(x)) ==> #[trigger] final(self).alive(x) == old(self).alive(x),
            r is None <==> old(self).is_full(),
            final(self).slot_count() <= old(self).slot_count() + 1,
            r matches Some(e) ==> !old(self).issued(e),
            forall|x: Entity| #[trigger] final(self).issued(x) == (old(self).issued(x) || r == Some(x)),
    {
        let ghost before = *self;
        match self.free.pop() {
            Some(i) => {
                let iu = i as usize;
                proof {
                    assert(before.free@ == self.free@.push(i));
                    assert(before.free@[before.free@.len() - 1] == i);
                    assert(!self.free@.contains(i)) by {
                        if self.free@.contains(i) {
                            let k = choose|k: int| 0 <= k < self.free@.len() && self.free@[k] == i;
                            assert(before.free@[k] == before.free@[before.free@.len() - 1]);
                        }
                    }
                    assert(!self.live@[iu as int]);
                    assert(before.free@.contains(i));
                }
                self.live.set(iu, true);
                let e = Entity { index: i, generation: self.generations[iu] };
                proof {
                    assert(!before.issued(e));
                    assert forall|x: Entity| #[trigger] self.issued(x) == (old(self).issued(x) || Some(e)
                        == Some(x)) by {
                        if x.index != i {
                            assert(self.free@.contains(x.index) == before.free@.contains(x.index)) by {
                                if before.free@.contains(x.index) {
                                    let k = choose|k: int|
                                        0 <= k < before.free@.len() && before.free@[k] == x.index;
                                    assert(k < self.free@.len());
                                    assert(self.free@[k] == x.index);
                                }
                            }
                        }
                    }
                    assert forall|k: int|
                        0 <= k < self.free@.len() implies !self.live@[#[trigger] self.free@[k] as int] by {
                        assert(before.free@[k] == self.free@[k]);
                        assert(self.free@[k] != i);
                    }
                }
                return Some(e);
            },
            None => {},
        }
        if self.live.len() >= u32::MAX as usize {
            return None;
        }
        let i = self.live.len() as u32;
        let ghost before = *self;
        self.live.push(true);
        self.generations.push(0);
        let e = Entity { index: i, generation: 0 };
        proof {
            assert(self.free@.len() == 0);
            assert forall|x: Entity| #[trigger] self.issued(x) == (old(self).issued(x) || Some(e) == Some(x)) by {
                assert(before.issued(x) == old(self).issued(x));
                if x.index < before.live@.len() {
                    assert(self.generations@[x.index as int] == before.generations@[x.index as int]);
                }
            }
        }
        Some(e)
    }

    /// Marks a live entity dead and frees its slot for later reuse under a new
    /// generation. No other handle changes liveness.
    pub fn despawn(&mut self, e: Entity)
        requires
            old(self).wf(),
        ensures
            final(self).wf(),
            !final(self).alive(e),
            forall|x: Entity| x != e ==> #[trigger] final(self).alive(x) == old(self).alive(x),
            forall|x: Entity| #[trigger] final(self).issued(x) == old(self).issued(x),
    {
        if self.is_alive(e) {
            proof {
                self.lemma_alive_issued(e);
            }
            let i = e.index as usize;
            let ghost before = *self;
            self.live.set(i, false);
            if self.generations[i] < u64::MAX {
                self.generations.set(i, self.generations[i] + 1);
                self.free.push(e.index);
                proof {
                    assert(!before.free@.contains(e.index));
                    assert forall|k: int| 0 <= k < self.free@.len() implies !self.live@[#[trigger] self.free@[k] as int] by {
                        if k < before.free@.len() {
                            assert(self.free@[k] == before.free@[k]);
                            assert(!before.live@[before.free@[k] as int]);
                        }
                    }
                    assert forall|x: Entity| #[trigger] self.issued(x) == old(self).issued(x) by {
                        if x.index != e.index {
                            assert(self.free@.contains(x.index) == before.free@.contains(x.index)) by {
                                if before.free@.contains(x.index) {
                                    let k = choose|k: int| 0 <= k < before.free@.len() && before.free@[k] == x.index;
                                    assert(self.free@[k] == x.index);
                                }
                                if self.free@.contains(x.index) {
                                    let k = choose|k: int| 0 <= k < self.free@.len() && self.free@[k] == x.index;
                                    assert(k < before.free@.len());
                                    assert(before.free@[k] == x.index);
                                }
                            }
                        } else {
                            assert(self.free@.contains(x.index)) by {
                                assert(self.free@[self.free@.len() - 1] == x.index);
                            }
                        }
                    }
                }
            } else {
                proof {
                    assert forall|k: int| 0 <= k < self.free@.len() implies !self.live@[#[trigger] self.free@[k] as int] by {
                        assert(!before.live@[before.free@[k] as int]);
                        if self.free@[k] == e.index {
                            assert(before.free@.contains(e.index));
                        }
                    }
                }
            }
        }
    }
}

} // verus!
