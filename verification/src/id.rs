use vstd::prelude::*;

verus! {

/// Hands out small integer identifiers (the thread ids of a process),
/// reusing released ones, most recently released first, before minting
/// new ones.
pub struct RecycleAllocator {
    current: usize,
    recycled: Vec<usize>,
}

impl RecycleAllocator {
    #[verifier::type_invariant]
    spec fn inv(&self) -> bool {
        &&& forall|i: int| 0 <= i < self.recycled@.len() ==> self.recycled@[i] < self.current
        &&& self.recycled@.no_duplicates()
    }

    /// How many identifiers have ever been minted: 0 up to this, exclusive.
    pub closed spec fn spec_current(&self) -> usize {
        self.current
    }

    /// The released identifiers, the most recently released last.
    pub closed spec fn spec_recycled(&self) -> Seq<usize> {
        self.recycled@
    }

    /// The identifiers handed out and not released since.
    pub open spec fn allocated(&self) -> Set<usize> {
        Set::new(|id: usize| id < self.spec_current() && !self.spec_recycled().contains(id))
    }

    /// The identifier that the next call of `alloc_id` hands out.
    pub open spec fn next_id(&self) -> usize {
        if self.spec_recycled().len() > 0 {
            self.spec_recycled().last()
        } else {
            self.spec_current()
        }
    }

    /// Whether `alloc_id` can hand out an identifier without running past `usize::MAX`.
    pub open spec fn can_alloc(&self) -> bool {
        self.spec_recycled().len() > 0 || self.spec_current() < usize::MAX
    }

    pub fn new() -> (r: Self)
        ensures
            r.spec_current() == 0,
            r.spec_recycled() == Seq::<usize>::empty(),
            r.allocated() == Set::<usize>::empty(),
            r.next_id() == 0,
            r.can_alloc(),
    {
        let r = RecycleAllocator { current: 0, recycled: Vec::new() };
        assert(r.allocated() =~= Set::<usize>::empty());
        r
    }

    /// Hands out an identifier that is not in use: the most recently
    /// released one if there is one, else the smallest never handed out.
    pub fn alloc_id(&mut self) -> (id: usize)
        requires
            old(self).can_alloc(),
        ensures
            id == old(self).next_id(),
            old(self).spec_recycled().len() > 0 ==> {
                &&& final(self).spec_recycled() == old(self).spec_recycled().drop_last()
                &&& final(self).spec_current() == old(self).spec_current()
            },
            old(self).spec_recycled().len() == 0 ==> {
                &&& final(self).spec_recycled() == old(self).spec_recycled()
                &&& final(self).spec_current() == old(self).spec_current() + 1
            },
            !old(self).allocated().contains(id),
            id < usize::MAX,
            final(self).allocated() == old(self).allocated().insert(id),
    {
        proof {
            use_type_invariant(&*self);
        }
        let mut taken = RecycleAllocator { current: 0, recycled: Vec::new() };
        std::mem::swap(self, &mut taken);
        let RecycleAllocator { current, mut recycled } = taken;
        let ghost old_recycled = recycled@;
        let popped = recycled.pop();
        *self = RecycleAllocator { current, recycled };
        if let Some(id) = popped {
            proof {
                assert(old_recycled == self.recycled@.push(id));
                assert(!self.recycled@.contains(id)) by {
                    if self.recycled@.contains(id) {
                        let k = choose|k: int| 0 <= k < self.recycled@.len() && self.recycled@[k] == id;
                        assert(old_recycled[k] == old_recycled[old_recycled.len() - 1]);
                    }
                }
                assert(self.allocated() =~= old(self).allocated().insert(id)) by {
                    assert forall|x: usize| old_recycled.contains(x) && x != id implies self.recycled@.contains(x) by {
                        let k = choose|k: int| 0 <= k < old_recycled.len() && old_recycled[k] == x;
                        assert(self.recycled@[k] == x);
                    }
                    assert forall|x: usize| self.recycled@.contains(x) implies old_recycled.contains(x) by {
                        let k = choose|k: int| 0 <= k < self.recycled@.len() && self.recycled@[k] == x;
                        assert(old_recycled[k] == x);
                    }
                }
            }
            id
        } else {
            self.current = self.current + 1;
            proof {
                assert(self.allocated() =~= old(self).allocated().insert((self.current - 1) as usize));
            }
            self.current - 1
        }
    }

    /// Releases an identifier that is in use, so that the next `alloc_id`
    /// hands it out again.
    pub fn dealloc_id(&mut self, id: usize)
        requires
            old(self).allocated().contains(id),
        ensures
            final(self).spec_recycled() == old(self).spec_recycled().push(id),
            final(self).spec_current() == old(self).spec_current(),
            final(self).allocated() == old(self).allocated().remove(id),
            final(self).next_id() == id,
            final(self).can_alloc(),
    {
        proof {
            use_type_invariant(&*self);
        }
        let mut taken = RecycleAllocator { current: 0, recycled: Vec::new() };
        std::mem::swap(self, &mut taken);
        let RecycleAllocator { current, mut recycled } = taken;
        let ghost old_recycled = recycled@;
        recycled.push(id);
        proof {
            assert forall|i: int| 0 <= i < recycled@.len() implies recycled@[i] < current by {
                if i < old_recycled.len() {
                    assert(recycled@[i] == old_recycled[i]);
                }
            }
            assert(recycled@.no_duplicates()) by {
                assert forall|i: int, j: int| 0 <= i < recycled@.len() && 0 <= j < recycled@.len() && i != j
                    implies recycled@[i] != recycled@[j] by {
                    if i == old_recycled.len() && j < old_recycled.len() {
                        assert(old_recycled.contains(recycled@[j]));
                    }
                    if j == old_recycled.len() && i < old_recycled.len() {
                        assert(old_recycled.contains(recycled@[i]));
                    }
                }
            }
        }
        *self = RecycleAllocator { current, recycled };
        proof {
            assert(self.recycled@ == old_recycled.push(id));
            assert forall|x: usize| self.recycled@.contains(x) <==> (old_recycled.contains(x) || x == id) by {
                if self.recycled@.contains(x) {
                    let k = choose|k: int| 0 <= k < self.recycled@.len() && self.recycled@[k] == x;
                    if k < old_recycled.len() {
                        assert(old_recycled[k] == x);
                    }
                }
                if old_recycled.contains(x) {
                    let k = choose|k: int| 0 <= k < old_recycled.len() && old_recycled[k] == x;
                    assert(self.recycled@[k] == x);
                }
                if x == id {
                    assert(self.recycled@[old_recycled.len() as int] == x);
                }
            }
            assert(self.allocated() =~= old(self).allocated().remove(id));
        }
    }

    /// Whether `alloc_id` can hand out an identifier now.
    pub fn has_capacity(&self) -> (b: bool)
        ensures
            b == self.can_alloc(),
    {
        self.recycled.len() > 0 || self.current < usize::MAX
    }

    /// Whether `id` is in use.
    pub fn is_allocated(&self, id: usize) -> (b: bool)
        ensures
            b == self.allocated().contains(id),
    {
        if id >= self.current {
            return false;
        }
        let mut i: usize = 0;
        while i < self.recycled.len()
            invariant
                i <= self.recycled@.len(),
                forall|k: int| 0 <= k < i ==> self.recycled@[k] != id,
            decreases self.recycled@.len() - i,
        {
            if self.recycled[i] == id {
                return false;
            }
            i = i + 1;
        }
        true
    }
}

/// An id released and then allocated again comes back at once, and the ids
/// in use are then those in use before the release.
pub proof fn lemma_released_id_comes_back(
    before: RecycleAllocator,
    released: RecycleAllocator,
    after: RecycleAllocator,
    id: usize,
    got: usize,
)
    requires
        before.allocated().contains(id),
        released.allocated() == before.allocated().remove(id),
        released.next_id() == id,
        got == released.next_id(),
        after.allocated() == released.allocated().insert(got),
    ensures
        got == id,
        after.allocated() == before.allocated(),
{
    assert(after.allocated() =~= before.allocated());
}

/// An id allocated and then released leaves the ids in use as they were.
pub proof fn lemma_allocate_then_release(
    before: RecycleAllocator,
    allocated: RecycleAllocator,
    after: RecycleAllocator,
    got: usize,
)
    requires
        !before.allocated().contains(got),
        allocated.allocated() == before.allocated().insert(got),
        after.allocated() == allocated.allocated().remove(got),
    ensures
        after.allocated() == before.allocated(),
{
    assert(after.allocated() =~= before.allocated());
}

} // verus!
