//! Recycling allocation of small integer identifiers.
use vstd::prelude::*;

verus! {

/// Hands out the identifiers `0, 1, 2, ...`, reusing released ones first
/// (the most recently released one first).
pub struct RecycleAllocator {
    current: usize,
    recycled: Vec<usize>,
}

impl RecycleAllocator {
    /// The next never-used identifier.
    pub closed spec fn next_fresh(&self) -> nat {
        self.current as nat
    }

    /// Released identifiers, in release order.
    pub closed spec fn released(&self) -> Seq<usize> {
        self.recycled@
    }

    /// Identifiers currently handed out.
    pub open spec fn in_use(&self) -> Set<nat> {
        Set::new(|x: nat| x < self.next_fresh() && !self.released().contains(x as usize))
    }

    /// Every released identifier was handed out before, and none is released twice.
    pub open spec fn wf(&self) -> bool {
        &&& self.released().no_duplicates()
        &&& forall|k: int| 0 <= k < self.released().len() ==> #[trigger] self.released()[k] < self.next_fresh()
    }

    pub fn new() -> (a: Self)
        ensures
            a.wf(),
            a.next_fresh() == 0,
            a.released().len() == 0,
            a.in_use() == Set::<nat>::empty(),
    {
        let a = RecycleAllocator { current: 0, recycled: Vec::new() };
        assert(a.in_use() =~= Set::<nat>::empty());
        a
    }

    /// Hands out the most recently released identifier, or else the next fresh one.
    pub fn alloc_id(&mut self) -> (id: usize)
        requires
            old(self).wf(),
            old(self).released().len() == 0 ==> old(self).next_fresh() < usize::MAX,
        ensures
            final(self).wf(),
            !old(self).in_use().contains(id as nat),
            final(self).in_use() == old(self).in_use().insert(id as nat),
            old(self).released().len() > 0 ==> id == old(self).released().last()
                && final(self).released() == old(self).released().drop_last()
                && final(self).next_fresh() == old(self).next_fresh(),
            old(self).released().len() == 0 ==> id == old(self).next_fresh()
                && final(self).next_fresh() == old(self).next_fresh() + 1
                && final(self).released().len() == 0,
    {
        if let Some(id) = self.recycled.pop() {
            proof {
                let o = old(self).recycled@;
                assert(o =~= self.recycled@.push(id));
                assert(o[o.len() - 1] == id);
                assert forall|x: usize| self.recycled@.contains(x) implies x != id by {
                    let w = choose|w: int| 0 <= w < self.recycled@.len() && self.recycled@[w] == x;
                    assert(o[w] == x);
                }
                assert forall|x: usize| #[trigger] o.contains(x) <==> self.recycled@.contains(x) || x == id by {
                    if o.contains(x) && x != id {
                        let w = choose|w: int| 0 <= w < o.len() && o[w] == x;
                        assert(self.recycled@[w] == x);
                    }
                    if self.recycled@.contains(x) {
                        let w = choose|w: int| 0 <= w < self.recycled@.len() && self.recycled@[w] == x;
                        assert(o[w] == x);
                    }
                    if x == id {
                        assert(o[o.len() - 1] == x);
                    }
                }
                assert(self.in_use() =~= old(self).in_use().insert(id as nat));
            }
            id
        } else {
            self.current = self.current + 1;
            proof {
                assert(self.in_use() =~= old(self).in_use().insert(old(self).current as nat));
            }
            self.current - 1
        }
    }

    /// Releases an identifier that is in use.
    pub fn dealloc_id(&mut self, id: usize)
        requires
            old(self).wf(),
            old(self).in_use().contains(id as nat),
        ensures
            final(self).wf(),
            final(self).released() == old(self).released().push(id),
            final(self).next_fresh() == old(self).next_fresh(),
            final(self).in_use() == old(self).in_use().remove(id as nat),
    {
        self.recycled.push(id);
        proof {
            let o = old(self).recycled@;
            assert forall|x: usize| #[trigger] self.recycled@.contains(x) <==> o.contains(x) || x == id by {
                if self.recycled@.contains(x) && x != id {
                    let w = choose|w: int| 0 <= w < self.recycled@.len() && self.recycled@[w] == x;
                    assert(o[w] == x);
                }
                if o.contains(x) {
                    let w = choose|w: int| 0 <= w < o.len() && o[w] == x;
                    assert(self.recycled@[w] == x);
                }
                if x == id {
                    assert(self.recycled@[o.len() as int] == x);
                }
            }
            assert(self.in_use() =~= old(self).in_use().remove(id as nat));
        }
    }
}

/// Releasing an identifier and allocating again hands back that same
/// identifier: after `dealloc_id(id)` the released list ends with `id` (so the
/// next `alloc_id` returns it), and once it is taken again the released list is
/// what it was before the `dealloc_id`.
pub proof fn lemma_dealloc_then_alloc(before: RecycleAllocator, after: RecycleAllocator, id: usize)
    requires
        before.wf(),
        after.released() == before.released().push(id),
        after.next_fresh() == before.next_fresh(),
    ensures
        after.released().len() > 0,
        after.released().last() == id,
        after.released().drop_last() == before.released(),
{
    assert(after.released().drop_last() =~= before.released());
}

} // verus!
