//! Disjoint sets (union-find) over the items `0..n`, linking by size.
use vstd::prelude::*;

verus! {

/// Operations on a partition of `0..n` into classes, each named by its root item.
pub trait Find {
    /// The partition is well formed.
    spec fn inv(&self) -> bool;

    /// The root item of each item's class.
    spec fn roots(&self) -> Seq<usize>;

    /// The root of `v`'s class.
    fn find(&self, v: usize) -> (r: usize)
        requires
            self.inv(),
            v < self.roots().len(),
        ensures
            r == self.roots()[v as int];

    /// Merges the classes of `p` and `q`.
    fn union(&mut self, p: usize, q: usize)
        requires
            old(self).inv(),
            p < old(self).roots().len(),
            q < old(self).roots().len(),
        ensures
            final(self).inv(),
            final(self).roots().len() == old(self).roots().len(),
            final(self).roots()[p as int] == final(self).roots()[q as int],
            final(self).roots()[p as int] == old(self).roots()[p as int]
                || final(self).roots()[p as int] == old(self).roots()[q as int],
            forall|v: int| 0 <= v < old(self).roots().len() ==> {
                let was = old(self).roots()[v];
                if was == old(self).roots()[p as int] || was == old(self).roots()[q as int] {
                    #[trigger] final(self).roots()[v] == final(self).roots()[p as int]
                } else {
                    final(self).roots()[v] == was
                }
            };

    /// The number of items the structure was made with.
    fn count(&self) -> (r: u32)
        requires
            self.inv(),
        ensures
            r as nat == self.roots().len();
}

pub struct UnionFind {
    ids: Vec<usize>,
    sz: Vec<usize>,
    count: u32,
    root_of: Ghost<Seq<usize>>,
    rank: Ghost<Seq<nat>>,
    top: Ghost<nat>,
}

impl UnionFind {
    /// `n` items, each in a class of its own.
    pub fn new(n: usize) -> (r: UnionFind)
        requires
            n <= u32::MAX,
        ensures
            r.inv(),
            r.roots() == Seq::new(n as nat, |i: int| i as usize),
    {
        let mut ids: Vec<usize> = Vec::new();
        let mut sz: Vec<usize> = Vec::new();
        let mut i: usize = 0;
        while i < n
            invariant
                i <= n,
                ids@.len() == i,
                sz@.len() == i,
                forall|k: int| 0 <= k < i ==> ids@[k] == k,
            decreases n - i,
        {
            ids.push(i);
            sz.push(1);
            i = i + 1;
        }
        UnionFind {
            ids,
            sz,
            count: n as u32,
            root_of: Ghost(Seq::new(n as nat, |i: int| i as usize)),
            rank: Ghost(Seq::new(n as nat, |i: int| 0nat)),
            top: Ghost(0),
        }
    }
}

impl Find for UnionFind {
    closed spec fn inv(&self) -> bool {
        let n = self.ids@.len();
        &&& self.sz@.len() == n
        &&& self.root_of@.len() == n
        &&& self.rank@.len() == n
        &&& self.count as nat == n
        &&& forall|v: int| 0 <= v < n ==> #[trigger] self.ids@[v] < n
        &&& forall|v: int| 0 <= v < n ==> #[trigger] self.root_of@[v] < n
        &&& forall|v: int| 0 <= v < n ==> self.ids@[self.root_of@[v] as int] == #[trigger] self.root_of@[v]
        &&& forall|v: int| 0 <= v < n && #[trigger] self.ids@[v] == v ==> self.root_of@[v] == v
        &&& forall|v: int| 0 <= v < n && #[trigger] self.ids@[v] != v ==> self.root_of@[self.ids@[v] as int] == self.root_of@[v]
            && self.rank@[self.ids@[v] as int] > self.rank@[v]
        &&& forall|v: int| 0 <= v < n ==> #[trigger] self.rank@[v] <= self.top@
    }

    closed spec fn roots(&self) -> Seq<usize> {
        self.root_of@
    }

    fn find(&self, v: usize) -> (r: usize) {
        let mut v = v;
        let ghost start = v;
        while v != self.ids[v]
            invariant
                self.inv(),
                v < self.ids@.len(),
                self.root_of@[v as int] == self.root_of@[start as int],
            decreases self.top@ - self.rank@[v as int],
        {
            v = self.ids[v];
        }
        v
    }

    fn union(&mut self, p: usize, q: usize) {
        let p_root = self.find(p);
        let q_root = self.find(q);
        if p_root == q_root {
            return;
        }
        let ghost old_roots = self.root_of@;
        let ghost n = self.ids@.len();
        let (child, parent) = if self.sz[p_root] > self.sz[q_root] {
            (q_root, p_root)
        } else {
            (p_root, q_root)
        };
        self.ids.set(child, parent);
        let grown = self.sz[parent].saturating_add(self.sz[child]);
        self.sz.set(parent, grown);
        proof {
            let new_rank = if self.rank@[parent as int] > self.rank@[child as int] {
                self.rank@[parent as int]
            } else {
                self.rank@[child as int] + 1
            };
            self.rank@ = self.rank@.update(parent as int, new_rank);
            if new_rank > self.top@ {
                self.top@ = new_rank;
            }
            self.root_of@ = Seq::new(n, |v: int| if old_roots[v] == child { parent } else { old_roots[v] });
            assert forall|v: int| 0 <= v < n && #[trigger] self.ids@[v] != v implies self.root_of@[self.ids@[v] as int] == self.root_of@[v]
                && self.rank@[self.ids@[v] as int] > self.rank@[v] by {
                if v != child {
                    assert(old(self).ids@[v] == self.ids@[v]);
                }
            }
            assert forall|v: int| 0 <= v < n && #[trigger] self.ids@[v] == v implies self.root_of@[v] == v by {
                if v != child {
                    assert(old(self).ids@[v] == self.ids@[v]);
                }
            }
            assert forall|v: int| 0 <= v < n implies self.ids@[self.root_of@[v] as int] == #[trigger] self.root_of@[v] by {
                if old_roots[v] != child {
                    assert(old(self).ids@[old_roots[v] as int] == old_roots[v]);
                }
            }
        }
    }

    fn count(&self) -> (r: u32) {
        self.count
    }
}

} // verus!
