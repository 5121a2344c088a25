use vstd::prelude::*;

verus! {

/// A value from which a BVH node's box can be taken.
pub trait BVHNodeBuilder<N> {
    fn get_node(&self) -> N;
}

/// A bounding volume hierarchy: each node has a box (`node`) and at most two
/// children, and a leaf names one scene object.
pub struct BVHTree<N> {
    pub left: Option<Box<BVHTree<N>>>,
    pub right: Option<Box<BVHTree<N>>>,
    pub object: Option<String>,
    pub node: N,
}

/// The objects named in `t`, in the order of a walk that visits a node, then
/// its left subtree, then its right one.
pub open spec fn leaves<N>(t: BVHTree<N>) -> Seq<Seq<char>>
    decreases t,
{
    let own = match t.object {
        Some(name) => seq![name@],
        None => Seq::empty(),
    };
    let l = match t.left {
        Some(c) => leaves(*c),
        None => Seq::empty(),
    };
    let r = match t.right {
        Some(c) => leaves(*c),
        None => Seq::empty(),
    };
    own + l + r
}

/// Depth of the chain of left children below `t`.
pub open spec fn chain_len<N>(t: BVHTree<N>) -> nat
    decreases t,
{
    match t.left {
        Some(c) => 1 + chain_len(*c),
        None => 0,
    }
}

/// The test `f` gives one answer for each box, and can be asked of any box.
pub open spec fn decisive<N, F: Fn(&N) -> bool>(f: F) -> bool {
    &&& forall|n: &N| #[trigger] f.requires((n,))
    &&& forall|n: &N, b: bool| #[trigger] f.ensures((n,), b) ==> b == f.ensures((n,), true)
}

/// The objects of `t` that a walk pruned by the box test `f` reaches: those
/// whose own leaf box and every enclosing box pass the test, in walk order.
pub open spec fn reached<N, F: Fn(&N) -> bool>(t: BVHTree<N>, f: F) -> Seq<Seq<char>>
    decreases t,
{
    if f.ensures((&t.node,), true) {
        let own = match t.object {
            Some(name) => seq![name@],
            None => Seq::empty(),
        };
        let l = match t.left {
            Some(c) => reached(*c, f),
            None => Seq::empty(),
        };
        let r = match t.right {
            Some(c) => reached(*c, f),
            None => Seq::empty(),
        };
        own + l + r
    } else {
        Seq::empty()
    }
}

/// The box test `f` rejects the box of every node of `t` that names an object.
pub open spec fn misses_every_object<N, F: Fn(&N) -> bool>(t: BVHTree<N>, f: F) -> bool
    decreases t,
{
    &&& (t.object.is_some() ==> !f.ensures((&t.node,), true))
    &&& match t.left {
        Some(c) => misses_every_object(*c, f),
        None => true,
    }
    &&& match t.right {
        Some(c) => misses_every_object(*c, f),
        None => true,
    }
}

/// Pruning is sound: a walk reaches only objects of the tree, and where the
/// box test rejects every object's own box it reaches none.
pub proof fn lemma_pruned_walk_sound<N, F: Fn(&N) -> bool>(t: BVHTree<N>, f: F)
    ensures
        forall|i: int| 0 <= i < reached(t, f).len() ==> leaves(t).contains(#[trigger] reached(t, f)[i]),
        misses_every_object(t, f) ==> reached(t, f).len() == 0,
    decreases t,
{
    let own = match t.object {
        Some(name) => seq![name@],
        None => Seq::<Seq<char>>::empty(),
    };
    let ll = match t.left {
        Some(c) => leaves(*c),
        None => Seq::empty(),
    };
    let lr = match t.right {
        Some(c) => leaves(*c),
        None => Seq::empty(),
    };
    let rl = match t.left {
        Some(c) => reached(*c, f),
        None => Seq::empty(),
    };
    let rr = match t.right {
        Some(c) => reached(*c, f),
        None => Seq::empty(),
    };
    match t.left {
        Some(c) => lemma_pruned_walk_sound(*c, f),
        None => {},
    }
    match t.right {
        Some(c) => lemma_pruned_walk_sound(*c, f),
        None => {},
    }
    assert(leaves(t) == own + ll + lr);
    if f.ensures((&t.node,), true) {
        assert(reached(t, f) == own + rl + rr);
        assert forall|i: int| 0 <= i < reached(t, f).len() implies leaves(t).contains(
            #[trigger] reached(t, f)[i],
        ) by {
            let x = reached(t, f)[i];
            if i < own.len() {
                assert(leaves(t)[i] == x);
            } else if i < own.len() + rl.len() {
                let j = choose|j: int| 0 <= j < ll.len() && ll[j] == rl[i - own.len()];
                assert(leaves(t)[own.len() + j] == x);
            } else {
                let j = choose|j: int| 0 <= j < lr.len() && lr[j] == rr[i - own.len() - rl.len()];
                assert(leaves(t)[own.len() + ll.len() + j] == x);
            }
        }
    }
}

/// The names held by a vector of strings.
pub open spec fn names(v: Seq<String>) -> Seq<Seq<char>> {
    v.map_values(|s: String| s@)
}

impl<N> BVHTree<N> {
    pub fn new(node: N, object: Option<String>) -> (r: Self)
        ensures
            r.left.is_none(),
            r.right.is_none(),
            r.object == object,
            r.node == node,
    {
        BVHTree { left: None, right: None, object, node }
    }

    /// Adds the object `object` with box `node`: the tree so far becomes the
    /// left child of a new root whose box is `enclosing`, and the new leaf its
    /// right child.
    pub fn insert(self, enclosing: N, node: N, object: String) -> (r: Self)
        ensures
            r.node == enclosing,
            r.object.is_none(),
            r.left == Some(Box::new(self)),
            r.right == Some(Box::new(BVHTree::<N> { left: None, right: None, object: Some(object), node })),
            leaves(r) == leaves(self).push(object@),
            chain_len(r) == chain_len(self) + 1,
    {
        let leaf = BVHTree::new(node, Some(object));
        let r = BVHTree { left: Some(Box::new(self)), right: Some(Box::new(leaf)), object: None, node: enclosing };
        assert(leaves(leaf) =~= seq![object@]);
        assert(leaves(r) =~= leaves(self).push(object@));
        r
    }

    /// Hangs the object `object` with box `node` under this node, in the first
    /// free child slot, where `fits` (the node's box holds `node`) is true;
    /// otherwise hands the object back.
    pub fn contain(&mut self, node: N, object: String, fits: bool) -> (r: Option<(N, String)>)
        ensures
            final(self).node == old(self).node,
            final(self).object == old(self).object,
            fits && old(self).left.is_none() ==> r.is_none() && final(self).left == Some(
                Box::new(BVHTree::<N> { left: None, right: None, object: Some(object), node }),
            ) && final(self).right == old(self).right,
            fits && old(self).left.is_some() && old(self).right.is_none() ==> r.is_none()
                && final(self).left == old(self).left && final(self).right == Some(
                Box::new(BVHTree::<N> { left: None, right: None, object: Some(object), node }),
            ),
            !fits || (old(self).left.is_some() && old(self).right.is_some()) ==> r == Some(
                (node, object),
            ) && *final(self) == *old(self),
    {
        if fits {
            if self.left.is_none() {
                self.left = Some(Box::new(BVHTree::new(node, Some(object))));
                None
            } else if self.right.is_none() {
                self.right = Some(Box::new(BVHTree::new(node, Some(object))));
                None
            } else {
                Some((node, object))
            }
        } else {
            Some((node, object))
        }
    }

    /// The objects whose boxes a ray may hit: the walk descends into a node
    /// only where `hits` accepts the node's box.
    pub fn intersect<F: Fn(&N) -> bool>(&self, hits: &F) -> (r: Vec<String>)
        requires
            decisive(*hits),
        ensures
            names(r@) == reached(*self, *hits),
        decreases self,
    {
        let mut result: Vec<String> = Vec::new();
        let hit = hits(&self.node);
        if hit {
            if let Some(name) = &self.object {
                result.push(name.clone());
            }
            if let Some(c) = &self.left {
                let mut l = c.intersect(hits);
                result.append(&mut l);
            }
            if let Some(c) = &self.right {
                let mut rr = c.intersect(hits);
                result.append(&mut rr);
            }
            assert(names(result@) =~= reached(*self, *hits));
        } else {
            assert(names(result@) =~= Seq::<Seq<char>>::empty());
        }
        result
    }
}

} // verus!
