use crate::handle::Handle;
use crate::scene::{Scene, TransformStep};
use vstd::prelude::*;
use vstd::seq_lib::lemma_seq_concat_contains_all_elements;

verus! {

impl Scene {
    /// What lies at or below a child lies below its parent.
    pub proof fn lemma_reaches_through_parent(&self, top: Handle, mid: Handle, h: Handle)
        requires
            self.wf(),
            self@.contains_key(mid),
            self@.contains_key(h),
            self@[mid].parent == Some(top),
            self.reaches(mid, h),
        ensures
            self.reaches(top, h),
        decreases self.depth(h),
    {
        if h == mid {
            assert(self.reaches(top, top));
        } else {
            let p = self@[h].parent->0;
            self.lemma_reaches_through_parent(top, mid, p);
        }
    }

    /// A subtree of a later child is part of what `preorder_among` lists.
    pub proof fn lemma_among_has(&self, h: Handle, from: nat, at: int, x: Handle)
        requires
            self.wf(),
            self@.contains_key(h),
            from <= at < self@[h].children.len(),
            self.preorder(self@[h].children[at]).contains(x),
        ensures
            self.preorder_among(h, from).contains(x),
        decreases at - from,
    {
        let first = self.preorder(self@[h].children[from as int]);
        let rest = self.preorder_among(h, from + 1);
        lemma_seq_concat_contains_all_elements(first, rest, x);
        if from < at {
            self.lemma_among_has(h, from + 1, at, x);
        }
    }

    /// Whatever `preorder_among` lists comes from the subtree of one child.
    pub proof fn lemma_among_source(&self, h: Handle, from: nat, x: Handle) -> (at: int)
        requires
            self.wf(),
            self@.contains_key(h),
            self.preorder_among(h, from).contains(x),
        ensures
            from <= at < self@[h].children.len(),
            self.preorder(self@[h].children[at]).contains(x),
        decreases self@[h].children.len() - from,
    {
        let first = self.preorder(self@[h].children[from as int]);
        let rest = self.preorder_among(h, from + 1);
        lemma_seq_concat_contains_all_elements(first, rest, x);
        if first.contains(x) {
            from as int
        } else {
            self.lemma_among_source(h, from + 1, x)
        }
    }

    /// Everything in the depth-first order of `top` is a node at or below
    /// `top`.
    pub proof fn lemma_preorder_sound(&self, top: Handle, x: Handle)
        requires
            self.wf(),
            self@.contains_key(top),
            self.preorder(top).contains(x),
        ensures
            self@.contains_key(x),
            self.reaches(top, x),
        decreases self.gap(top),
    {
        lemma_seq_concat_contains_all_elements(seq![top], self.preorder_among(top, 0), x);
        if !seq![top].contains(x) {
            let at = self.lemma_among_source(top, 0, x);
            let c = self@[top].children[at];
            self.lemma_preorder_sound(c, x);
            self.lemma_reaches_through_parent(top, c, x);
        }
    }

    /// The depth-first order is closed under children.
    pub proof fn lemma_preorder_child(&self, top: Handle, p: Handle, at: int)
        requires
            self.wf(),
            self@.contains_key(top),
            self.preorder(top).contains(p),
            self@.contains_key(p),
            0 <= at < self@[p].children.len(),
        ensures
            self.preorder(top).contains(self@[p].children[at]),
        decreases self.gap(top),
    {
        let x = self@[p].children[at];
        lemma_seq_concat_contains_all_elements(seq![top], self.preorder_among(top, 0), p);
        lemma_seq_concat_contains_all_elements(seq![top], self.preorder_among(top, 0), x);
        if p == top {
            assert(self.preorder(x)[0] == x);
            self.lemma_among_has(top, 0, at, x);
        } else {
            let via = self.lemma_among_source(top, 0, p);
            let c = self@[top].children[via];
            self.lemma_preorder_child(c, p, at);
            self.lemma_among_has(top, 0, via, x);
        }
    }

    /// Every node at or below `top` is in the depth-first order of `top`.
    pub proof fn lemma_preorder_complete(&self, top: Handle, x: Handle)
        requires
            self.wf(),
            self@.contains_key(top),
            self@.contains_key(x),
            self.reaches(top, x),
        ensures
            self.preorder(top).contains(x),
        decreases self.depth(x),
    {
        if x == top {
            assert(self.preorder(top)[0] == top);
        } else {
            let p = self@[x].parent->0;
            self.lemma_preorder_complete(top, p);
            let at = choose|i: int| 0 <= i < self@[p].children.len() && self@[p].children[i] == x;
            self.lemma_preorder_child(top, p, at);
        }
    }

    /// The visible nodes of `root` are exactly the nodes at or below `root`
    /// that carry a mesh: no such node is left out, and no node without a
    /// mesh and no node from elsewhere is listed.
    pub proof fn lemma_visible_exactly_reachable_meshes(&self, root: Handle)
        requires
            self.wf(),
            self@.contains_key(root),
        ensures
            forall|h: Handle| #[trigger]
                self.visible(root).contains(h) <==> {
                    &&& self@.contains_key(h)
                    &&& self.reaches(root, h)
                    &&& self@[h].mesh is Some
                },
    {
        let keep = self.carries_mesh();
        let all = self.preorder(root);
        assert forall|h: Handle| #[trigger] self.visible(root).contains(h) <==> {
            &&& self@.contains_key(h)
            &&& self.reaches(root, h)
            &&& self@[h].mesh is Some
        } by {
            if self.visible(root).contains(h) {
                all.lemma_filter_contains_rev(keep, h);
                self.lemma_preorder_sound(root, h);
                let i = choose|i: int| 0 <= i < all.filter(keep).len() && all.filter(keep)[i] == h;
                all.lemma_filter_pred(keep, i);
            }
            if self@.contains_key(h) && self.reaches(root, h) && self@[h].mesh is Some {
                self.lemma_preorder_complete(root, h);
                let i = choose|i: int| 0 <= i < all.len() && all[i] == h;
                all.lemma_filter_contains(keep, i);
            }
        }
    }

    /// Everything in the trees listed from `row` on is a node.
    pub proof fn lemma_forest_live(&self, row: nat, x: Handle)
        requires
            self.wf(),
            self.forest_from(row).contains(x),
        ensures
            self@.contains_key(x),
        decreases self.order().len() - row,
    {
        self.lemma_order();
        let h = self.order()[row as int];
        assert(self.order().contains(h));
        let tree = if self@[h].parent is None {
            self.preorder(h)
        } else {
            Seq::empty()
        };
        lemma_seq_concat_contains_all_elements(tree, self.forest_from(row + 1), x);
        if tree.contains(x) {
            self.lemma_preorder_sound(h, x);
        } else {
            self.lemma_forest_live(row + 1, x);
        }
    }

    /// The root of the tree that `h` stands in.
    pub open spec fn root_of(&self, h: Handle) -> Handle
        decreases self.depth(h),
        when self.wf() && self@.contains_key(h)
    {
        match self@[h].parent {
            Some(p) => self.root_of(p),
            None => h,
        }
    }

    /// The nodes whose local transforms make up the world transform of
    /// `h`: its ancestors from the root down, then `h` itself. The world
    /// transform is their product, taken from the left.
    pub open spec fn world_chain(&self, h: Handle) -> Seq<Handle>
        decreases self.depth(h),
        when self.wf() && self@.contains_key(h)
    {
        match self@[h].parent {
            Some(p) => self.world_chain(p).push(h),
            None => seq![h],
        }
    }

    /// The root above a node is a node without parent, and the node lies at
    /// or below it.
    pub proof fn lemma_root_of(&self, h: Handle)
        requires
            self.wf(),
            self@.contains_key(h),
        ensures
            self@.contains_key(self.root_of(h)),
            self@[self.root_of(h)].parent is None,
            self.reaches(self.root_of(h), h),
        decreases self.depth(h),
    {
        if let Some(p) = self@[h].parent {
            self.lemma_root_of(p);
        }
    }

    /// A tree whose root the store lists at or after `row` is part of the
    /// forest from `row` on.
    pub proof fn lemma_forest_has(&self, row: nat, at: int, x: Handle)
        requires
            self.wf(),
            row <= at < self.order().len(),
            self@[self.order()[at]].parent is None,
            self.preorder(self.order()[at]).contains(x),
        ensures
            self.forest_from(row).contains(x),
        decreases at - row,
    {
        let h = self.order()[row as int];
        let tree = if self@[h].parent is None {
            self.preorder(h)
        } else {
            Seq::empty()
        };
        lemma_seq_concat_contains_all_elements(tree, self.forest_from(row + 1), x);
        if row < at {
            self.lemma_forest_has(row + 1, at, x);
        }
    }

    /// The update visits every node.
    pub proof fn lemma_forest_covers(&self, h: Handle)
        requires
            self.wf(),
            self@.contains_key(h),
        ensures
            self.forest_from(0).contains(h),
    {
        self.lemma_root_of(h);
        self.lemma_order();
        let r = self.root_of(h);
        assert(self.order().contains(r));
        let at = choose|i: int| 0 <= i < self.order().len() && self.order()[i] == r;
        self.lemma_preorder_complete(r, h);
        self.lemma_forest_has(0, at, h);
    }

    /// In the subtrees of the children of `top`, every node comes after
    /// its parent, unless that parent is `top` itself.
    pub proof fn lemma_among_parent_first(&self, top: Handle, from: nat, k: int)
        requires
            self.wf(),
            self@.contains_key(top),
            0 <= k < self.preorder_among(top, from).len(),
        ensures
            self@[self.preorder_among(top, from)[k]].parent matches Some(p) && (p == top
                || self.preorder_among(top, from).take(k).contains(p)),
        decreases self.gap(top), self@[top].children.len() - from,
    {
        let c = self@[top].children[from as int];
        let first = self.preorder(c);
        let rest = self.preorder_among(top, from + 1);
        let all = self.preorder_among(top, from);
        if k < first.len() {
            self.lemma_preorder_parent_first(c, k);
            if k > 0 {
                let p = self@[first[k]].parent->0;
                let j = choose|j: int| 0 <= j < first.take(k).len() && first.take(k)[j] == p;
                assert(all.take(k)[j] == p);
            }
        } else {
            let k1 = k - first.len();
            self.lemma_among_parent_first(top, from + 1, k1);
            let p = self@[rest[k1]].parent->0;
            if p != top {
                let j = choose|j: int| 0 <= j < rest.take(k1).len() && rest.take(k1)[j] == p;
                assert(all.take(k)[j + first.len()] == p);
            }
        }
    }

    /// The depth-first order starts with its root, and every other node in
    /// it comes after its parent.
    pub proof fn lemma_preorder_parent_first(&self, top: Handle, k: int)
        requires
            self.wf(),
            self@.contains_key(top),
            0 <= k < self.preorder(top).len(),
        ensures
            k == 0 ==> self.preorder(top)[k] == top,
            k > 0 ==> (self@[self.preorder(top)[k]].parent matches Some(p) && self.preorder(
                top,
            ).take(k).contains(p)),
        decreases self.gap(top), self@[top].children.len() + 1,
    {
        if k > 0 {
            let rest = self.preorder_among(top, 0);
            let all = self.preorder(top);
            self.lemma_among_parent_first(top, 0, k - 1);
            let p = self@[rest[k - 1]].parent->0;
            if p == top {
                assert(all.take(k)[0] == top);
            } else {
                let head = rest.take(k - 1);
                let j = choose|j: int| 0 <= j < head.len() && head[j] == p;
                assert(all.take(k)[j + 1] == p);
            }
        }
    }

    /// In the forest order, every node with a parent comes after it.
    pub proof fn lemma_forest_parent_first(&self, row: nat, k: int)
        requires
            self.wf(),
            0 <= k < self.forest_from(row).len(),
        ensures
            self@[self.forest_from(row)[k]].parent matches Some(p) ==> self.forest_from(row).take(
                k,
            ).contains(p),
        decreases self.order().len() - row,
    {
        self.lemma_order();
        let h = self.order()[row as int];
        assert(self.order().contains(h));
        let tree = if self@[h].parent is None {
            self.preorder(h)
        } else {
            Seq::empty()
        };
        let rest = self.forest_from(row + 1);
        let all = self.forest_from(row);
        if k < tree.len() {
            self.lemma_preorder_parent_first(h, k);
            if k > 0 {
                let p = self@[tree[k]].parent->0;
                let j = choose|j: int| 0 <= j < tree.take(k).len() && tree.take(k)[j] == p;
                assert(all.take(k)[j] == p);
            }
        } else {
            let k1 = k - tree.len();
            self.lemma_forest_parent_first(row + 1, k1);
            if let Some(p) = self@[rest[k1]].parent {
                let j = choose|j: int| 0 <= j < rest.take(k1).len() && rest.take(k1)[j] == p;
                assert(all.take(k)[j + tree.len()] == p);
            }
        }
    }

    proof fn lemma_replay_prefix(&self, k: int)
        requires
            self.wf(),
            0 <= k <= self.forest_from(0).len(),
        ensures
            forall|i: int|
                0 <= i < k ==> {
                    &&& replay(self.update_plan().take(k)).contains_key(
                        #[trigger] self.forest_from(0)[i],
                    )
                    &&& replay(self.update_plan().take(k))[self.forest_from(0)[i]]
                        == self.world_chain(self.forest_from(0)[i])
                },
        decreases k,
    {
        if k > 0 {
            let nodes = self.forest_from(0);
            let steps = self.update_plan();
            self.lemma_replay_prefix(k - 1);
            self.lemma_forest_parent_first(0, k - 1);
            assert(steps.take(k).drop_last() =~= steps.take(k - 1));
            let x = nodes[k - 1];
            self.lemma_forest_live(0, x);
        }
    }

    /// Carried out in order, the update leaves with every node the product
    /// of the local transforms of its ancestors, from the root down, and of
    /// its own: no world transform is computed from a parent's that is not
    /// yet up to date.
    pub proof fn lemma_update_composes_ancestors(&self, h: Handle)
        requires
            self.wf(),
            self@.contains_key(h),
        ensures
            replay(self.update_plan()).contains_key(h),
            replay(self.update_plan())[h] == self.world_chain(h),
    {
        let nodes = self.forest_from(0);
        self.lemma_forest_covers(h);
        self.lemma_replay_prefix(nodes.len() as int);
        assert(self.update_plan().take(nodes.len() as int) =~= self.update_plan());
    }

    /// In a scene without parent and child links the update takes the
    /// nodes as the store lists them and gives each its local transform as
    /// its world transform.
    pub proof fn lemma_flat_scene_world_is_local(&self)
        requires
            self.wf(),
            forall|h: Handle| #[trigger] self@.contains_key(h) ==> self@[h].parent is None,
        ensures
            self.update_plan() == self.order().map_values(
                |h: Handle| TransformStep { node: h, parent: None },
            ),
            forall|h: Handle| #[trigger]
                self@.contains_key(h) ==> replay(self.update_plan())[h] == seq![h],
    {
        self.lemma_flat_forest(0);
        self.lemma_order();
        assert forall|i: int| 0 <= i < self.order().len() implies #[trigger] self.update_plan()[i]
            == (TransformStep { node: self.order()[i], parent: None }) by {
            assert(self.order().contains(self.order()[i]));
        }
        assert forall|h: Handle| #[trigger] self@.contains_key(h) implies replay(
            self.update_plan(),
        )[h] == seq![h] by {
            self.lemma_update_composes_ancestors(h);
        }
    }

    proof fn lemma_flat_forest(&self, row: nat)
        requires
            self.wf(),
            forall|h: Handle| #[trigger] self@.contains_key(h) ==> self@[h].parent is None,
            row <= self.order().len(),
        ensures
            self.forest_from(row) == self.order().skip(row as int),
        decreases self.order().len() - row,
    {
        self.lemma_order();
        if row < self.order().len() {
            let h = self.order()[row as int];
            assert(self.order().contains(h));
            self.lemma_flat_forest(row + 1);
        }
    }

    /// Composition order along a chain. Where `a` is a child of the root
    /// `r` and `b` a child of `a`, the update leaves with `b` the product
    /// of the local transforms of `r`, `a` and `b`, in this order.
    pub proof fn lemma_chain_composition_order(&self, r: Handle, a: Handle, b: Handle)
        requires
            self.wf(),
            self@.contains_key(r),
            self@.contains_key(a),
            self@.contains_key(b),
            self@[r].parent is None,
            self@[a].parent == Some(r),
            self@[b].parent == Some(a),
        ensures
            replay(self.update_plan())[b] == seq![r, a, b],
            replay(self.update_plan())[a] == seq![r, a],
            replay(self.update_plan())[r] == seq![r],
    {
        self.lemma_update_composes_ancestors(r);
        self.lemma_update_composes_ancestors(a);
        self.lemma_update_composes_ancestors(b);
    }
}

/// What carrying out `steps` in order leaves with each node: the nodes
/// whose local transforms were multiplied into its world transform, from
/// the left.
pub open spec fn replay(steps: Seq<TransformStep>) -> Map<Handle, Seq<Handle>>
    decreases steps.len(),
{
    if steps.len() == 0 {
        Map::empty()
    } else {
        let before = replay(steps.drop_last());
        let step = steps.last();
        before.insert(
            step.node,
            match step.parent {
                Some(p) => before[p].push(step.node),
                None => seq![step.node],
            },
        )
    }
}

} // verus!
