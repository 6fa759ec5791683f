use crate::arena::Registry;
use crate::handle::Handle;
use vstd::prelude::*;

verus! {

/// A vertex of the scene graph: its place in the hierarchy and the mesh
/// attached to it, if any. The transforms of a node are kept by the caller
/// under the node's handle.
#[derive(Debug)]
pub struct Node {
    pub parent: Option<Handle>,
    pub children: Vec<Handle>,
    pub mesh: Option<Handle>,
}

/// A node as contracts speak of it.
pub struct NodeView {
    pub parent: Option<Handle>,
    pub children: Seq<Handle>,
    pub mesh: Option<Handle>,
}

impl View for Node {
    type V = NodeView;

    open spec fn view(&self) -> NodeView {
        NodeView { parent: self.parent, children: self.children@, mesh: self.mesh }
    }
}

impl Node {
    /// A node without parent or children that carries `mesh`.
    pub fn new(mesh: Option<Handle>) -> (node: Node)
        ensures
            node@ == (NodeView { parent: None, children: Seq::empty(), mesh }),
    {
        Node { parent: None, children: Vec::new(), mesh }
    }
}

/// One step of a transform update: the world transform of `node` becomes
/// its local transform, composed on the left with the world transform of
/// `parent` where there is one.
#[derive(Clone, Copy, Debug, PartialEq, Eq)]
pub struct TransformStep {
    pub node: Handle,
    pub parent: Option<Handle>,
}

/// Why a structural edit of the scene graph was refused.
#[derive(Clone, Copy, Debug, PartialEq, Eq, Structural)]
pub enum SceneError {
    /// A handle does not resolve to a node of this scene.
    MissingNode,
    /// The node to attach already has a parent.
    AlreadyAttached,
    /// The new parent is the node itself or lies below it.
    WouldCycle,
}

/// A forest of nodes.
///
/// Parent and child links are kept mutually consistent, and no node lies
/// below itself: every node has a depth that is greater than its parent's.
pub struct Scene {
    nodes: Registry<Node>,
    depth: Ghost<Map<Handle, nat>>,
    limit: Ghost<nat>,
}

impl View for Scene {
    type V = Map<Handle, NodeView>;

    /// The nodes by their handles.
    closed spec fn view(&self) -> Map<Handle, NodeView> {
        self.nodes@.map_values(|n: Node| n@)
    }
}

impl Scene {
    /// A number that grows along every path from a root downwards.
    pub closed spec fn depth(&self, h: Handle) -> nat {
        self.depth@[h]
    }

    /// A bound on the depth of every node.
    pub closed spec fn limit(&self) -> nat {
        self.limit@
    }

    /// How far a node's depth is from the bound; it shrinks downwards.
    pub open spec fn gap(&self, h: Handle) -> nat {
        (self.limit() - self.depth(h)) as nat
    }

    /// The node store itself is consistent.
    pub closed spec fn store_wf(&self) -> bool {
        self.nodes.wf()
    }

    /// The handles of all nodes, in the order in which the store lists them.
    pub closed spec fn order(&self) -> Seq<Handle> {
        self.nodes.order()
    }

    /// The links of node `h` agree with those of its neighbours.
    pub open spec fn linked(&self, h: Handle) -> bool {
        let n = self@[h];
        &&& n.children.no_duplicates()
        &&& self.depth(h) <= self.limit()
        &&& n.parent matches Some(p) ==> {
            &&& self@.contains_key(p)
            &&& self@[p].children.contains(h)
            &&& self.depth(p) < self.depth(h)
        }
        &&& forall|i: int|
            0 <= i < n.children.len() ==> {
                &&& self@.contains_key(#[trigger] n.children[i])
                &&& self@[n.children[i]].parent == Some(h)
            }
    }

    /// The scene is a forest: every parent lists its child, every child
    /// names its parent, and depth grows from parent to child.
    pub open spec fn wf(&self) -> bool {
        &&& self.store_wf()
        &&& forall|h: Handle| #[trigger] self@.contains_key(h) ==> self.linked(h)
    }

    /// Whether `h` is `top` or lies below it.
    pub open spec fn reaches(&self, top: Handle, h: Handle) -> bool
        decreases self.depth(h),
        when self.wf() && self@.contains_key(h)
    {
        h == top || (self@[h].parent matches Some(p) && self.reaches(top, p))
    }

    /// The nodes at and below `h` in depth-first order: `h`, then the
    /// subtrees of its children, one after the other in child order.
    pub open spec fn preorder(&self, h: Handle) -> Seq<Handle>
        decreases self.gap(h), self@[h].children.len() + 1,
        when self.wf() && self@.contains_key(h)
    {
        seq![h] + self.preorder_among(h, 0)
    }

    /// The subtrees of the children of `h` from position `from` on, in
    /// depth-first order.
    pub open spec fn preorder_among(&self, h: Handle, from: nat) -> Seq<Handle>
        decreases self.gap(h), self@[h].children.len() - from,
        when self.wf() && self@.contains_key(h)
    {
        if from >= self@[h].children.len() {
            Seq::empty()
        } else {
            self.preorder(self@[h].children[from as int]) + self.preorder_among(h, from + 1)
        }
    }

    /// The nodes at and below `root` that carry a mesh, in depth-first
    /// order.
    pub open spec fn visible(&self, root: Handle) -> Seq<Handle> {
        self.preorder(root).filter(self.carries_mesh())
    }

    /// The test for a node that carries a mesh.
    pub open spec fn carries_mesh(&self) -> spec_fn(Handle) -> bool {
        |h: Handle| self@[h].mesh is Some
    }

    /// The depth-first orders of the trees whose roots the store lists from
    /// `row` on, one tree after the other.
    pub open spec fn forest_from(&self, row: nat) -> Seq<Handle>
        decreases self.order().len() - row,
    {
        if row >= self.order().len() {
            Seq::empty()
        } else {
            let h = self.order()[row as int];
            let tree = if self@[h].parent is None {
                self.preorder(h)
            } else {
                Seq::empty()
            };
            tree + self.forest_from(row + 1)
        }
    }

    /// The update step for a node.
    pub open spec fn step_of(&self) -> spec_fn(Handle) -> TransformStep {
        |h: Handle| TransformStep { node: h, parent: self@[h].parent }
    }

    /// The steps that bring every world transform up to date: one step for
    /// each node, tree by tree, a node before its children.
    pub open spec fn update_plan(&self) -> Seq<TransformStep> {
        self.forest_from(0).map_values(self.step_of())
    }

    /// What `attach(parent, child)` answers.
    pub open spec fn attach_check(&self, parent: Handle, child: Handle) -> Result<(), SceneError> {
        if !self@.contains_key(parent) || !self@.contains_key(child) {
            Err(SceneError::MissingNode)
        } else if self@[child].parent is Some {
            Err(SceneError::AlreadyAttached)
        } else if self.reaches(child, parent) {
            Err(SceneError::WouldCycle)
        } else {
            Ok(())
        }
    }

    /// The nodes after `child` became the last child of `parent`.
    pub open spec fn attached(&self, parent: Handle, child: Handle) -> Map<Handle, NodeView> {
        self@.insert(
            child,
            NodeView { parent: Some(parent), ..self@[child] },
        ).insert(
            parent,
            NodeView { children: self@[parent].children.push(child), ..self@[parent] },
        )
    }

    /// The nodes after `child` was cut from its parent, if it has one.
    pub open spec fn detached(&self, child: Handle) -> Map<Handle, NodeView> {
        match self@[child].parent {
            Some(p) => self@.insert(child, NodeView { parent: None, ..self@[child] }).insert(
                p,
                NodeView {
                    children: self@[p].children.remove(self@[p].children.index_of(child)),
                    ..self@[p]
                },
            ),
            None => self@,
        }
    }

    /// The store lists every node once.
    pub proof fn lemma_order(&self)
        requires
            self.wf(),
        ensures
            self.order().no_duplicates(),
            forall|h: Handle| self.order().contains(h) <==> self@.contains_key(h),
    {
        self.nodes.lemma_order();
    }

    /// An empty scene.
    pub fn new() -> (scene: Scene)
        ensures
            scene.wf(),
            scene@.dom().is_empty(),
            scene.order().len() == 0,
    {
        let scene = Scene { nodes: Registry::new(), depth: Ghost(Map::empty()), limit: Ghost(0) };
        scene
    }

    /// The node that `handle` resolves to.
    pub fn get_node(&self, handle: Handle) -> (node: Option<&Node>)
        requires
            self.wf(),
        ensures
            match node {
                Some(n) => self@.contains_key(handle) && n@ == self@[handle],
                None => !self@.contains_key(handle),
            },
    {
        self.nodes.get(handle)
    }

    /// Adds a node and returns its handle. The node enters the scene as a
    /// root without children, whatever links `node` carries; only its mesh
    /// is taken over.
    pub fn insert(&mut self, node: Node) -> (handle: Handle)
        requires
            old(self).wf(),
        ensures
            final(self).wf(),
            !old(self)@.contains_key(handle),
            final(self)@ == old(self)@.insert(
                handle,
                NodeView { parent: None, children: Seq::empty(), mesh: node.mesh },
            ),
            final(self).order() == old(self).order().push(handle),
    {
        let fresh = Node { parent: None, children: Vec::new(), mesh: node.mesh };
        let handle = self.nodes.insert(fresh);
        proof {
            self.depth@ = self.depth@.insert(handle, 0);
            assert(self@ =~= old(self)@.insert(
                handle,
                NodeView { parent: None, children: Seq::empty(), mesh: node.mesh },
            ));
            assert forall|h: Handle| #[trigger] self@.contains_key(h) implies self.linked(h) by {}
        }
        handle
    }

    /// Whether `h` is `top` or lies below it. A handle that does not resolve
    /// lies below nothing.
    pub fn is_below(&self, h: Handle, top: Handle) -> (below: bool)
        requires
            self.wf(),
        ensures
            below == (self@.contains_key(h) && self.reaches(top, h)),
    {
        let mut cur = h;
        loop
            invariant
                self.wf(),
                self@.contains_key(h) ==> self@.contains_key(cur) && self.reaches(top, h)
                    == self.reaches(top, cur),
                !self@.contains_key(h) ==> cur == h,
            decreases self.depth(cur),
        {
            match self.nodes.get(cur) {
                None => {
                    return false;
                },
                Some(node) => {
                    if cur == top {
                        return true;
                    }
                    match node.parent {
                        None => {
                            return false;
                        },
                        Some(p) => {
                            cur = p;
                        },
                    }
                },
            }
        }
    }

    /// Makes `child` the last child of `parent`. The edit is refused, and
    /// the scene left as it was, when a handle does not resolve, when
    /// `child` already has a parent, or when `parent` is `child` or lies
    /// below it.
    pub fn attach(&mut self, parent: Handle, child: Handle) -> (result: Result<(), SceneError>)
        requires
            old(self).wf(),
        ensures
            final(self).wf(),
            result == old(self).attach_check(parent, child),
            result is Ok ==> final(self)@ == old(self).attached(parent, child),
            result is Err ==> final(self)@ == old(self)@,
            final(self).order() == old(self).order(),
    {
        let child_is_root = match self.nodes.get(child) {
            None => {
                return Err(SceneError::MissingNode);
            },
            Some(node) => node.parent.is_none(),
        };
        if !self.nodes.contains(parent) {
            return Err(SceneError::MissingNode);
        }
        if !child_is_root {
            return Err(SceneError::AlreadyAttached);
        }
        if self.is_below(parent, child) {
            return Err(SceneError::WouldCycle);
        }
        match self.nodes.get_mut(child) {
            Some(node) => {
                node.parent = Some(parent);
            },
            None => {},
        }
        match self.nodes.get_mut(parent) {
            Some(node) => {
                node.children.push(child);
            },
            None => {},
        }
        proof {
            let pre = *old(self);
            let shift = pre.depth(parent) + 1;
            self.depth@ = Map::new(
                |h: Handle| true,
                |h: Handle| if pre@.contains_key(h) && pre.reaches(child, h) {
                    pre.depth(h) + shift
                } else {
                    pre.depth(h)
                },
            );
            self.limit@ = 2 * pre.limit() + 1;
            assert(self@ =~= pre.attached(parent, child));
            assert forall|h: Handle| #[trigger] self@.contains_key(h) implies self.linked(h) by {
                let n = self@[h];
                if h == child {
                    assert(self@[parent].children[pre@[parent].children.len() as int] == child);
                } else if let Some(p) = n.parent {
                    let i = choose|i: int| 0 <= i < pre@[p].children.len() && pre@[p].children[i] == h;
                    assert(self@[p].children[i] == h);
                }
            }
        }
        Ok(())
    }

    fn walk(&self, h: Handle, out: &mut Vec<Handle>)
        requires
            self.wf(),
            self@.contains_key(h),
        ensures
            final(out)@ == old(out)@ + self.preorder(h),
        decreases self.gap(h),
    {
        out.push(h);
        match self.nodes.get(h) {
            None => {},
            Some(node) => {
                let mut i: usize = 0;
                while i < node.children.len()
                    invariant
                        self.wf(),
                        self@.contains_key(h),
                        node@ == self@[h],
                        i <= node.children.len(),
                        out@ + self.preorder_among(h, i as nat) == old(out)@ + self.preorder(h),
                    decreases node.children.len() - i,
                {
                    let c = node.children[i];
                    let ghost before = out@;
                    self.walk(c, out);
                    i += 1;
                }
            },
        }
    }

    /// The nodes at and below `root` that carry a mesh, in the order of a
    /// depth-first walk that visits a node before its children and the
    /// children in their order. A root that does not resolve gives nothing.
    pub fn collect_visible_sub_items(&self, root: Handle) -> (items: Vec<Handle>)
        requires
            self.wf(),
        ensures
            self@.contains_key(root) ==> items@ == self.visible(root),
            !self@.contains_key(root) ==> items@.len() == 0,
    {
        let mut items: Vec<Handle> = Vec::new();
        if !self.nodes.contains(root) {
            return items;
        }
        let mut all: Vec<Handle> = Vec::new();
        self.walk(root, &mut all);
        let ghost keep = self.carries_mesh();
        assert forall|j: int| 0 <= j < all.len() implies self@.contains_key(#[trigger] all@[j]) by {
            self.lemma_preorder_sound(root, all@[j]);
        }
        let mut i: usize = 0;
        while i < all.len()
            invariant
                self.wf(),
                i <= all.len(),
                keep == self.carries_mesh(),
                forall|j: int| 0 <= j < all.len() ==> self@.contains_key(#[trigger] all@[j]),
                items@ == all@.take(i as int).filter(keep),
            decreases all.len() - i,
        {
            let h = all[i];
            let carries = match self.nodes.get(h) {
                Some(node) => node.mesh.is_some(),
                None => false,
            };
            proof {
                assert(all@.take(i + 1) =~= all@.take(i as int).push(h));
                all@.take(i as int).lemma_filter_push(h, keep);
            }
            if carries {
                items.push(h);
            }
            i += 1;
        }
        assert(all@.take(all.len() as int) =~= all@);
        items
    }

    /// Cuts `child` from its parent, so that it becomes a root. A root stays
    /// as it is. A handle that does not resolve is refused.
    pub fn detach(&mut self, child: Handle) -> (result: Result<(), SceneError>)
        requires
            old(self).wf(),
        ensures
            final(self).wf(),
            result == (if old(self)@.contains_key(child) {
                Ok::<(), SceneError>(())
            } else {
                Err(SceneError::MissingNode)
            }),
            result is Ok ==> final(self)@ == old(self).detached(child),
            result is Err ==> final(self)@ == old(self)@,
            final(self).order() == old(self).order(),
    {
        let parent = match self.nodes.get(child) {
            None => {
                return Err(SceneError::MissingNode);
            },
            Some(node) => node.parent,
        };
        let p = match parent {
            None => {
                return Ok(());
            },
            Some(p) => p,
        };
        assert(self@.contains_key(child));
        let at = match self.nodes.get(p) {
            Some(node) => position(&node.children, child),
            None => None,
        };
        let ghost pre = *old(self);
        let ghost siblings = pre@[p].children;
        assert(at is Some && at->0 == siblings.index_of(child)) by {}
        match self.nodes.get_mut(child) {
            Some(node) => {
                node.parent = None;
            },
            None => {},
        }
        match self.nodes.get_mut(p) {
            Some(node) => {
                if let Some(i) = at {
                    node.children.remove(i);
                }
            },
            None => {},
        }
        proof {
            assert(self@ =~= pre.detached(child));
            let i = at->0 as int;
            siblings.remove_ensures(i);
            assert forall|h: Handle| #[trigger] self@.contains_key(h) implies self.linked(h) by {
                let n = self@[h];
                if h != child {
                    if let Some(q) = n.parent {
                        let k = choose|k: int| 0 <= k < pre@[q].children.len() && pre@[q].children[k] == h;
                        if q == p {
                            let k1 = if k < i { k } else { k - 1 };
                            assert(self@[q].children[k1] == h);
                        }
                    }
                }
            }
        }
        Ok(())
    }

    /// The steps of a transform update, in an order in which they can be
    /// carried out one by one: every root the store lists is followed by
    /// the nodes below it in depth-first order, so a node's parent is
    /// settled before the node itself.
    pub fn update_world_transforms(&self) -> (plan: Vec<TransformStep>)
        requires
            self.wf(),
        ensures
            plan@ == self.update_plan(),
    {
        let mut all: Vec<Handle> = Vec::new();
        let count = self.nodes.len();
        let mut row: usize = 0;
        proof {
            self.nodes.lemma_order();
        }
        while row < count
            invariant
                self.wf(),
                count == self.order().len(),
                row <= count,
                forall|h: Handle| self.order().contains(h) <==> self.nodes@.contains_key(h),
                all@ + self.forest_from(row as nat) == self.forest_from(0),
            decreases count - row,
        {
            if let Some(h) = self.nodes.handle_at(row) {
                assert(self.order().contains(h));
                match self.nodes.get(h) {
                    Some(node) => {
                        if node.parent.is_none() {
                            self.walk(h, &mut all);
                        }
                    },
                    None => {},
                }
            }
            row += 1;
        }
        assert forall|j: int| 0 <= j < all.len() implies self@.contains_key(#[trigger] all@[j]) by {
            self.lemma_forest_live(0, all@[j]);
        }
        let mut plan: Vec<TransformStep> = Vec::new();
        let mut i: usize = 0;
        while i < all.len()
            invariant
                self.wf(),
                i <= all.len(),
                forall|j: int| 0 <= j < all.len() ==> self@.contains_key(#[trigger] all@[j]),
                plan@ == all@.take(i as int).map_values(self.step_of()),
            decreases all.len() - i,
        {
            let h = all[i];
            let parent = match self.nodes.get(h) {
                Some(node) => node.parent,
                None => None,
            };
            plan.push(TransformStep { node: h, parent });
            i += 1;
        }
        plan
    }
}

/// The first position at which `x` occurs in `v`.
fn position(v: &Vec<Handle>, x: Handle) -> (at: Option<usize>)
    ensures
        match at {
            Some(i) => i < v.len() && v[i as int] == x && !v@.take(i as int).contains(x),
            None => !v@.contains(x),
        },
{
    let mut i: usize = 0;
    while i < v.len()
        invariant
            i <= v.len(),
            !v@.take(i as int).contains(x),
        decreases v.len() - i,
    {
        if v[i] == x {
            return Some(i);
        }
        i += 1;
    }
    assert(v@.take(v.len() as int) =~= v@);
    None
}

} // verus!
