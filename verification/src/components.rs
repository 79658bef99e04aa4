//! The transform component and the hierarchy that transforms form.

use crate::component::{
    Component, InitNecessary, NotRegistered, RenderNecessary, Stage, UpdateNecessary,
};
use vstd::prelude::*;

verus! {

/// Type identifier of the component `Transform`.
pub const TRANSFORM: u64 = 1;

/// The bits of the single-precision number 1.
pub const ONE_BITS: u32 = 0x3f80_0000;

/// Three single-precision numbers, each held as its bits.
#[derive(Clone, Copy, Debug, PartialEq, Eq, Structural)]
pub struct Vector3 {
    pub x: u32,
    pub y: u32,
    pub z: u32,
}

/// How a node hangs in the hierarchy: the handle of its parent, and the
/// handles of its children in the order they were attached.
pub struct Link {
    pub parent: Option<usize>,
    pub children: Seq<usize>,
}

/// How a node stands with an entity: the entity it is registered with,
/// and where it is in its life as a component.
pub struct Registration {
    pub owner: Option<u64>,
    pub stage: Stage,
}

/// Where a node stands relative to its parent.
#[derive(Clone, Copy, Debug, PartialEq, Eq, Structural)]
pub struct Placement {
    pub position: Vector3,
    /// Euler angles, in radians.
    pub rotation: Vector3,
    pub scale: Vector3,
}

/// One node of the hierarchy: its placement relative to its parent, and
/// how it hangs in the hierarchy.
pub struct Transform {
    object: Option<u64>,
    stage: Stage,
    children: Vec<usize>,
    parent: Option<usize>,
    placement: Placement,
}

/// The placement that changes nothing: no offset, no rotation, scale one.
pub open spec fn identity_placement() -> Placement {
    Placement {
        position: Vector3 { x: 0, y: 0, z: 0 },
        rotation: Vector3 { x: 0, y: 0, z: 0 },
        scale: Vector3 { x: ONE_BITS, y: ONE_BITS, z: ONE_BITS },
    }
}

impl Transform {
    /// How the node hangs in the hierarchy.
    pub closed spec fn link(&self) -> Link {
        Link { parent: self.parent, children: self.children@ }
    }

    /// Where the node stands relative to its parent.
    pub closed spec fn placed(&self) -> Placement {
        self.placement
    }

    /// How the node stands with an entity.
    pub open spec fn registration(&self) -> Registration {
        Registration { owner: self.owner(), stage: self.stage() }
    }

    /// A transform that changes nothing, with no parent, no children and
    /// no entity.
    pub fn new() -> (r: Transform)
        ensures
            r.link() == (Link { parent: None, children: Seq::empty() }),
            r.placed() == identity_placement(),
            r.owner() is None,
            r.stage() == Stage::Unregistered,
    {
        Transform {
            object: None,
            stage: Stage::Unregistered,
            children: Vec::new(),
            parent: None,
            placement: Placement {
                position: Vector3 { x: 0, y: 0, z: 0 },
                rotation: Vector3 { x: 0, y: 0, z: 0 },
                scale: Vector3 { x: ONE_BITS, y: ONE_BITS, z: ONE_BITS },
            },
        }
    }

    /// Where the node stands relative to its parent.
    pub fn placement(&self) -> (r: Placement)
        ensures
            r == self.placed(),
    {
        self.placement
    }

    /// Moves the node relative to its parent. Nothing else changes.
    pub fn set_placement(&mut self, placement: Placement)
        ensures
            final(self).placed() == placement,
            final(self).link() == old(self).link(),
            final(self).owner() == old(self).owner(),
            final(self).stage() == old(self).stage(),
    {
        self.placement = placement;
    }

    /// Names `parent` as the parent, or none.
    fn set_parent(&mut self, parent: Option<usize>)
        ensures
            final(self).link() == (Link { parent, children: old(self).link().children }),
            final(self).placed() == old(self).placed(),
            final(self).registration() == old(self).registration(),
    {
        self.parent = parent;
    }

    /// Takes `child` in as the last child.
    fn push_child(&mut self, child: usize)
        ensures
            final(self).link() == (Link {
                parent: old(self).link().parent,
                children: old(self).link().children.push(child),
            }),
            final(self).placed() == old(self).placed(),
            final(self).registration() == old(self).registration(),
    {
        self.children.push(child);
    }

    /// Forgets the `k`-th child.
    fn drop_child(&mut self, k: usize)
        requires
            k < old(self).link().children.len(),
        ensures
            final(self).link() == (Link {
                parent: old(self).link().parent,
                children: old(self).link().children.remove(k as int),
            }),
            final(self).placed() == old(self).placed(),
            final(self).registration() == old(self).registration(),
    {
        self.children.remove(k);
    }

    /// The handle of the `i`-th child, if there are that many.
    pub fn get_child(&self, i: usize) -> (r: Option<usize>)
        ensures
            r == if i < self.link().children.len() {
                Some(self.link().children[i as int])
            } else {
                None
            },
    {
        if i < self.children.len() {
            Some(self.children[i])
        } else {
            None
        }
    }

    /// The number of children.
    pub fn child_count(&self) -> (r: usize)
        ensures
            r == self.link().children.len(),
    {
        self.children.len()
    }

    /// The handle of the parent, if there is one.
    pub fn get_parent(&self) -> (r: Option<usize>)
        ensures
            r == self.link().parent,
    {
        self.parent
    }

    /// Tells whether the node hangs under a parent.
    pub fn has_parent(&self) -> (r: bool)
        ensures
            r == (self.link().parent is Some),
    {
        self.parent.is_some()
    }
}

impl Component for Transform {
    open spec fn type_key(&self) -> u64 {
        TRANSFORM
    }

    open spec fn rank(&self) -> i32 {
        0
    }

    closed spec fn owner(&self) -> Option<u64> {
        self.object
    }

    closed spec fn stage(&self) -> Stage {
        self.stage
    }

    fn type_id(&self) -> (k: u64) {
        TRANSFORM
    }

    fn priority(&self) -> (p: i32) {
        0
    }

    fn on_reg(&mut self, obj: u64)
        ensures
            final(self).link() == old(self).link(),
            final(self).placed() == old(self).placed(),
    {
        self.object = Some(obj);
        self.stage = Stage::Registered;
    }

    fn on_unreg(&mut self)
        ensures
            final(self).link() == old(self).link(),
            final(self).placed() == old(self).placed(),
    {
        self.object = None;
        self.stage = Stage::Unregistered;
    }

    fn on_add(&mut self)
        ensures
            final(self).link() == old(self).link(),
            final(self).placed() == old(self).placed(),
    {
        self.stage = Stage::Active;
    }

    fn on_remove(&mut self)
        ensures
            final(self).link() == old(self).link(),
            final(self).placed() == old(self).placed(),
    {
        self.stage = Stage::Inactive;
    }

    fn object(&self) -> (r: Result<u64, NotRegistered>) {
        match self.object {
            Some(id) => Ok(id),
            None => Err(NotRegistered),
        }
    }

    fn init(&mut self, nec: InitNecessary<'_>)
        ensures
            final(self).link() == old(self).link(),
            final(self).placed() == old(self).placed(),
    {
    }

    fn render(&mut self, nec: RenderNecessary<'_>)
        ensures
            final(self).link() == old(self).link(),
            final(self).placed() == old(self).placed(),
    {
    }

    fn start(&mut self)
        ensures
            final(self).link() == old(self).link(),
            final(self).placed() == old(self).placed(),
    {
        self.stage = Stage::Started;
    }

    fn update(&mut self, nec: UpdateNecessary<'_>)
        ensures
            final(self).link() == old(self).link(),
            final(self).placed() == old(self).placed(),
    {
    }

    fn destroy(&mut self)
        ensures
            final(self).link() == old(self).link(),
            final(self).placed() == old(self).placed(),
    {
    }
}

/// The parent of node `n`.
pub open spec fn parent_of(links: Seq<Link>, n: usize) -> Option<usize> {
    links[n as int].parent
}

/// The `i`-th child of node `n`.
pub open spec fn child_at(links: Seq<Link>, n: usize, i: int) -> usize {
    links[n as int].children[i]
}

/// Every parent knows each node that names it as its parent, and is named
/// by each node it knows as a child; all handles are those of nodes.
pub open spec fn links_agree(links: Seq<Link>) -> bool {
    &&& forall|c: usize|
        c < links.len() ==> (#[trigger] parent_of(links, c) matches Some(p) ==> p < links.len()
            && links[p as int].children.contains(c))
    &&& forall|p: usize, i: int|
        p < links.len() && 0 <= i < links[p as int].children.len() ==> (#[trigger] child_at(
            links,
            p,
            i,
        )) < links.len() && links[child_at(links, p, i) as int].parent == Some(p)
}

/// No node is twice the child of one parent.
pub open spec fn children_distinct(links: Seq<Link>) -> bool {
    forall|n: int| 0 <= n < links.len() ==> (#[trigger] links[n]).children.no_duplicates()
}

/// Every parent is lower than its children. Heights that make this true
/// exist exactly where no node is its own ancestor.
pub open spec fn parents_lower(links: Seq<Link>, heights: Seq<nat>) -> bool {
    &&& heights.len() == links.len()
    &&& forall|c: usize|
        c < links.len() ==> (#[trigger] parent_of(links, c) matches Some(p) ==> p < links.len()
            && heights[p as int] < heights[c as int])
}

/// What holds of a hierarchy between any two calls: it is a forest.
pub open spec fn forest_wf(links: Seq<Link>, heights: Seq<nat>) -> bool {
    &&& links_agree(links)
    &&& children_distinct(links)
    &&& parents_lower(links, heights)
}

/// Node `a` is node `n` or one of its ancestors.
pub open spec fn under(links: Seq<Link>, heights: Seq<nat>, n: usize, a: usize) -> bool
    decreases
            (if n < heights.len() {
                heights[n as int]
            } else {
                0
            }),
{
    if n == a {
        true
    } else if n < links.len() && n < heights.len() {
        match links[n as int].parent {
            Some(p) => p < heights.len() && heights[p as int] < heights[n as int] && under(
                links,
                heights,
                p,
                a,
            ),
            None => false,
        }
    } else {
        false
    }
}

/// The nodes from the root above `n` down to `n` itself.
pub open spec fn lineage_of(links: Seq<Link>, heights: Seq<nat>, n: usize) -> Seq<usize>
    decreases
            (if n < heights.len() {
                heights[n as int]
            } else {
                0
            }),
{
    if n < links.len() && n < heights.len() {
        match links[n as int].parent {
            Some(p) => if p < heights.len() && heights[p as int] < heights[n as int] {
                lineage_of(links, heights, p).push(n)
            } else {
                seq![n]
            },
            None => seq![n],
        }
    } else {
        Seq::empty()
    }
}

/// The links after `child` was cut from `parent`.
pub open spec fn detached(links: Seq<Link>, parent: usize, child: usize) -> Seq<Link> {
    let kids = links[parent as int].children;
    links.update(
        parent as int,
        Link { parent: links[parent as int].parent, children: kids.remove(kids.index_of(child)) },
    ).update(child as int, Link { parent: None, children: links[child as int].children })
}

/// The links after `child`, a node without a parent, was hung under
/// `parent` as its last child.
pub open spec fn attached(links: Seq<Link>, parent: usize, child: usize) -> Seq<Link> {
    links.update(
        parent as int,
        Link {
            parent: links[parent as int].parent,
            children: links[parent as int].children.push(child),
        },
    ).update(child as int, Link { parent: Some(parent), children: links[child as int].children })
}

/// The links after `child` was moved under `parent`: cut from the parent
/// it had, if it had one, then hung under the new one.
pub open spec fn reparented(links: Seq<Link>, parent: usize, child: usize) -> Seq<Link> {
    match links[child as int].parent {
        Some(a) => attached(detached(links, a, child), parent, child),
        None => attached(links, parent, child),
    }
}

/// The transforms of a scene. Each has a handle, its position in the
/// arena, by which the others and the callers name it.
pub struct TransformArena {
    nodes: Vec<Transform>,
    heights: Ghost<Seq<nat>>,
}

impl TransformArena {
    /// How each node hangs in the hierarchy.
    pub closed spec fn links(&self) -> Seq<Link> {
        Seq::new(self.nodes@.len(), |i: int| self.nodes@[i].link())
    }

    /// Where each node stands relative to its parent.
    pub closed spec fn placements(&self) -> Seq<Placement> {
        Seq::new(self.nodes@.len(), |i: int| self.nodes@[i].placed())
    }

    /// How each node stands with an entity.
    pub closed spec fn registrations(&self) -> Seq<Registration> {
        Seq::new(self.nodes@.len(), |i: int| self.nodes@[i].registration())
    }

    /// A height for each node, every parent lower than its children.
    pub closed spec fn heights(&self) -> Seq<nat> {
        self.heights@
    }

    /// What holds of a hierarchy between any two calls.
    pub open spec fn wf(&self) -> bool {
        forest_wf(self.links(), self.heights())
    }

    /// Node `a` is node `n` or one of its ancestors.
    pub open spec fn is_under(&self, n: usize, a: usize) -> bool {
        under(self.links(), self.heights(), n, a)
    }

    /// The nodes from the root above `n` down to `n` itself.
    pub open spec fn lineage_spec(&self, n: usize) -> Seq<usize> {
        lineage_of(self.links(), self.heights(), n)
    }

    /// An arena without nodes.
    pub fn new() -> (r: TransformArena)
        ensures
            r.wf(),
            r.links() == Seq::<Link>::empty(),
            r.placements() == Seq::<Placement>::empty(),
            r.registrations() == Seq::<Registration>::empty(),
    {
        let r = TransformArena { nodes: Vec::new(), heights: Ghost(Seq::empty()) };
        assert(r.links() =~= Seq::<Link>::empty());
        assert(r.placements() =~= Seq::<Placement>::empty());
        assert(r.registrations() =~= Seq::<Registration>::empty());
        r
    }

    /// The number of nodes.
    pub fn len(&self) -> (r: usize)
        ensures
            r == self.links().len(),
            r == self.placements().len(),
            r == self.registrations().len(),
    {
        self.nodes.len()
    }

    /// Takes `t`, which hangs nowhere, in as a root and gives its handle.
    pub fn insert(&mut self, t: Transform) -> (r: usize)
        requires
            old(self).wf(),
            t.link() == (Link { parent: None, children: Seq::empty() }),
        ensures
            final(self).wf(),
            r == old(self).links().len(),
            final(self).links() == old(self).links().push(t.link()),
            final(self).placements() == old(self).placements().push(t.placed()),
            final(self).registrations() == old(self).registrations().push(t.registration()),
    {
        let r = self.nodes.len();
        self.nodes.push(t);
        proof {
            self.heights@ = self.heights@.push(0);
            assert(self.links() =~= old(self).links().push(t.link()));
            assert(self.placements() =~= old(self).placements().push(t.placed()));
            assert(self.registrations() =~= old(self).registrations().push(t.registration()));
            let links = self.links();
            let before = old(self).links();
            assert forall|c: usize| c < links.len() implies (#[trigger] parent_of(
                links,
                c,
            ) matches Some(p) ==> p < links.len() && links[p as int].children.contains(c)
                && self.heights()[p as int] < self.heights()[c as int]) by {
                if c < before.len() {
                    assert(parent_of(before, c) == parent_of(links, c));
                }
            }
            assert forall|p: usize, i: int|
                p < links.len() && 0 <= i < links[p as int].children.len() implies (#[trigger] child_at(
                links,
                p,
                i,
            )) < links.len() && links[child_at(links, p, i) as int].parent == Some(p) by {
                assert(child_at(before, p, i) == child_at(links, p, i));
            }
            assert forall|n: int| 0 <= n < links.len() implies (#[trigger] links[n]).children.no_duplicates() by {
                if n < before.len() {
                    assert(before[n].children.no_duplicates());
                }
            }
        }
        r
    }

    /// The node with the handle `h`, if there is one.
    pub fn get(&self, h: usize) -> (r: Option<&Transform>)
        ensures
            r is Some <==> h < self.links().len(),
            r matches Some(t) ==> t.link() == self.links()[h as int] && t.placed()
                == self.placements()[h as int] && t.registration()
                == self.registrations()[h as int],
    {
        if h < self.nodes.len() {
            Some(&self.nodes[h])
        } else {
            None
        }
    }

    /// Moves the node `h` relative to its parent. Tells whether there is
    /// such a node. The hierarchy stays as it is.
    pub fn set_placement(&mut self, h: usize, placement: Placement) -> (r: bool)
        ensures
            r == (h < old(self).links().len()),
            final(self).links() == old(self).links(),
            final(self).heights() == old(self).heights(),
            final(self).placements() == if r {
                old(self).placements().update(h as int, placement)
            } else {
                old(self).placements()
            },
            final(self).registrations() == old(self).registrations(),
    {
        if h < self.nodes.len() {
            self.nodes[h].set_placement(placement);
            assert(self.links() =~= old(self).links());
            assert(self.placements() =~= old(self).placements().update(h as int, placement));
            assert(self.registrations() =~= old(self).registrations());
            true
        } else {
            false
        }
    }

    /// Tells whether node `a` is node `n` or one of its ancestors.
    pub fn is_ancestor(&self, n: usize, a: usize) -> (r: bool)
        requires
            self.wf(),
        ensures
            r == self.is_under(n, a),
    {
        if n == a {
            return true;
        }
        if n >= self.nodes.len() {
            return false;
        }
        let mut cur = n;
        loop
            invariant
                self.wf(),
                cur < self.links().len(),
                cur != a,
                self.is_under(n, a) == self.is_under(cur, a),
            decreases self.heights()[cur as int],
        {
            assert(parent_of(self.links(), cur) == self.links()[cur as int].parent);
            match self.nodes[cur].parent {
                Some(p) => {
                    assert(under(self.links(), self.heights(), cur, a) == under(
                        self.links(),
                        self.heights(),
                        p,
                        a,
                    ));
                    if p == a {
                        return true;
                    }
                    cur = p;
                },
                None => {
                    return false;
                },
            }
        }
    }

    /// The nodes from the root above `n` down to `n` itself: the order in
    /// which the placements make up where `n` stands in the world.
    pub fn lineage(&self, n: usize) -> (r: Vec<usize>)
        requires
            self.wf(),
        ensures
            r@ == self.lineage_spec(n),
        decreases
                (if n < self.heights().len() {
                    self.heights()[n as int]
                } else {
                    0
                }),
    {
        if n >= self.nodes.len() {
            return Vec::new();
        }
        assert(parent_of(self.links(), n) == self.links()[n as int].parent);
        match self.nodes[n].parent {
            Some(p) => {
                let mut r = self.lineage(p);
                r.push(n);
                r
            },
            None => {
                let mut r = Vec::new();
                r.push(n);
                r
            },
        }
    }

    /// Cuts `child` from `parent`, which is its parent.
    fn unlink(&mut self, parent: usize, child: usize)
        requires
            old(self).wf(),
            child < old(self).links().len(),
            old(self).links()[child as int].parent == Some(parent),
        ensures
            final(self).wf(),
            final(self).links() == detached(old(self).links(), parent, child),
            final(self).heights() == old(self).heights(),
            final(self).placements() == old(self).placements(),
            final(self).registrations() == old(self).registrations(),
    {
        let ghost before = self.links();
        let ghost kids = before[parent as int].children;
        assert(parent_of(before, child) == Some(parent));
        assert(kids.contains(child));
        let count = self.nodes[parent].children.len();
        let mut k: usize = 0;
        while k < count
            invariant
                k <= count,
                count == kids.len(),
                parent < self.nodes@.len(),
                self.nodes@[parent as int].link().children == kids,
                kids.contains(child),
                forall|j: int| 0 <= j < k ==> kids[j] != child,
            ensures
                k < count,
                kids[k as int] == child,
            decreases count - k,
        {
            if self.nodes[parent].children[k] == child {
                break ;
            }
            k += 1;
        }
        proof {
            assert(children_distinct(before));
            assert(before[parent as int].children.no_duplicates());
            let chosen = kids.index_of(child);
            assert(kids[chosen] == child);
            assert(chosen == k);
            assert(parents_lower(before, self.heights()));
            assert(parent != child);
        }
        self.nodes[parent].drop_child(k);
        self.nodes[child].set_parent(None);
        proof {
            assert(self.links() =~= detached(before, parent, child));
            assert(self.placements() =~= old(self).placements());
            assert(self.registrations() =~= old(self).registrations());
            lemma_detach_wf(before, self.heights(), parent, child);
        }
    }

    /// Cuts `child` from `parent` and gives its handle, if `child` is a
    /// child of `parent`. The node stays in the arena, as a root.
    pub fn rm_child(&mut self, parent: usize, child: usize) -> (r: Option<usize>)
        requires
            old(self).wf(),
        ensures
            final(self).wf(),
            final(self).placements() == old(self).placements(),
            final(self).registrations() == old(self).registrations(),
            r == if child < old(self).links().len() && old(self).links()[child as int].parent
                == Some(parent) {
                Some(child)
            } else {
                None
            },
            final(self).links() == if r is Some {
                detached(old(self).links(), parent, child)
            } else {
                old(self).links()
            },
    {
        if child >= self.nodes.len() {
            return None;
        }
        match self.nodes[child].parent {
            Some(p) => {
                if p == parent {
                    self.unlink(parent, child);
                    Some(child)
                } else {
                    None
                }
            },
            None => None,
        }
    }

    /// Cuts the `i`-th child from `parent` and gives its handle, if there
    /// is such a child. The node stays in the arena, as a root.
    pub fn remove(&mut self, parent: usize, i: usize) -> (r: Option<usize>)
        requires
            old(self).wf(),
        ensures
            final(self).wf(),
            final(self).placements() == old(self).placements(),
            final(self).registrations() == old(self).registrations(),
            r == if parent < old(self).links().len() && i < old(
                self,
            ).links()[parent as int].children.len() {
                Some(old(self).links()[parent as int].children[i as int])
            } else {
                None
            },
            final(self).links() == match r {
                Some(child) => detached(old(self).links(), parent, child),
                None => old(self).links(),
            },
    {
        if parent >= self.nodes.len() {
            return None;
        }
        if i >= self.nodes[parent].children.len() {
            return None;
        }
        let child = self.nodes[parent].children[i];
        assert(child_at(self.links(), parent, i as int) == child);
        self.unlink(parent, child);
        Some(child)
    }

    /// Hangs `child` under `parent` as its last child, cutting it first
    /// from the parent it had. Refused, with nothing changed, where a
    /// handle is of no node, and where `child` is `parent` or one of its
    /// ancestors: a node is never above itself.
    pub fn add_child(&mut self, parent: usize, child: usize) -> (r: bool)
        requires
            old(self).wf(),
        ensures
            final(self).wf(),
            final(self).placements() == old(self).placements(),
            final(self).registrations() == old(self).registrations(),
            r == (parent < old(self).links().len() && child < old(self).links().len() && !old(
                self,
            ).is_under(parent, child)),
            parent == child ==> !r,
            parent < old(self).links().len() && old(self).links()[parent as int].parent == Some(
                child,
            ) ==> !r,
            final(self).links() == if r {
                reparented(old(self).links(), parent, child)
            } else {
                old(self).links()
            },
    {
        let n = self.nodes.len();
        if parent >= n || child >= n {
            return false;
        }
        proof {
            if parent != child && self.links()[parent as int].parent == Some(child) {
                assert(parent_of(self.links(), parent) == Some(child));
                assert(under(self.links(), self.heights(), child, child));
            }
        }
        if self.is_ancestor(parent, child) {
            return false;
        }
        let ghost before = self.links();
        let ghost heights = self.heights();
        assert(before[child as int].parent == self.nodes@[child as int].link().parent);
        match self.nodes[child].parent {
            Some(a) => {
                proof {
                    lemma_under_after_detach(before, heights, a, child, parent);
                }
                assert(parent_of(before, child) == Some(a));
                self.unlink(a, child);
            },
            None => {},
        }
        let ghost cut = self.links();
        self.nodes[child].set_parent(Some(parent));
        self.nodes[parent].push_child(child);
        proof {
            let lifted = lifted_heights(cut, heights, parent, child);
            self.heights@ = lifted;
            assert(self.links() =~= attached(cut, parent, child));
            assert(self.placements() =~= old(self).placements());
            assert(self.registrations() =~= old(self).registrations());
            lemma_attach_wf(cut, heights, parent, child);
        }
        true
    }
}

/// A root stands in the world where it stands relative to nothing: its
/// lineage is the node alone.
pub proof fn lemma_lineage_of_root(links: Seq<Link>, heights: Seq<nat>, n: usize)
    requires
        forest_wf(links, heights),
        n < links.len(),
        links[n as int].parent is None,
    ensures
        lineage_of(links, heights, n) == seq![n],
{
}

/// A child stands in the world where its parent stands, and then where it
/// stands relative to its parent: its lineage is that of its parent, and
/// then the child.
pub proof fn lemma_lineage_of_child(links: Seq<Link>, heights: Seq<nat>, n: usize, parent: usize)
    requires
        forest_wf(links, heights),
        n < links.len(),
        links[n as int].parent == Some(parent),
    ensures
        lineage_of(links, heights, n) == lineage_of(links, heights, parent).push(n),
{
    assert(parent_of(links, n) == Some(parent));
}

/// A child moved from one parent to another leaves the first exactly once
/// and joins the second exactly once: the first has one child less and
/// does not know the child any more, the second has one child more, the
/// moved one as its last, and the child names the second as its parent.
pub proof fn lemma_reparent_moves_child(
    links: Seq<Link>,
    heights: Seq<nat>,
    from: usize,
    to: usize,
    child: usize,
)
    requires
        forest_wf(links, heights),
        child < links.len(),
        to < links.len(),
        links[child as int].parent == Some(from),
        from != to,
        to != child,
    ensures
        ({
            let after = reparented(links, to, child);
            &&& after[from as int].children.len() == links[from as int].children.len() - 1
            &&& !after[from as int].children.contains(child)
            &&& after[to as int].children == links[to as int].children.push(child)
            &&& after[child as int].parent == Some(to)
        }),
{
    let kids = links[from as int].children;
    let at = kids.index_of(child);
    assert(parent_of(links, child) == Some(from));
    assert(kids.contains(child));
    assert(kids[at] == child);
    assert(links[from as int].children.no_duplicates());
    assert(from != child);
    let cut = kids.remove(at);
    let after = reparented(links, to, child);
    assert(after[from as int].children == cut);
    if cut.contains(child) {
        let i = choose|i: int| 0 <= i < cut.len() && cut[i] == child;
        let j = if i < at {
            i
        } else {
            i + 1
        };
        assert(kids[j] == kids[at]);
    }
}

/// The heights after `child`, a root, was hung under `parent`: `child` and
/// all below it are lifted above `parent`.
pub open spec fn lifted_heights(
    links: Seq<Link>,
    heights: Seq<nat>,
    parent: usize,
    child: usize,
) -> Seq<nat> {
    Seq::new(
        heights.len(),
        |n: int|
            if under(links, heights, n as usize, child) {
                heights[n] + heights[parent as int] + 1
            } else {
                heights[n]
            },
    )
}

/// Cutting a node from its parent leaves a forest.
proof fn lemma_detach_wf(links: Seq<Link>, heights: Seq<nat>, parent: usize, child: usize)
    requires
        forest_wf(links, heights),
        child < links.len(),
        links[child as int].parent == Some(parent),
    ensures
        forest_wf(detached(links, parent, child), heights),
{
    let after = detached(links, parent, child);
    let kids = links[parent as int].children;
    let at = kids.index_of(child);
    assert(parent_of(links, child) == Some(parent));
    assert(kids.contains(child));
    assert(kids[at] == child);
    assert(links[parent as int].children.no_duplicates());
    assert(parent != child);
    let cut = kids.remove(at);
    assert(after[parent as int].children == cut);
    assert forall|c: usize| c < after.len() implies (#[trigger] parent_of(after, c) matches Some(
        p,
    ) ==> p < after.len() && after[p as int].children.contains(c) && heights[p as int]
        < heights[c as int]) by {
        if c != child {
            assert(parent_of(links, c) == parent_of(after, c));
            if let Some(p) = parent_of(links, c) {
                if p == parent {
                    let i = choose|i: int| 0 <= i < kids.len() && kids[i] == c;
                    if i < at {
                        assert(cut[i] == c);
                    } else {
                        assert(cut[i - 1] == c);
                    }
                } else {
                    assert(after[p as int].children == links[p as int].children);
                }
            }
        }
    }
    assert forall|p: usize, i: int|
        p < after.len() && 0 <= i < after[p as int].children.len() implies (#[trigger] child_at(
        after,
        p,
        i,
    )) < after.len() && after[child_at(after, p, i) as int].parent == Some(p) by {
        if p == parent {
            let j = if i < at {
                i
            } else {
                i + 1
            };
            assert(child_at(after, p, i) == child_at(links, p, j));
            assert(kids[j] != kids[at]);
        } else {
            assert(child_at(after, p, i) == child_at(links, p, i));
        }
    }
    assert forall|n: int| 0 <= n < after.len() implies (#[trigger] after[n]).children.no_duplicates() by {
        assert(links[n].children.no_duplicates());
        if n == parent {
            assert forall|i: int, j: int| 0 <= i < cut.len() && 0 <= j < cut.len() && i != j implies cut[i]
                != cut[j] by {
                let a = if i < at {
                    i
                } else {
                    i + 1
                };
                let b = if j < at {
                    j
                } else {
                    j + 1
                };
                assert(kids[a] != kids[b]);
            }
        }
    }
}

/// Whether `child` is above `n` does not depend on what `child` itself
/// hangs under.
proof fn lemma_under_after_detach(
    links: Seq<Link>,
    heights: Seq<nat>,
    parent: usize,
    child: usize,
    n: usize,
)
    requires
        forest_wf(links, heights),
        child < links.len(),
        links[child as int].parent == Some(parent),
    ensures
        under(detached(links, parent, child), heights, n, child) == under(links, heights, n, child),
    decreases
            (if n < heights.len() {
                heights[n as int]
            } else {
                0
            }),
{
    let after = detached(links, parent, child);
    assert(parent_of(links, child) == Some(parent));
    if n != child && n < links.len() {
        assert(parent_of(links, n) == links[n as int].parent);
        assert(after[n as int].parent == links[n as int].parent);
        if let Some(p) = links[n as int].parent {
            lemma_under_after_detach(links, heights, parent, child, p);
        }
    }
}

/// Hanging a root under a node that is not below it leaves a forest.
proof fn lemma_attach_wf(links: Seq<Link>, heights: Seq<nat>, parent: usize, child: usize)
    requires
        forest_wf(links, heights),
        parent < links.len(),
        child < links.len(),
        links[child as int].parent is None,
        !under(links, heights, parent, child),
    ensures
        forest_wf(
            attached(links, parent, child),
            lifted_heights(links, heights, parent, child),
        ),
{
    let after = attached(links, parent, child);
    let lifted = lifted_heights(links, heights, parent, child);
    let kids = links[parent as int].children;
    assert(parent != child);
    assert(after[parent as int].children == kids.push(child));
    assert(!kids.contains(child)) by {
        if kids.contains(child) {
            let i = choose|i: int| 0 <= i < kids.len() && kids[i] == child;
            assert(child_at(links, parent, i) == child);
        }
    }
    assert forall|c: usize| c < after.len() implies (#[trigger] parent_of(after, c) matches Some(
        p,
    ) ==> p < after.len() && after[p as int].children.contains(c) && lifted[p as int]
        < lifted[c as int]) by {
        if c == child {
            assert(after[parent as int].children[kids.len() as int] == child);
            assert(under(links, heights, child, child));
        } else {
            assert(parent_of(links, c) == parent_of(after, c));
            if let Some(p) = parent_of(links, c) {
                if p == parent {
                    let i = choose|i: int| 0 <= i < kids.len() && kids[i] == c;
                    assert(after[parent as int].children[i] == c);
                } else {
                    assert(after[p as int].children == links[p as int].children);
                }
                assert(under(links, heights, c, child) == under(links, heights, p, child));
            }
        }
    }
    assert forall|p: usize, i: int|
        p < after.len() && 0 <= i < after[p as int].children.len() implies (#[trigger] child_at(
        after,
        p,
        i,
    )) < after.len() && after[child_at(after, p, i) as int].parent == Some(p) by {
        if p == parent && i == kids.len() {
        } else {
            assert(child_at(after, p, i) == child_at(links, p, i));
            assert(child_at(links, p, i) != child);
        }
    }
    assert forall|n: int| 0 <= n < after.len() implies (#[trigger] after[n]).children.no_duplicates() by {
        assert(links[n].children.no_duplicates());
    }
}

} // verus!
