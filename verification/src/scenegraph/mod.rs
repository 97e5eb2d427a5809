use vstd::prelude::*;

pub mod components;
pub mod particle_system;
pub mod storage;

pub use components::{detached_node, SceneNode};
pub use particle_system::ParticleRotation;
pub use storage::{Component, ComponentStorage, VecStorage};

verus! {

/// Identifier of an entity of the scene.
pub type Entity = u32;

/// The entity that stands for "no entity".
pub const NULL_ENTITY: Entity = 0xffff_ffffu32;

/// The links of `e` in `m`, or a detached node when `e` has none.
pub open spec fn node_at(m: Map<Entity, SceneNode>, e: Entity) -> SceneNode {
    if m.contains_key(e) {
        m[e]
    } else {
        detached_node()
    }
}

/// The scene links after `e` is made the first child of `p`: the old first
/// child of `p` becomes the next sibling of `e`.
pub open spec fn attached(m: Map<Entity, SceneNode>, e: Entity, p: Entity) -> Map<Entity, SceneNode> {
    let pn = m[p];
    let old_first = pn.first;
    let m1 = m.insert(p, SceneNode { first: e, next: pn.next, prev: pn.prev, parent: pn.parent });
    let m2 = if old_first != NULL_ENTITY {
        let f = m1[old_first];
        m1.insert(old_first, SceneNode { first: f.first, next: f.next, prev: e, parent: f.parent })
    } else {
        m1
    };
    m2.insert(e, SceneNode { first: NULL_ENTITY, next: old_first, prev: NULL_ENTITY, parent: p })
}

/// The scene links agree with each other: a first child points back at its
/// parent and has no previous sibling, a next sibling points back at its
/// predecessor and shares its parent, and a previous sibling points forward.
pub open spec fn links_agree(m: Map<Entity, SceneNode>) -> bool {
    forall|n: Entity|
        #[trigger] m.contains_key(n) ==> {
            let nd = m[n];
            &&& nd.first != NULL_ENTITY ==> m.contains_key(nd.first) && m[nd.first].parent == n
                && m[nd.first].prev == NULL_ENTITY
            &&& nd.next != NULL_ENTITY ==> m.contains_key(nd.next) && m[nd.next].prev == n
                && m[nd.next].parent == nd.parent
            &&& nd.prev != NULL_ENTITY ==> m.contains_key(nd.prev) && m[nd.prev].next == n
        }
}

/// The links of a new world agree.
pub proof fn lemma_new_links_agree()
    ensures
        links_agree(map![0u32 => detached_node()]),
{
}

/// Linking a new entity `e` in as the first child of `p` keeps the links in
/// agreement, and puts `e` at the head of the sibling list of `p`, before
/// the old first child.
pub proof fn lemma_attach_links_agree(m: Map<Entity, SceneNode>, e: Entity, p: Entity)
    requires
        links_agree(m),
        m.contains_key(p),
        !m.contains_key(e),
        !m.contains_key(NULL_ENTITY),
        e != NULL_ENTITY,
    ensures
        links_agree(attached(m, e, p)),
        attached(m, e, p)[p].first == e,
        attached(m, e, p)[e].next == m[p].first,
        attached(m, e, p)[e].prev == NULL_ENTITY,
        attached(m, e, p)[e].parent == p,
{
    let m2 = attached(m, e, p);
    let of = m[p].first;
    assert(p != e);
    assert forall|x: Entity| m.contains_key(x) implies m[x].first != e && m[x].next != e && m[x].prev != e
        && (m[x].next == of ==> of == NULL_ENTITY) && (m[x].first == of && of != NULL_ENTITY ==> x == p) by {
        assert(m.contains_key(x));
        assert(m.contains_key(p));
        if of != NULL_ENTITY {
            assert(m.contains_key(of));
        }
        let nd = m[x];
        if nd.first != NULL_ENTITY {
            assert(m.contains_key(nd.first));
        }
        if nd.next != NULL_ENTITY {
            assert(m.contains_key(nd.next));
        }
        if nd.prev != NULL_ENTITY {
            assert(m.contains_key(nd.prev));
        }
    }
    if of != NULL_ENTITY {
        assert(m.contains_key(of) && m[of].parent == p && m[of].prev == NULL_ENTITY);
    }
    assert forall|n: Entity| #[trigger] m2.contains_key(n) implies {
        let nd = m2[n];
        &&& nd.first != NULL_ENTITY ==> m2.contains_key(nd.first) && m2[nd.first].parent == n
            && m2[nd.first].prev == NULL_ENTITY
        &&& nd.next != NULL_ENTITY ==> m2.contains_key(nd.next) && m2[nd.next].prev == n
            && m2[nd.next].parent == nd.parent
        &&& nd.prev != NULL_ENTITY ==> m2.contains_key(nd.prev) && m2[nd.prev].next == n
    } by {
        if n != e {
            let _ = m[n];
            let nd = m[n];
            if nd.first != NULL_ENTITY {
                let _ = m[nd.first];
            }
            if nd.next != NULL_ENTITY {
                let _ = m[nd.next];
            }
            if nd.prev != NULL_ENTITY {
                let _ = m[nd.prev];
            }
        }
    }
}

/// The scene: hands out entities and keeps the tree that links them.
///
/// Every entity in the tree was linked in after its parent and after its
/// older siblings; the ghost `rank` records that order, which is what makes
/// the tree acyclic and every walk over it finite.
pub struct World {
    nodes: VecStorage<SceneNode>,
    next_entity: Entity,
    root: Entity,
    rank: Ghost<Map<Entity, nat>>,
    rank_bound: Ghost<nat>,
}

/// Hands out one entity; components are attached to it through the builder.
pub struct Builder {
    entity: Entity,
}

impl Builder {
    /// The entity under construction.
    pub closed spec fn entity(&self) -> Entity {
        self.entity
    }

    /// Finishes building and returns the entity.
    pub fn build(&self) -> (e: Entity)
        ensures
            e == self.entity(),
    {
        self.entity
    }

    /// Gives the entity a component of the kind kept in `storage`.
    pub fn with<T>(&self, storage: &mut VecStorage<T>, component: T)
        requires
            old(storage).wf(),
        ensures
            final(storage).wf(),
            final(storage)@ == old(storage)@.insert(self.entity(), component),
    {
        storage.insert(self.entity, component);
    }

    /// Links the entity into the scene tree as the first child of `parent`.
    pub fn attach(&self, world: &mut World, parent: Entity)
        requires
            old(world).wf(),
            old(world).nodes().contains_key(parent),
            !old(world).nodes().contains_key(self.entity()),
            self.entity() != NULL_ENTITY,
            self.entity() < old(world).next_id(),
        ensures
            final(world).wf(),
            final(world).nodes() == attached(old(world).nodes(), self.entity(), parent),
            final(world).root_entity() == old(world).root_entity(),
            final(world).next_id() == old(world).next_id(),
            final(world).children(parent) == seq![self.entity()] + old(world).children(parent),
            final(world).children(self.entity()) == Seq::<Entity>::empty(),
            forall|x: Entity|
                x != parent && x != self.entity() ==> #[trigger] final(world).children(x)
                    == old(world).children(x),
    {
        world.attach_node(self.entity, parent);
    }
}

impl World {
    /// The scene links, by entity.
    pub closed spec fn nodes(&self) -> Map<Entity, SceneNode> {
        self.nodes@
    }

    /// The root of the scene.
    pub closed spec fn root_entity(&self) -> Entity {
        self.root
    }

    /// The entity that the next builder will hand out.
    pub closed spec fn next_id(&self) -> Entity {
        self.next_entity
    }

    /// One more than the latest link rank.
    pub closed spec fn rank_limit(&self) -> nat {
        self.rank_bound@
    }

    /// When `e` was linked into the tree, counted from the root.
    pub closed spec fn rk(&self, e: Entity) -> nat {
        if self.rank@.contains_key(e) {
            self.rank@[e]
        } else {
            0
        }
    }

    /// The links of `e` point only at entities in the tree, at older
    /// siblings, and at a parent linked before it.
    pub closed spec fn link_ok(&self, e: Entity) -> bool {
        let nd = self.nodes@[e];
        &&& e != NULL_ENTITY
        &&& e < self.next_entity
        &&& self.rank@.contains_key(e)
        &&& self.rank@[e] < self.rank_bound@
        &&& nd.first != NULL_ENTITY ==> self.nodes@.contains_key(nd.first)
            && self.nodes@[nd.first].parent == e
        &&& nd.next != NULL_ENTITY ==> self.nodes@.contains_key(nd.next) && self.rk(nd.next) < self.rk(
            e,
        ) && self.nodes@[nd.next].parent == nd.parent
        &&& nd.parent != NULL_ENTITY ==> self.nodes@.contains_key(nd.parent) && self.rk(nd.parent)
            < self.rk(e)
    }

    pub closed spec fn links_ok(&self) -> bool {
        forall|e: Entity| #[trigger] self.nodes@.contains_key(e) ==> self.link_ok(e)
    }

    /// The links agree with the storage and with the order of linking.
    pub closed spec fn consistent(&self) -> bool {
        &&& self.nodes.wf()
        &&& self.links_ok()
    }

    /// The world is consistent; its root is in the tree, and every entity in
    /// the tree was handed out already.
    pub open spec fn wf(&self) -> bool {
        &&& self.consistent()
        &&& self.siblings_complete()
        &&& self.nodes().contains_key(self.root_entity())
        &&& forall|e: Entity| #[trigger]
            self.nodes().contains_key(e) ==> e < self.next_id() && e != NULL_ENTITY
    }

    /// What a well-formed world's links give a caller: every link points at
    /// an entity in the tree; a first child has its parent as parent, a next
    /// sibling shares the parent; and following a next or a parent link
    /// always reaches an entity linked in earlier (a smaller `rk`), so no
    /// walk along them loops.
    pub proof fn lemma_wf_links(&self)
        requires
            self.wf(),
        ensures
            !self.nodes().contains_key(NULL_ENTITY),
            forall|e: Entity|
                #[trigger] self.nodes().contains_key(e) ==> {
                    let nd = self.nodes()[e];
                    &&& nd.first != NULL_ENTITY ==> self.nodes().contains_key(nd.first)
                        && self.nodes()[nd.first].parent == e
                    &&& nd.next != NULL_ENTITY ==> self.nodes().contains_key(nd.next)
                        && self.nodes()[nd.next].parent == nd.parent && self.rk(nd.next) < self.rk(e)
                    &&& nd.parent != NULL_ENTITY ==> self.nodes().contains_key(nd.parent) && self.rk(nd.parent)
                        < self.rk(e)
                },
    {
        assert forall|e: Entity| #[trigger] self.nodes().contains_key(e) implies {
            let nd = self.nodes()[e];
            &&& nd.first != NULL_ENTITY ==> self.nodes().contains_key(nd.first)
                && self.nodes()[nd.first].parent == e
            &&& nd.next != NULL_ENTITY ==> self.nodes().contains_key(nd.next)
                && self.nodes()[nd.next].parent == nd.parent && self.rk(nd.next) < self.rk(e)
            &&& nd.parent != NULL_ENTITY ==> self.nodes().contains_key(nd.parent) && self.rk(nd.parent)
                < self.rk(e)
        } by {
            assert(self.nodes@.contains_key(e));
            assert(self.link_ok(e));
        }
    }

    /// Every entity with a parent is among the children of its parent.
    pub closed spec fn siblings_complete(&self) -> bool {
        forall|x: Entity|
            #![trigger self.nodes@[x]]
            self.nodes@.contains_key(x) && self.nodes@[x].parent != NULL_ENTITY ==> self.children(
                self.nodes@[x].parent,
            ).contains(x)
    }

    /// The sibling list that starts at `c`.
    pub closed spec fn chain(&self, c: Entity) -> Seq<Entity>
        decreases self.rk(c),
    {
        if c == NULL_ENTITY {
            Seq::empty()
        } else {
            let nx = node_at(self.nodes@, c).next;
            if nx != NULL_ENTITY && self.rk(nx) < self.rk(c) {
                seq![c] + self.chain(nx)
            } else {
                seq![c]
            }
        }
    }

    /// The children of `p`, newest first.
    pub closed spec fn children(&self, p: Entity) -> Seq<Entity> {
        self.chain(node_at(self.nodes@, p).first)
    }

    /// `c` was linked after `p`.
    pub closed spec fn below(&self, p: Entity, c: Entity) -> bool {
        self.rk(p) < self.rk(c) && self.rk(c) <= self.rank_limit()
    }

    /// Depth-first order from `n`: `n`, then the subtrees of its children,
    /// oldest child first.
    pub closed spec fn dfs_order(&self, n: Entity) -> Seq<Entity>
        decreases self.rank_limit() - self.rk(n), 1int, 0int,
    {
        seq![n] + self.dfs_list(n, self.children(n))
    }

    /// The subtrees of the entities `cs` (children of `p`), from the last
    /// one back to the first.
    pub closed spec fn dfs_list(&self, p: Entity, cs: Seq<Entity>) -> Seq<Entity>
        decreases self.rank_limit() - self.rk(p), 0int, cs.len(),
    {
        if cs.len() == 0 {
            Seq::empty()
        } else {
            let c = cs.last();
            let first_part = if self.below(p, c) {
                self.dfs_order(c)
            } else {
                seq![c]
            };
            first_part + self.dfs_list(p, cs.drop_last())
        }
    }

    /// The subtrees of the entities of `stack`, from the last entry back to
    /// the first: what a depth-first walk still visits from this stack.
    pub open spec fn pending(&self, stack: Seq<Entity>) -> Seq<Entity>
        decreases stack.len(),
    {
        if stack.len() == 0 {
            Seq::empty()
        } else {
            self.dfs_order(stack.last()) + self.pending(stack.drop_last())
        }
    }

    /// A sibling list is its first entity followed by the list that starts
    /// at that entity's next sibling.
    pub proof fn lemma_chain_unfold(&self, c: Entity)
        requires
            self.wf(),
        ensures
            c == NULL_ENTITY ==> self.chain(c) == Seq::<Entity>::empty(),
            c != NULL_ENTITY ==> self.chain(c) == seq![c] + self.chain(node_at(self.nodes(), c).next),
    {
        if c != NULL_ENTITY && self.nodes@.contains_key(c) {
            assert(self.link_ok(c));
        }
    }

    /// The children of `p` are the sibling list that starts at its first
    /// child.
    pub proof fn lemma_children_unfold(&self, p: Entity)
        requires
            self.wf(),
        ensures
            self.children(p) == self.chain(node_at(self.nodes(), p).first),
    {
    }

    /// Depth-first order visits `n`, then the subtree of each child of `n`,
    /// oldest child (last in `children`) first.
    pub proof fn lemma_dfs_unfold(&self, n: Entity)
        requires
            self.wf(),
        ensures
            self.dfs_order(n) == seq![n] + self.pending(self.children(n)),
    {
        self.lemma_children_below(n);
        self.lemma_pending_append(n, Seq::empty(), self.children(n));
        assert(Seq::<Entity>::empty() + self.children(n) =~= self.children(n));
        assert(self.pending(Seq::<Entity>::empty()) == Seq::<Entity>::empty());
        assert(self.dfs_list(n, self.children(n)) + Seq::<Entity>::empty() =~= self.dfs_list(n, self.children(n)));
    }

    proof fn lemma_chain_parent(&self, c: Entity, p: Entity)
        requires
            self.consistent(),
            c == NULL_ENTITY || (self.nodes@.contains_key(c) && self.nodes@[c].parent == p),
        ensures
            forall|i: int|
                #![trigger self.chain(c)[i]]
                0 <= i < self.chain(c).len() ==> self.nodes@.contains_key(self.chain(c)[i])
                    && self.nodes@[self.chain(c)[i]].parent == p,
        decreases self.rk(c),
    {
        if c != NULL_ENTITY {
            let nd = self.nodes@[c];
            if nd.next != NULL_ENTITY {
                self.lemma_chain_parent(nd.next, p);
                assert forall|i: int|
                    #![trigger self.chain(c)[i]]
                    0 <= i < self.chain(c).len() implies self.nodes@.contains_key(self.chain(c)[i])
                    && self.nodes@[self.chain(c)[i]].parent == p by {
                    if i > 0 {
                        assert(self.chain(c)[i] == self.chain(nd.next)[i - 1]);
                    }
                }
            }
        }
    }

    /// Under consistency, each child of `p` lies below `p`.
    proof fn lemma_children_below(&self, p: Entity)
        requires
            self.consistent(),
        ensures
            forall|i: int|
                #![trigger self.children(p)[i]]
                0 <= i < self.children(p).len() ==> self.below(p, self.children(p)[i])
                    && self.nodes@.contains_key(self.children(p)[i])
                    && self.nodes@[self.children(p)[i]].parent == p,
    {
        let f = node_at(self.nodes@, p).first;
        if self.nodes@.contains_key(p) {
            let _ = self.nodes@[p];
        }
        self.lemma_chain_parent(f, p);
        assert forall|i: int|
            #![trigger self.children(p)[i]]
            0 <= i < self.children(p).len() implies self.below(p, self.children(p)[i]) by {
            let c = self.children(p)[i];
            let _ = self.nodes@[c];
        }
    }

    proof fn lemma_pending_append(&self, p: Entity, rest: Seq<Entity>, cs: Seq<Entity>)
        requires
            forall|i: int| #![trigger cs[i]] 0 <= i < cs.len() ==> self.below(p, cs[i]),
        ensures
            self.pending(rest + cs) == self.dfs_list(p, cs) + self.pending(rest),
        decreases cs.len(),
    {
        if cs.len() == 0 {
            assert(rest + cs =~= rest);
        } else {
            let c = cs.last();
            let _ = cs[cs.len() - 1];
            assert((rest + cs).drop_last() =~= rest + cs.drop_last());
            assert forall|i: int| #![trigger cs.drop_last()[i]]
                0 <= i < cs.drop_last().len() implies self.below(p, cs.drop_last()[i]) by {
                let _ = cs[i];
            }
            self.lemma_pending_append(p, rest, cs.drop_last());
            assert(self.pending(rest + cs) =~= self.dfs_order(c) + self.pending(
                rest + cs.drop_last(),
            ));
        }
    }

    /// The world holds a root entity `0` with no links, and hands out `1` next.
    pub fn new() -> (w: Self)
        ensures
            w.wf(),
            w.root_entity() == 0,
            w.next_id() == 1,
            w.nodes() == map![0u32 => detached_node()],
    {
        let mut nodes: VecStorage<SceneNode> = VecStorage::new();
        nodes.insert_unchecked(0, SceneNode::default());
        let w = World {
            nodes,
            next_entity: 1,
            root: 0,
            rank: Ghost(Map::<Entity, nat>::empty().insert(0u32, 0nat)),
            rank_bound: Ghost(1nat),
        };
        assert(w.nodes() =~= map![0u32 => detached_node()]);
        assert(w.siblings_complete());
        w
    }

    /// The root of the scene.
    pub fn root(&self) -> (r: Entity)
        ensures
            r == self.root_entity(),
    {
        self.root
    }

    /// The entity that the next builder will hand out.
    pub fn next_entity(&self) -> (r: Entity)
        ensures
            r == self.next_id(),
    {
        self.next_entity
    }

    /// The scene links of `entity`, if it is in the tree.
    pub fn scene_node(&self, entity: Entity) -> (r: Option<&SceneNode>)
        requires
            self.wf(),
        ensures
            r matches Some(n) ==> self.nodes().contains_key(entity) && *n == self.nodes()[entity],
            r is None ==> !self.nodes().contains_key(entity),
    {
        self.nodes.get(entity)
    }

    /// A new, empty storage for one more kind of component. The world keeps
    /// the scene links itself; the caller keeps the storages of other kinds.
    pub fn register<T>(&self) -> (s: VecStorage<T>)
        ensures
            s.wf(),
            s@ == Map::<Entity, T>::empty(),
    {
        VecStorage::new()
    }

    proof fn lemma_order_parent_first(&self, n: Entity)
        requires
            self.consistent(),
        ensures
            forall|i: int|
                #![trigger self.dfs_order(n)[i]]
                1 <= i < self.dfs_order(n).len() ==> self.nodes@.contains_key(self.dfs_order(n)[i])
                    && exists|j: int|
                    0 <= j < i && self.dfs_order(n)[j] == self.nodes@[self.dfs_order(n)[i]].parent,
        decreases self.rank_limit() - self.rk(n), 1int, 0int,
    {
        let cs = self.children(n);
        self.lemma_children_below(n);
        self.lemma_list_parent_first(n, cs);
        let d = self.dfs_order(n);
        let l = self.dfs_list(n, cs);
        assert forall|i: int|
            #![trigger d[i]]
            1 <= i < d.len() implies self.nodes@.contains_key(d[i]) && exists|j: int|
                0 <= j < i && d[j] == self.nodes@[d[i]].parent by {
            assert(d[i] == l[i - 1]);
            if self.nodes@[l[i - 1]].parent == n {
                assert(d[0] == n);
            } else {
                let j = choose|j: int| 0 <= j < i - 1 && #[trigger] l[j] == self.nodes@[l[i - 1]].parent;
                assert(d[j + 1] == l[j]);
            }
        }
    }

    proof fn lemma_list_parent_first(&self, p: Entity, cs: Seq<Entity>)
        requires
            self.consistent(),
            forall|k: int|
                #![trigger cs[k]]
                0 <= k < cs.len() ==> self.below(p, cs[k]) && self.nodes@.contains_key(cs[k])
                    && self.nodes@[cs[k]].parent == p,
        ensures
            forall|i: int|
                #![trigger self.dfs_list(p, cs)[i]]
                0 <= i < self.dfs_list(p, cs).len() ==> self.nodes@.contains_key(self.dfs_list(p, cs)[i])
                    && (self.nodes@[self.dfs_list(p, cs)[i]].parent == p || exists|j: int|
                    0 <= j < i && self.dfs_list(p, cs)[j] == self.nodes@[self.dfs_list(p, cs)[i]].parent),
        decreases self.rank_limit() - self.rk(p), 0int, cs.len(),
    {
        if cs.len() > 0 {
            let c = cs.last();
            let _ = cs[cs.len() - 1];
            let rest = cs.drop_last();
            assert forall|k: int|
                #![trigger rest[k]]
                0 <= k < rest.len() implies self.below(p, rest[k]) && self.nodes@.contains_key(rest[k])
                    && self.nodes@[rest[k]].parent == p by {
                let _ = cs[k];
            }
            self.lemma_order_parent_first(c);
            self.lemma_list_parent_first(p, rest);
            let first = self.dfs_order(c);
            let l = self.dfs_list(p, cs);
            let lr = self.dfs_list(p, rest);
            assert(l == first + lr);
            assert forall|i: int|
                #![trigger l[i]]
                0 <= i < l.len() implies self.nodes@.contains_key(l[i]) && (self.nodes@[l[i]].parent == p
                    || exists|j: int| 0 <= j < i && l[j] == self.nodes@[l[i]].parent) by {
                if i < first.len() {
                    assert(l[i] == first[i]);
                    if i > 0 {
                        let j = choose|j: int| 0 <= j < i && #[trigger] first[j] == self.nodes@[first[i]].parent;
                        assert(l[j] == first[j]);
                    }
                } else {
                    assert(l[i] == lr[i - first.len()]);
                    let i2 = i - first.len();
                    if self.nodes@[lr[i2]].parent != p {
                        let j = choose|j: int| 0 <= j < i2 && #[trigger] lr[j] == self.nodes@[lr[i2]].parent;
                        assert(l[j + first.len()] == lr[j]);
                    }
                }
            }
        }
    }

    /// Depth-first order starts at its root and visits the parent of every
    /// other entity before the entity; every entity it visits after the
    /// root is in the tree.
    pub proof fn lemma_dfs_parent_first(&self, n: Entity)
        requires
            self.wf(),
        ensures
            self.dfs_order(n)[0] == n,
            forall|i: int|
                #![trigger self.dfs_order(n)[i]]
                1 <= i < self.dfs_order(n).len() ==> self.nodes().contains_key(self.dfs_order(n)[i])
                    && exists|j: int|
                    0 <= j < i && self.dfs_order(n)[j] == self.nodes()[self.dfs_order(n)[i]].parent,
    {
        self.lemma_order_parent_first(n);
    }

    /// `x` is `n` or lies below `n` in the tree.
    pub closed spec fn descends(&self, x: Entity, n: Entity) -> bool
        decreases self.rk(x),
    {
        x == n || (self.nodes@.contains_key(x) && {
            let p = self.nodes@[x].parent;
            p != NULL_ENTITY && self.rk(p) < self.rk(x) && self.descends(p, n)
        })
    }

    /// An entity lies below `n` when it is `n` or its parent lies below `n`.
    pub proof fn lemma_descends_unfold(&self, x: Entity, n: Entity)
        requires
            self.wf(),
        ensures
            self.descends(x, n) <==> (x == n || (self.nodes().contains_key(x) && self.nodes()[x].parent
                != NULL_ENTITY && self.descends(self.nodes()[x].parent, n))),
    {
        if self.nodes@.contains_key(x) {
            assert(self.link_ok(x));
        }
    }

    proof fn lemma_child_in_list(&self, p: Entity, cs: Seq<Entity>, k: int)
        requires
            0 <= k < cs.len(),
            forall|m: int| #![trigger cs[m]] 0 <= m < cs.len() ==> self.below(p, cs[m]),
        ensures
            self.dfs_list(p, cs).contains(cs[k]),
        decreases cs.len(),
    {
        let c = cs.last();
        let _ = cs[cs.len() - 1];
        let first = self.dfs_order(c);
        let rest = cs.drop_last();
        let lr = self.dfs_list(p, rest);
        assert(self.dfs_list(p, cs) == first + lr);
        if k == cs.len() - 1 {
            assert((first + lr)[0] == c);
        } else {
            assert forall|m: int| #![trigger rest[m]] 0 <= m < rest.len() implies self.below(p, rest[m]) by {
                let _ = cs[m];
            }
            self.lemma_child_in_list(p, rest, k);
            let j = choose|j: int| 0 <= j < lr.len() && lr[j] == rest[k];
            assert((first + lr)[j + first.len()] == cs[k]);
        }
    }

    proof fn lemma_sub_order(&self, n: Entity, y: Entity, z: Entity)
        requires
            self.consistent(),
            self.dfs_order(n).contains(y),
            self.dfs_order(y).contains(z),
        ensures
            self.dfs_order(n).contains(z),
        decreases self.rank_limit() - self.rk(n), 1int, 0int,
    {
        let d = self.dfs_order(n);
        let cs = self.children(n);
        let l = self.dfs_list(n, cs);
        assert(d == seq![n] + l);
        if y != n {
            let i = choose|i: int| 0 <= i < d.len() && d[i] == y;
            assert(l[i - 1] == y);
            self.lemma_children_below(n);
            self.lemma_sub_list(n, cs, y, z);
            let j = choose|j: int| 0 <= j < l.len() && l[j] == z;
            assert(d[j + 1] == z);
        }
    }

    proof fn lemma_sub_list(&self, p: Entity, cs: Seq<Entity>, y: Entity, z: Entity)
        requires
            self.consistent(),
            forall|m: int| #![trigger cs[m]] 0 <= m < cs.len() ==> self.below(p, cs[m]),
            self.dfs_list(p, cs).contains(y),
            self.dfs_order(y).contains(z),
        ensures
            self.dfs_list(p, cs).contains(z),
        decreases self.rank_limit() - self.rk(p), 0int, cs.len(),
    {
        let c = cs.last();
        let _ = cs[cs.len() - 1];
        let first = self.dfs_order(c);
        let rest = cs.drop_last();
        let lr = self.dfs_list(p, rest);
        let l = self.dfs_list(p, cs);
        assert(l == first + lr);
        let i = choose|i: int| 0 <= i < l.len() && l[i] == y;
        if i < first.len() {
            assert(first[i] == y);
            self.lemma_sub_order(c, y, z);
            let j = choose|j: int| 0 <= j < first.len() && first[j] == z;
            assert(l[j] == z);
        } else {
            assert(lr[i - first.len()] == y);
            assert forall|m: int| #![trigger rest[m]] 0 <= m < rest.len() implies self.below(p, rest[m]) by {
                let _ = cs[m];
            }
            self.lemma_sub_list(p, rest, y, z);
            let j = choose|j: int| 0 <= j < lr.len() && lr[j] == z;
            assert(l[j + first.len()] == z);
        }
    }

    proof fn lemma_descendant_visited(&self, n: Entity, x: Entity)
        requires
            self.wf(),
            self.descends(x, n),
        ensures
            self.dfs_order(n).contains(x),
        decreases self.rk(x),
    {
        if x == n {
            assert(self.dfs_order(n)[0] == n);
        } else {
            let p = self.nodes@[x].parent;
            self.lemma_descendant_visited(n, p);
            assert(self.children(p).contains(x));
            let k = choose|k: int| 0 <= k < self.children(p).len() && self.children(p)[k] == x;
            self.lemma_children_below(p);
            self.lemma_child_in_list(p, self.children(p), k);
            let l = self.dfs_list(p, self.children(p));
            let j = choose|j: int| 0 <= j < l.len() && l[j] == x;
            assert(self.dfs_order(p)[j + 1] == x);
            self.lemma_sub_order(n, p, x);
        }
    }

    proof fn lemma_visited_descends(&self, n: Entity, i: int)
        requires
            self.wf(),
            0 <= i < self.dfs_order(n).len(),
        ensures
            self.descends(self.dfs_order(n)[i], n),
        decreases i,
    {
        let d = self.dfs_order(n);
        if i > 0 {
            self.lemma_order_parent_first(n);
            let x = d[i];
            let j = choose|j: int| 0 <= j < i && d[j] == self.nodes@[x].parent;
            self.lemma_visited_descends(n, j);
            assert(self.link_ok(x));
            if n == NULL_ENTITY {
                assert(!self.nodes@.contains_key(n));
                assert(self.children(n) == Seq::<Entity>::empty());
                assert(self.dfs_list(n, self.children(n)) == Seq::<Entity>::empty());
                assert(false);
            }
            if j > 0 {
                assert(self.nodes@.contains_key(d[j]));
            }
        }
    }

    /// Depth-first order from `n` visits exactly `n` and the entities below
    /// it in the tree.
    pub proof fn lemma_dfs_visits_subtree(&self, n: Entity)
        requires
            self.wf(),
        ensures
            forall|x: Entity| #[trigger] self.dfs_order(n).contains(x) <==> self.descends(x, n),
    {
        assert forall|x: Entity| #[trigger] self.dfs_order(n).contains(x) <==> self.descends(x, n) by {
            if self.dfs_order(n).contains(x) {
                let i = choose|i: int| 0 <= i < self.dfs_order(n).len() && self.dfs_order(n)[i] == x;
                self.lemma_visited_descends(n, i);
            }
            if self.descends(x, n) {
                self.lemma_descendant_visited(n, x);
            }
        }
    }

    proof fn lemma_descends_rank(&self, x: Entity, n: Entity)
        requires
            self.consistent(),
            self.descends(x, n),
        ensures
            self.rk(x) >= self.rk(n),
            x != n ==> self.rk(x) > self.rk(n),
        decreases self.rk(x),
    {
        if x != n {
            let p = self.nodes@[x].parent;
            self.lemma_descends_rank(p, n);
        }
    }

    proof fn lemma_common_ancestor(&self, z: Entity, a: Entity, b: Entity)
        requires
            self.consistent(),
            self.descends(z, a),
            self.descends(z, b),
        ensures
            self.descends(a, b) || self.descends(b, a),
        decreases self.rk(z),
    {
        if z != a && z != b {
            let p = self.nodes@[z].parent;
            self.lemma_common_ancestor(p, a, b);
        }
    }

    proof fn lemma_chain_ranks(&self, c: Entity)
        requires
            self.consistent(),
            c == NULL_ENTITY || self.nodes@.contains_key(c),
        ensures
            forall|i: int|
                #![trigger self.chain(c)[i]]
                0 <= i < self.chain(c).len() ==> self.rk(self.chain(c)[i]) <= self.rk(c),
            forall|i: int|
                #![trigger self.chain(c)[i]]
                1 <= i < self.chain(c).len() ==> self.rk(self.chain(c)[i]) < self.rk(c),
            self.chain(c).no_duplicates(),
        decreases self.rk(c),
    {
        if c != NULL_ENTITY {
            assert(self.link_ok(c));
            let nx = self.nodes@[c].next;
            if nx != NULL_ENTITY {
                self.lemma_chain_ranks(nx);
                let ch = self.chain(c);
                let rest = self.chain(nx);
                assert(ch == seq![c] + rest);
                assert forall|i: int|
                    #![trigger ch[i]]
                    1 <= i < ch.len() implies self.rk(ch[i]) < self.rk(c) by {
                    assert(ch[i] == rest[i - 1]);
                }
                assert forall|i: int, j: int| 0 <= i < ch.len() && 0 <= j < ch.len() && i != j implies ch[i] != ch[j] by {
                    if i == 0 {
                        assert(self.rk(ch[j]) < self.rk(c));
                    } else if j == 0 {
                        assert(self.rk(ch[i]) < self.rk(c));
                    } else {
                        assert(ch[i] == rest[i - 1]);
                        assert(ch[j] == rest[j - 1]);
                    }
                }
            }
        }
    }

    proof fn lemma_list_elems_descend(&self, p: Entity, cs: Seq<Entity>, i: int)
        requires
            self.wf(),
            forall|m: int| #![trigger cs[m]] 0 <= m < cs.len() ==> self.below(p, cs[m]),
            0 <= i < self.dfs_list(p, cs).len(),
        ensures
            exists|k: int| 0 <= k < cs.len() && self.descends(self.dfs_list(p, cs)[i], #[trigger] cs[k]),
        decreases cs.len(),
    {
        let c = cs.last();
        let _ = cs[cs.len() - 1];
        let first = self.dfs_order(c);
        let rest = cs.drop_last();
        let lr = self.dfs_list(p, rest);
        let l = self.dfs_list(p, cs);
        assert(l == first + lr);
        if i < first.len() {
            self.lemma_visited_descends(c, i);
            assert(l[i] == first[i]);
            assert(self.descends(l[i], cs[cs.len() - 1]));
        } else {
            assert forall|m: int| #![trigger rest[m]] 0 <= m < rest.len() implies self.below(p, rest[m]) by {
                let _ = cs[m];
            }
            self.lemma_list_elems_descend(p, rest, i - first.len());
            assert(l[i] == lr[i - first.len()]);
            let k = choose|k: int| 0 <= k < rest.len() && self.descends(lr[i - first.len()], #[trigger] rest[k]);
            assert(rest[k] == cs[k]);
        }
    }

    proof fn lemma_order_no_dup(&self, n: Entity)
        requires
            self.wf(),
        ensures
            self.dfs_order(n).no_duplicates(),
        decreases self.rank_limit() - self.rk(n), 1int, 0int,
    {
        let cs = self.children(n);
        self.lemma_children_below(n);
        let f = node_at(self.nodes@, n).first;
        if self.nodes@.contains_key(n) {
            assert(self.link_ok(n));
        }
        self.lemma_chain_ranks(f);
        self.lemma_list_no_dup(n, cs);
        let d = self.dfs_order(n);
        let l = self.dfs_list(n, cs);
        assert(d == seq![n] + l);
        assert forall|i: int, j: int| 0 <= i < d.len() && 0 <= j < d.len() && i != j implies d[i] != d[j] by {
            if i == 0 || j == 0 {
                let k = if i == 0 { j } else { i };
                self.lemma_list_elems_descend(n, cs, k - 1);
                let m = choose|m: int| 0 <= m < cs.len() && self.descends(l[k - 1], #[trigger] cs[m]);
                self.lemma_descends_rank(l[k - 1], cs[m]);
                assert(d[k] == l[k - 1]);
            } else {
                assert(d[i] == l[i - 1]);
                assert(d[j] == l[j - 1]);
            }
        }
    }

    proof fn lemma_list_no_dup(&self, p: Entity, cs: Seq<Entity>)
        requires
            self.wf(),
            cs.no_duplicates(),
            forall|m: int|
                #![trigger cs[m]]
                0 <= m < cs.len() ==> self.below(p, cs[m]) && self.nodes@.contains_key(cs[m])
                    && self.nodes@[cs[m]].parent == p,
        ensures
            self.dfs_list(p, cs).no_duplicates(),
        decreases self.rank_limit() - self.rk(p), 0int, cs.len(),
    {
        if cs.len() > 0 {
            let last = cs.len() - 1;
            let c = cs[last];
            let first = self.dfs_order(c);
            let rest = cs.drop_last();
            assert forall|m: int|
                #![trigger rest[m]]
                0 <= m < rest.len() implies self.below(p, rest[m]) && self.nodes@.contains_key(rest[m])
                    && self.nodes@[rest[m]].parent == p by {
                let _ = cs[m];
            }
            assert(rest.no_duplicates()) by {
                assert forall|i: int, j: int| 0 <= i < rest.len() && 0 <= j < rest.len() && i != j implies rest[i] != rest[j] by {
                    assert(rest[i] == cs[i]);
                    assert(rest[j] == cs[j]);
                }
            }
            self.lemma_order_no_dup(c);
            self.lemma_list_no_dup(p, rest);
            let lr = self.dfs_list(p, rest);
            let l = self.dfs_list(p, cs);
            assert(l == first + lr);
            assert forall|i: int, j: int| 0 <= i < l.len() && 0 <= j < l.len() && i != j implies l[i] != l[j] by {
                if i < first.len() && j < first.len() {
                    assert(l[i] == first[i] && l[j] == first[j]);
                } else if i >= first.len() && j >= first.len() {
                    assert(l[i] == lr[i - first.len()] && l[j] == lr[j - first.len()]);
                } else {
                    let (a, b) = if i < first.len() { (i, j) } else { (j, i) };
                    assert(l[a] == first[a]);
                    assert(l[b] == lr[b - first.len()]);
                    if l[a] == l[b] {
                        let z = l[a];
                        self.lemma_visited_descends(c, a);
                        self.lemma_list_elems_descend(p, rest, b - first.len());
                        let m = choose|m: int| 0 <= m < rest.len() && self.descends(lr[b - first.len()], #[trigger] rest[m]);
                        let c2 = rest[m];
                        assert(c2 == cs[m]);
                        assert(c2 != c);
                        self.lemma_common_ancestor(z, c, c2);
                        if self.descends(c, c2) {
                            assert(self.link_ok(c));
                            self.lemma_descends_rank(p, c2);
                        } else {
                            assert(self.link_ok(c2));
                            self.lemma_descends_rank(p, c);
                        }
                    }
                }
            }
        }
    }

    /// Depth-first order visits no entity twice.
    pub proof fn lemma_dfs_once(&self, n: Entity)
        requires
            self.wf(),
        ensures
            self.dfs_order(n).no_duplicates(),
    {
        self.lemma_order_no_dup(n);
    }

    /// Hands out a fresh entity: one that nothing in the scene refers to yet.
    pub fn builder(&mut self) -> (b: Builder)
        requires
            old(self).wf(),
            old(self).next_id() < NULL_ENTITY,
        ensures
            final(self).wf(),
            b.entity() == old(self).next_id(),
            final(self).next_id() == old(self).next_id() + 1,
            final(self).nodes() == old(self).nodes(),
            final(self).root_entity() == old(self).root_entity(),
            !final(self).nodes().contains_key(b.entity()),
            b.entity() != NULL_ENTITY,
            forall|x: Entity| #[trigger] final(self).children(x) == old(self).children(x),
    {
        let new_entity = self.next_entity;
        self.next_entity = self.next_entity + 1;
        proof {
            assert forall|x: Entity| #[trigger] self.nodes@.contains_key(x) implies self.link_ok(x) by {
                let _ = old(self).nodes@[x];
            }
            assert(self.links_ok());
            assert forall|x: Entity| #[trigger] self.children(x) == old(self).children(x) by {
                self.lemma_chain_same(old(self), node_at(self.nodes@, x).first);
            }
        }
        Builder { entity: new_entity }
    }

    /// Two worlds with the same links and ranks have the same sibling lists.
    proof fn lemma_chain_same(&self, other: &World, c: Entity)
        requires
            self.nodes@ == other.nodes@,
            self.rank@ == other.rank@,
        ensures
            self.chain(c) == other.chain(c),
        decreases self.rk(c),
    {
        if c != NULL_ENTITY {
            let nx = node_at(self.nodes@, c).next;
            if nx != NULL_ENTITY && self.rk(nx) < self.rk(c) {
                self.lemma_chain_same(other, nx);
            }
        }
    }

    /// Sibling lists that start at an entity already in the tree keep their
    /// entries when a fresh entity is linked in.
    proof fn lemma_chain_after_attach(&self, old_w: &World, e: Entity, p: Entity, c: Entity)
        requires
            old_w.consistent(),
            old_w.nodes@.contains_key(p),
            !old_w.nodes@.contains_key(e),
            e != NULL_ENTITY,
            self.nodes@ == attached(old_w.nodes@, e, p),
            self.rank@ == old_w.rank@.insert(e, old_w.rank_bound@),
            c == NULL_ENTITY || old_w.nodes@.contains_key(c),
        ensures
            self.chain(c) == old_w.chain(c),
        decreases old_w.rk(c),
    {
        if c != NULL_ENTITY {
            let _ = old_w.nodes@[c];
            let _ = old_w.nodes@[p];
            assert(c != e);
            assert(node_at(self.nodes@, c).next == node_at(old_w.nodes@, c).next);
            let nx = node_at(old_w.nodes@, c).next;
            if nx != NULL_ENTITY {
                assert(self.rk(nx) == old_w.rk(nx));
                self.lemma_chain_after_attach(old_w, e, p, nx);
            }
        }
    }

    fn attach_node(&mut self, e: Entity, parent: Entity)
        requires
            old(self).wf(),
            old(self).nodes().contains_key(parent),
            !old(self).nodes().contains_key(e),
            e != NULL_ENTITY,
            e < old(self).next_id(),
        ensures
            final(self).wf(),
            final(self).nodes() == attached(old(self).nodes(), e, parent),
            final(self).root_entity() == old(self).root_entity(),
            final(self).next_id() == old(self).next_id(),
            final(self).children(parent) == seq![e] + old(self).children(parent),
            final(self).children(e) == Seq::<Entity>::empty(),
            forall|x: Entity|
                x != parent && x != e ==> #[trigger] final(self).children(x) == old(self).children(x),
    {
        let parent_node_copy = *self.nodes.get_unchecked(parent);
        let old_first = parent_node_copy.first;
        let scene_node = SceneNode {
            first: NULL_ENTITY,
            next: old_first,
            prev: NULL_ENTITY,
            parent: parent,
        };
        let ghost o = *self;
        proof {
            let _ = o.nodes@[parent];
            if old_first != NULL_ENTITY {
                let _ = o.nodes@[old_first];
            }
        }
        let r = self.nodes.get_unchecked_mut(parent);
        r.first = e;
        if old_first != NULL_ENTITY {
            let f = self.nodes.get_unchecked_mut(old_first);
            f.prev = e;
        }
        self.nodes.insert_unchecked(e, scene_node);
        proof {
            self.rank@ = o.rank@.insert(e, o.rank_bound@);
            self.rank_bound@ = o.rank_bound@ + 1;
            assert(self.nodes@ =~= attached(o.nodes@, e, parent));
            assert forall|x: Entity| #[trigger] self.nodes@.contains_key(x) implies self.link_ok(x) by {
                if x != e {
                    let _ = o.nodes@[x];
                    let ond = o.nodes@[x];
                    if ond.first != NULL_ENTITY {
                        let _ = o.nodes@[ond.first];
                    }
                    if ond.next != NULL_ENTITY {
                        let _ = o.nodes@[ond.next];
                    }
                    if ond.parent != NULL_ENTITY {
                        let _ = o.nodes@[ond.parent];
                    }
                }
            }
            // sibling lists
            self.lemma_chain_after_attach(&o, e, parent, old_first);
            assert(self.chain(NULL_ENTITY) == Seq::<Entity>::empty());
            assert(self.children(e) =~= Seq::<Entity>::empty());
            assert(self.chain(e) =~= seq![e] + o.chain(old_first));
            assert(self.children(parent) =~= seq![e] + o.children(parent));
            assert forall|x: Entity|
                x != parent && x != e implies #[trigger] self.children(x) == o.children(x) by {
                let f = node_at(o.nodes@, x).first;
                if o.nodes@.contains_key(x) {
                    let _ = o.nodes@[x];
                    if f != NULL_ENTITY {
                        let _ = o.nodes@[f];
                    }
                }
                assert(node_at(self.nodes@, x).first == f);
                self.lemma_chain_after_attach(&o, e, parent, f);
            }
            assert(self.links_ok());
            assert(self.consistent());
            assert(self.nodes().contains_key(self.root_entity()));
            assert forall|x: Entity|
                #![trigger self.nodes@[x]]
                self.nodes@.contains_key(x) && self.nodes@[x].parent != NULL_ENTITY implies self.children(
                    self.nodes@[x].parent,
                ).contains(x) by {
                if x == e {
                    assert(self.children(parent)[0] == e);
                } else {
                    let q = o.nodes@[x].parent;
                    assert(self.nodes@[x].parent == q);
                    assert(o.children(q).contains(x));
                    if q == parent {
                        let k = choose|k: int| 0 <= k < o.children(q).len() && o.children(q)[k] == x;
                        assert(self.children(q)[k + 1] == x);
                    }
                }
            }
        }
    }

    /// The entities of the subtree of `root` in depth-first order: `root`
    /// first, then the subtree of each child, oldest child first.
    pub fn dfs(&self, root: Entity) -> (order: Vec<Entity>)
        requires
            self.wf(),
        ensures
            order@ == self.dfs_order(root),
    {
        let mut order: Vec<Entity> = Vec::new();
        let mut stack: Vec<Entity> = Vec::new();
        stack.push(root);
        proof {
            assert(stack@.last() == root);
            assert(stack@.drop_last() =~= Seq::<Entity>::empty());
            assert(self.pending(Seq::<Entity>::empty()) == Seq::<Entity>::empty());
            assert(order@ + self.pending(stack@) =~= self.dfs_order(root));
        }
        while stack.len() > 0
            invariant
                self.wf(),
                order@ + self.pending(stack@) == self.dfs_order(root),
            decreases self.pending(stack@).len(),
        {
            let ghost before = stack@;
            let cur = stack.pop().unwrap();
            let ghost rest = stack@;
            proof {
                assert(rest =~= before.drop_last());
            }
            order.push(cur);
            proof {
                self.lemma_children_below(cur);
            }
            let mut child_itr = match self.nodes.get(cur) {
                Some(n) => n.first,
                None => NULL_ENTITY,
            };
            let ghost mut pushed: Seq<Entity> = Seq::empty();
            while child_itr != NULL_ENTITY
                invariant
                    self.wf(),
                    stack@ == rest + pushed,
                    pushed + self.chain(child_itr) == self.children(cur),
                    forall|i: int|
                        #![trigger self.children(cur)[i]]
                        0 <= i < self.children(cur).len() ==> self.below(cur, self.children(cur)[i])
                            && self.nodes@.contains_key(self.children(cur)[i]),
                decreases self.chain(child_itr).len(),
            {
                proof {
                    assert(self.children(cur)[pushed.len() as int] == child_itr);
                    let _ = self.nodes@[child_itr];
                }
                stack.push(child_itr);
                proof {
                    pushed = pushed.push(child_itr);
                }
                let nd = self.nodes.get_unchecked(child_itr);
                let ghost old_itr = child_itr;
                child_itr = nd.next;
                proof {
                    assert(self.chain(old_itr) =~= seq![old_itr] + self.chain(child_itr));
                    assert(pushed + self.chain(child_itr) =~= self.children(cur));
                }
            }
            proof {
                assert(pushed =~= self.children(cur));
                self.lemma_pending_append(cur, rest, self.children(cur));
                assert(order@ + self.pending(stack@) =~= self.dfs_order(root));
            }
        }
        order
    }

    /// The accumulated value `a` of `e` was computed by `func` from the
    /// value of the parent of `e`: `acc_init` where the parent is `root`, or
    /// one of the values already reported for the parent.
    #[verifier::opaque]
    pub open spec fn acc_from_parent<T, F: Fn(Entity, &T) -> T>(
        &self,
        root: Entity,
        acc_init: T,
        func: F,
        out: Seq<(Entity, T)>,
        e: Entity,
        a: T,
    ) -> bool {
        let p = node_at(self.nodes(), e).parent;
        ||| (p == root && call_ensures(func, (e, &acc_init), a))
        ||| exists|j: int|
            0 <= j < out.len() && (#[trigger] out[j]).0 == p && call_ensures(func, (e, &out[j].1), a)
    }


    proof fn lemma_out_extend<T, F: Fn(Entity, &T) -> T>(
        &self,
        root: Entity,
        init: T,
        func: F,
        out: Seq<(Entity, T)>,
        visited: Seq<Entity>,
        cur: Entity,
        cur_acc: T,
    )
        requires
            visited.len() == out.len() + 1,
            forall|i: int|
                #![trigger out[i]]
                0 <= i < out.len() ==> out[i].0 == visited[i + 1] && self.acc_from_parent(
                    root,
                    init,
                    func,
                    out.take(i),
                    out[i].0,
                    out[i].1,
                ),
            self.acc_from_parent(root, init, func, out, cur, cur_acc),
        ensures
            forall|i: int|
                #![trigger out.push((cur, cur_acc))[i]]
                0 <= i < out.len() + 1 ==> out.push((cur, cur_acc))[i].0 == visited.push(cur)[i + 1]
                    && self.acc_from_parent(
                    root,
                    init,
                    func,
                    out.push((cur, cur_acc)).take(i),
                    out.push((cur, cur_acc))[i].0,
                    out.push((cur, cur_acc))[i].1,
                ),
    {
        reveal(World::acc_from_parent);
        let o2 = out.push((cur, cur_acc));
        assert forall|i: int|
            #![trigger o2[i]]
            0 <= i < out.len() + 1 implies o2[i].0 == visited.push(cur)[i + 1]
                && self.acc_from_parent(root, init, func, o2.take(i), o2[i].0, o2[i].1) by {
            if i < out.len() {
                assert(o2.take(i) =~= out.take(i));
                assert(o2[i] == out[i]);
            } else {
                assert(o2.take(i) =~= out);
            }
        }
    }

    proof fn lemma_stack_extend<T, F: Fn(Entity, &T) -> T>(
        &self,
        root: Entity,
        init: T,
        func: F,
        out_before: Seq<(Entity, T)>,
        out: Seq<(Entity, T)>,
        rest: Seq<Entity>,
        acc_rest: Seq<T>,
        ents: Seq<Entity>,
        accs: Seq<T>,
        cur: Entity,
        cur_acc: T,
    )
        requires
            out == out_before.push((cur, cur_acc)),
            rest.len() == acc_rest.len(),
            ents.len() == accs.len(),
            rest.len() <= ents.len(),
            ents.subrange(0, rest.len() as int) == rest,
            accs.subrange(0, rest.len() as int) == acc_rest,
            forall|k: int|
                0 <= k < rest.len() ==> self.acc_from_parent(
                    root,
                    init,
                    func,
                    out_before,
                    #[trigger] rest[k],
                    acc_rest[k],
                ),
            forall|k: int|
                #![trigger ents[k]]
                rest.len() <= k < ents.len() ==> node_at(self.nodes(), ents[k]).parent == cur
                    && call_ensures(func, (ents[k], &cur_acc), accs[k]),
        ensures
            forall|k: int|
                #![trigger ents[k]]
                0 <= k < ents.len() ==> self.acc_from_parent(root, init, func, out, ents[k], accs[k]),
    {
        reveal(World::acc_from_parent);
        assert forall|k: int|
            #![trigger ents[k]]
            0 <= k < ents.len() implies self.acc_from_parent(root, init, func, out, ents[k], accs[k]) by {
            if k < rest.len() {
                assert(ents[k] == rest[k]);
                assert(accs[k] == acc_rest[k]);
                let p = node_at(self.nodes(), rest[k]).parent;
                if !(p == root && call_ensures(func, (rest[k], &init), acc_rest[k])) {
                    let j = choose|j: int|
                        0 <= j < out_before.len() && (#[trigger] out_before[j]).0 == p
                            && call_ensures(func, (rest[k], &out_before[j].1), acc_rest[k]);
                    assert(out[j] == out_before[j]);
                }
            } else {
                let j = out_before.len() as int;
                assert(out[j] == (cur, cur_acc));
            }
        }
    }

    proof fn lemma_stack_first<T, F: Fn(Entity, &T) -> T>(
        &self,
        root: Entity,
        init: T,
        func: F,
        out: Seq<(Entity, T)>,
        ents: Seq<Entity>,
        accs: Seq<T>,
    )
        requires
            ents.len() == accs.len(),
            forall|k: int|
                #![trigger ents[k]]
                0 <= k < ents.len() ==> node_at(self.nodes(), ents[k]).parent == root
                    && call_ensures(func, (ents[k], &init), accs[k]),
        ensures
            forall|k: int|
                #![trigger ents[k]]
                0 <= k < ents.len() ==> self.acc_from_parent(root, init, func, out, ents[k], accs[k]),
    {
        reveal(World::acc_from_parent);
    }

    /// Walks the subtree of `root` depth-first, computing for each entity
    /// below `root` a value from the value of its parent (`acc_init` for
    /// `root` itself). Reports each entity below `root` with its value, in
    /// depth-first order.
    pub fn dfs_acc<T, F: Fn(Entity, &T) -> T>(&self, root: Entity, acc_init: T, func: F) -> (out: Vec<(Entity, T)>)
        requires
            self.wf(),
            forall|e: Entity, a: T| call_requires(func, (e, &a)),
        ensures
            out@.len() + 1 == self.dfs_order(root).len(),
            forall|i: int|
                #![trigger out@[i]]
                0 <= i < out@.len() ==> out@[i].0 == self.dfs_order(root)[i + 1] && self.acc_from_parent(
                    root,
                    acc_init,
                    func,
                    out@.take(i),
                    out@[i].0,
                    out@[i].1,
                ),
    {
        let ghost init = acc_init;
        let mut out: Vec<(Entity, T)> = Vec::new();
        let mut entity_stack: Vec<Entity> = Vec::new();
        let mut acc_stack: Vec<T> = Vec::new();
        entity_stack.push(root);
        acc_stack.push(acc_init);
        let mut started = false;
        let ghost mut visited: Seq<Entity> = Seq::empty();
        proof {
            assert(entity_stack@.last() == root);
            assert(entity_stack@.drop_last() =~= Seq::<Entity>::empty());
            assert(self.pending(Seq::<Entity>::empty()) == Seq::<Entity>::empty());
            assert(visited + self.pending(entity_stack@) =~= self.dfs_order(root));
        }
        while entity_stack.len() > 0
            invariant
                self.wf(),
                forall|e: Entity, a: T| call_requires(func, (e, &a)),
                entity_stack@.len() == acc_stack@.len(),
                visited + self.pending(entity_stack@) == self.dfs_order(root),
                !started ==> entity_stack@ == seq![root] && acc_stack@ == seq![init] && visited.len()
                    == 0 && out@.len() == 0,
                started ==> visited.len() == out@.len() + 1 && visited[0] == root,
                started ==> forall|i: int|
                    #![trigger out@[i]]
                    0 <= i < out@.len() ==> out@[i].0 == visited[i + 1] && self.acc_from_parent(
                        root,
                        init,
                        func,
                        out@.take(i),
                        out@[i].0,
                        out@[i].1,
                    ),
                started ==> forall|k: int|
                    #![trigger entity_stack@[k]]
                    0 <= k < entity_stack@.len() ==> self.acc_from_parent(
                        root,
                        init,
                        func,
                        out@,
                        entity_stack@[k],
                        acc_stack@[k],
                    ),
            decreases self.pending(entity_stack@).len(),
        {
            let ghost before = entity_stack@;
            let ghost acc_before = acc_stack@;
            let cur_entity = entity_stack.pop().unwrap();
            let cur_acc = acc_stack.pop().unwrap();
            let ghost rest = entity_stack@;
            let ghost acc_rest = acc_stack@;
            proof {
                assert(rest =~= before.drop_last());
                assert(acc_rest =~= acc_before.drop_last());
                self.lemma_children_below(cur_entity);
                if started {
                    let _ = before[before.len() - 1];
                }
            }
            let mut child_itr = match self.nodes.get(cur_entity) {
                Some(n) => n.first,
                None => NULL_ENTITY,
            };
            let ghost mut pushed: Seq<Entity> = Seq::empty();
            while child_itr != NULL_ENTITY
                invariant
                    self.wf(),
                    forall|e: Entity, a: T| call_requires(func, (e, &a)),
                    entity_stack@ == rest + pushed,
                    acc_stack@.len() == entity_stack@.len(),
                    acc_stack@.subrange(0, rest.len() as int) == acc_rest,
                    pushed + self.chain(child_itr) == self.children(cur_entity),
                    forall|i: int|
                        #![trigger self.children(cur_entity)[i]]
                        0 <= i < self.children(cur_entity).len() ==> self.below(
                            cur_entity,
                            self.children(cur_entity)[i],
                        ) && self.nodes@.contains_key(self.children(cur_entity)[i])
                            && self.nodes@[self.children(cur_entity)[i]].parent == cur_entity,
                    forall|k: int|
                        #![trigger entity_stack@[k]]
                        rest.len() <= k < entity_stack@.len() ==> node_at(
                            self.nodes(),
                            entity_stack@[k],
                        ).parent == cur_entity && call_ensures(
                            func,
                            (entity_stack@[k], &cur_acc),
                            acc_stack@[k],
                        ),
                decreases self.chain(child_itr).len(),
            {
                proof {
                    assert(self.children(cur_entity)[pushed.len() as int] == child_itr);
                }
                let acc = func(child_itr, &cur_acc);
                acc_stack.push(acc);
                entity_stack.push(child_itr);
                proof {
                    pushed = pushed.push(child_itr);
                    assert(acc_stack@.subrange(0, rest.len() as int) =~= acc_rest);
                }
                let nd = self.nodes.get_unchecked(child_itr);
                let ghost old_itr = child_itr;
                child_itr = nd.next;
                proof {
                    assert(self.chain(old_itr) =~= seq![old_itr] + self.chain(child_itr));
                    assert(pushed + self.chain(child_itr) =~= self.children(cur_entity));
                }
            }
            let ghost out_before = out@;
            if started {
                out.push((cur_entity, cur_acc));
            }
            proof {
                assert(pushed =~= self.children(cur_entity));
                self.lemma_pending_append(cur_entity, rest, self.children(cur_entity));
                visited = visited.push(cur_entity);
                assert(visited + self.pending(entity_stack@) =~= self.dfs_order(root));
                let ghost accs = acc_stack@;
                let ghost ents = entity_stack@;
                assert(ents.subrange(0, rest.len() as int) =~= rest);
                assert(visited[0] == root);
                if started {
                    let k = (before.len() - 1) as int;
                    assert(before[k] == cur_entity);
                    assert(acc_before[k] == cur_acc);
                    self.lemma_out_extend(root, init, func, out_before, visited.drop_last(), cur_entity, cur_acc);
                    assert(visited.drop_last().push(cur_entity) =~= visited);
                    assert forall|k: int| 0 <= k < rest.len() implies self.acc_from_parent(
                            root, init, func, out_before, #[trigger] rest[k], acc_rest[k]) by {
                        let _ = before[k];
                        assert(rest[k] == before[k]);
                        assert(acc_rest[k] == acc_before[k]);
                    }
                    self.lemma_stack_extend(root, init, func, out_before, out@, rest, acc_rest, ents, accs, cur_entity, cur_acc);
                } else {
                    assert(cur_entity == root);
                    assert(cur_acc == init);
                    assert(rest.len() == 0);
                    self.lemma_stack_first(root, init, func, out@, ents, accs);
                }
            }
            started = true;
        }
        proof {
            assert(self.pending(entity_stack@) == Seq::<Entity>::empty());
            assert(visited =~= self.dfs_order(root));
        }
        out
    }
}

/// A call that changes a world: making a builder (which hands out an
/// entity), or linking `entity` in under `parent`.
pub enum WorldCall {
    Builder,
    Attach { entity: Entity, parent: Entity },
}

/// `after` is what `call` makes of `before`, as `World::builder` and
/// `Builder::attach` state it.
pub open spec fn call_effect(before: World, call: WorldCall, after: World) -> bool {
    match call {
        WorldCall::Builder => {
            &&& before.next_id() < NULL_ENTITY
            &&& after.next_id() == before.next_id() + 1
            &&& after.nodes() == before.nodes()
            &&& after.root_entity() == before.root_entity()
        },
        WorldCall::Attach { entity, parent } => {
            &&& after.nodes() == attached(before.nodes(), entity, parent)
            &&& after.next_id() == before.next_id()
            &&& after.root_entity() == before.root_entity()
        },
    }
}

/// The number of builders among `calls`.
pub open spec fn builder_count(calls: Seq<WorldCall>) -> nat
    decreases calls.len(),
{
    if calls.len() == 0 {
        0
    } else {
        builder_count(calls.drop_last()) + if calls.last() is Builder { 1nat } else { 0nat }
    }
}

/// Over any run of calls from a new world (`worlds[i + 1]` is what
/// `calls[i]` makes of `worlds[i]`), the root stays entity `0`, and the
/// entity the next builder hands out is one more than the number of
/// builders made so far: the `n`-th builder hands out `n`, each entity
/// handed out differs from every earlier one, and none is `NULL_ENTITY`.
pub proof fn lemma_world_run(worlds: Seq<World>, calls: Seq<WorldCall>)
    requires
        worlds.len() == calls.len() + 1,
        worlds[0].root_entity() == 0,
        worlds[0].next_id() == 1,
        forall|i: int| 0 <= i < calls.len() ==> call_effect(worlds[i], calls[i], #[trigger] worlds[i + 1]),
    ensures
        forall|i: int| 0 <= i < worlds.len() ==> (#[trigger] worlds[i]).root_entity() == 0,
        forall|i: int|
            0 <= i < worlds.len() ==> (#[trigger] worlds[i]).next_id() == builder_count(calls.take(i)) + 1,
        forall|i: int, j: int|
            0 <= i < j < calls.len() && calls[i] is Builder && calls[j] is Builder ==> (#[trigger] worlds[i]).next_id()
                < (#[trigger] worlds[j]).next_id() && worlds[j].next_id() != NULL_ENTITY,
    decreases calls.len(),
{
    if calls.len() > 0 {
        let n = calls.len() - 1;
        let ws = worlds.drop_last();
        let cs = calls.drop_last();
        assert forall|i: int| 0 <= i < cs.len() implies call_effect(ws[i], cs[i], #[trigger] ws[i + 1]) by {
            assert(worlds[i + 1] == ws[i + 1]);
        }
        lemma_world_run(ws, cs);
        assert forall|i: int| 0 <= i < worlds.len() implies (#[trigger] worlds[i]).root_entity() == 0 && worlds[i].next_id()
            == builder_count(calls.take(i)) + 1 by {
            if i < ws.len() {
                assert(worlds[i] == ws[i]);
                assert(calls.take(i) == cs.take(i));
            } else {
                assert(worlds[n] == ws[n]);
                assert(calls.take(n) == cs.take(n));
                assert(cs.take(n) == cs);
                assert(calls.take(i) == calls);
                assert(call_effect(worlds[n], calls[n], worlds[n + 1]));
            }
        }
        assert forall|i: int, j: int|
            0 <= i < j < calls.len() && calls[i] is Builder && calls[j] is Builder implies (#[trigger] worlds[i]).next_id()
                < (#[trigger] worlds[j]).next_id() && worlds[j].next_id() != NULL_ENTITY by {
            assert(call_effect(worlds[j], calls[j], worlds[j + 1]));
            assert(call_effect(worlds[i], calls[i], worlds[i + 1]));
            lemma_builder_count_grows(calls, i + 1, j);
            assert(calls.take(i + 1).drop_last() == calls.take(i));
        }
    }
}

proof fn lemma_builder_count_grows(calls: Seq<WorldCall>, i: int, j: int)
    requires
        0 <= i <= j <= calls.len(),
    ensures
        builder_count(calls.take(i)) <= builder_count(calls.take(j)),
    decreases j - i,
{
    if i < j {
        lemma_builder_count_grows(calls, i, j - 1);
        assert(calls.take(j).drop_last() == calls.take(j - 1));
    }
}

} // verus!
