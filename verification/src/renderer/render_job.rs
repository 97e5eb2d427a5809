use vstd::prelude::*;

verus! {

/// Index of an item in a render graph, or of a pass bucket in a render job.
pub type RenderNodeId = usize;

/// Everything one draw (or dispatch) needs, as far as scheduling reads it:
/// the pass it belongs to, the framebuffer a draw writes, and the number of
/// the GPU state (buffers, bind groups, callback) that the renderer keeps
/// for it.
pub enum RenderItem {
    Graphics { pass_name: String, framebuffer_name: String, draw: usize },
    Compute { pass_name: String, dispatch: usize },
    Custom { pass_name: String, callback: usize },
}

impl RenderItem {
    /// The name of the pass of the item.
    pub open spec fn pass(&self) -> Seq<char> {
        match self {
            RenderItem::Graphics { pass_name, .. } => pass_name@,
            RenderItem::Compute { pass_name, .. } => pass_name@,
            RenderItem::Custom { pass_name, .. } => pass_name@,
        }
    }

    /// A copy of the item.
    pub fn duplicate(&self) -> (r: Self)
        ensures
            r == *self,
    {
        match self {
            RenderItem::Graphics { pass_name, framebuffer_name, draw } => RenderItem::Graphics {
                pass_name: pass_name.clone(),
                framebuffer_name: framebuffer_name.clone(),
                draw: *draw,
            },
            RenderItem::Compute { pass_name, dispatch } => RenderItem::Compute {
                pass_name: pass_name.clone(),
                dispatch: *dispatch,
            },
            RenderItem::Custom { pass_name, callback } => RenderItem::Custom {
                pass_name: pass_name.clone(),
                callback: *callback,
            },
        }
    }
}

/// The name of the pass of an item.
pub fn render_item_pass_name(item: &RenderItem) -> (r: &String)
    ensures
        r@ == item.pass(),
{
    match item {
        RenderItem::Graphics { pass_name, .. } => pass_name,
        RenderItem::Compute { pass_name, .. } => pass_name,
        RenderItem::Custom { pass_name, .. } => pass_name,
    }
}

/// The framebuffer a draw writes; other items write none.
pub fn render_item_framebuffer_name(item: &RenderItem) -> (r: Option<&String>)
    ensures
        item matches RenderItem::Graphics { framebuffer_name, .. } ==> r == Some(framebuffer_name),
        !(item is Graphics) ==> r is None,
{
    match item {
        RenderItem::Graphics { framebuffer_name, .. } => Some(framebuffer_name),
        _ => None,
    }
}

/// The pass, framebuffer and draw number of a draw; `None` for other items.
pub fn try_unpack_graphics_item(item: &RenderItem) -> (r: Option<(&String, &String, usize)>)
    ensures
        item matches RenderItem::Graphics { pass_name, framebuffer_name, draw } ==> r == Some(
            (pass_name, framebuffer_name, *draw),
        ),
        !(item is Graphics) ==> r is None,
{
    if let RenderItem::Graphics { pass_name, framebuffer_name, draw } = item {
        Some((pass_name, framebuffer_name, *draw))
    } else {
        None
    }
}

/// Items to draw, with the items that must follow each one.
pub struct RenderGraph {
    items: Vec<RenderItem>,
    nodes: Vec<(RenderNodeId, Vec<RenderNodeId>)>,
    roots: Vec<RenderNodeId>,
}

impl RenderGraph {
    /// The items, by id.
    pub closed spec fn items(&self) -> Seq<RenderItem> {
        self.items@
    }

    /// The ids of the items that depend on no other item.
    pub closed spec fn root_ids(&self) -> Seq<RenderNodeId> {
        self.roots@
    }

    /// The ids that have a list of dependent items.
    pub closed spec fn has_dependents(&self, id: RenderNodeId) -> bool {
        exists|k: int| 0 <= k < self.nodes@.len() && (#[trigger] self.nodes@[k]).0 == id
    }

    /// No item has a list of dependent items (no call adds one), so every
    /// item is a root, in the order of its id.
    pub closed spec fn wf(&self) -> bool {
        &&& self.nodes@.len() == 0
        &&& self.roots@.len() == self.items@.len()
        &&& forall|i: int| 0 <= i < self.roots@.len() ==> #[trigger] self.roots@[i] == i
    }

    /// An empty graph.
    pub fn new() -> (g: Self)
        ensures
            g.wf(),
            g.items() == Seq::<RenderItem>::empty(),
    {
        RenderGraph { items: Vec::new(), nodes: Vec::new(), roots: Vec::new() }
    }
}

/// Builds a render graph item by item.
pub struct RenderGraphBuilder {
    render_graph: RenderGraph,
}

impl RenderGraphBuilder {
    /// The graph built so far.
    pub closed spec fn graph(&self) -> RenderGraph {
        self.render_graph
    }

    /// A builder with an empty graph.
    pub fn new() -> (b: Self)
        ensures
            b.graph().wf(),
            b.graph().items() == Seq::<RenderItem>::empty(),
    {
        RenderGraphBuilder { render_graph: RenderGraph::new() }
    }

    /// Adds an item that must follow the items `deps`; returns its id. Every
    /// id in `deps` must have a list of dependents in the graph.
    pub fn add(&mut self, item: RenderItem, deps: &[RenderNodeId]) -> (id: RenderNodeId)
        requires
            old(self).graph().wf(),
            forall|k: int| 0 <= k < deps@.len() ==> old(self).graph().has_dependents(#[trigger] deps@[k]),
        ensures
            final(self).graph().wf(),
            id == old(self).graph().items().len(),
            final(self).graph().items() == old(self).graph().items().push(item),
            final(self).graph().root_ids() == old(self).graph().root_ids().push(id),
    {
        let res_id = self.render_graph.items.len();
        self.render_graph.items.push(item);
        // Every dependency must already have a list of dependents; no graph
        // has one, so there is none to extend.
        let mut k: usize = 0;
        while k < deps.len()
            invariant
                k <= deps@.len(),
                forall|k: int| 0 <= k < deps@.len() ==> old(self).graph().has_dependents(#[trigger] deps@[k]),
                old(self).render_graph.nodes@.len() == 0,
                self.render_graph.nodes@ == old(self).render_graph.nodes@,
            decreases deps@.len() - k,
        {
            let dep = deps[k];
            proof {
                assert(old(self).graph().has_dependents(deps@[k as int]));
            }
            k = k + 1;
        }
        if deps.len() == 0 {
            self.render_graph.roots.push(res_id);
        }
        proof {
            if deps@.len() > 0 {
                let _ = old(self).graph().has_dependents(deps@[0]);
            }
        }
        res_id
    }

    /// Adds an item that follows no other item.
    pub fn add_root(&mut self, item: RenderItem)
        requires
            old(self).graph().wf(),
        ensures
            final(self).graph().wf(),
            final(self).graph().items() == old(self).graph().items().push(item),
            final(self).graph().root_ids() == old(self).graph().root_ids().push(
                old(self).graph().items().len() as RenderNodeId,
            ),
    {
        self.add(item, &[]);
    }

    /// Takes the graph built so far, leaving the builder empty.
    pub fn build(&mut self) -> (g: RenderGraph)
        requires
            old(self).graph().wf(),
        ensures
            g == old(self).graph(),
            final(self).graph().wf(),
            final(self).graph().items() == Seq::<RenderItem>::empty(),
    {
        let mut taken = RenderGraph::new();
        std::mem::swap(&mut taken, &mut self.render_graph);
        taken
    }
}

/// The pass names after merging `items`: the names already there, then the
/// pass of each item whose pass is not named yet, in item order.
pub open spec fn names_after(names: Seq<Seq<char>>, items: Seq<RenderItem>) -> Seq<Seq<char>>
    decreases items.len(),
{
    if items.len() == 0 {
        names
    } else {
        let prev = names_after(names, items.drop_last());
        if prev.contains(items.last().pass()) {
            prev
        } else {
            prev.push(items.last().pass())
        }
    }
}

/// The items of `items` from index `k` on whose pass is `name`, from the
/// last one back.
pub open spec fn items_of_pass(items: Seq<RenderItem>, name: Seq<char>, k: int) -> Seq<RenderItem>
    decreases items.len() - k,
{
    if k >= items.len() || k < 0 {
        Seq::empty()
    } else {
        let rest = items_of_pass(items, name, k + 1);
        if items[k].pass() == name {
            rest.push(items[k])
        } else {
            rest
        }
    }
}

/// The number of items over all buckets.
pub open spec fn total_items(buckets: Seq<Seq<RenderItem>>) -> nat
    decreases buckets.len(),
{
    if buckets.len() == 0 {
        0
    } else {
        total_items(buckets.drop_last()) + buckets.last().len()
    }
}

/// The items from index `k` on, counted once per name in `names` that is
/// their pass.
spec fn pass_counts(items: Seq<RenderItem>, names: Seq<Seq<char>>, k: int) -> nat
    decreases names.len(),
{
    if names.len() == 0 {
        0
    } else {
        pass_counts(items, names.drop_last(), k) + items_of_pass(items, names.last(), k).len()
    }
}

/// How often `x` occurs in `names`.
spec fn occurrences(names: Seq<Seq<char>>, x: Seq<char>) -> nat
    decreases names.len(),
{
    if names.len() == 0 {
        0
    } else {
        occurrences(names.drop_last(), x) + if names.last() == x { 1nat } else { 0nat }
    }
}

proof fn lemma_occurrences_distinct(names: Seq<Seq<char>>, x: Seq<char>)
    requires
        forall|i: int, j: int| 0 <= i < names.len() && 0 <= j < names.len() && i != j ==> names[i] != names[j],
    ensures
        names.contains(x) ==> occurrences(names, x) == 1,
        !names.contains(x) ==> occurrences(names, x) == 0,
    decreases names.len(),
{
    if names.len() > 0 {
        let d = names.drop_last();
        lemma_occurrences_distinct(d, x);
        if names.last() == x {
            assert(!d.contains(x)) by {
                if d.contains(x) {
                    let i = choose|i: int| 0 <= i < d.len() && d[i] == x;
                    assert(names[i] == names[names.len() - 1]);
                }
            }
        } else {
            if names.contains(x) {
                let i = choose|i: int| 0 <= i < names.len() && names[i] == x;
                assert(d[i] == x);
            }
            if d.contains(x) {
                let i = choose|i: int| 0 <= i < d.len() && d[i] == x;
                assert(names[i] == x);
            }
        }
    }
}

proof fn lemma_pass_counts_end(items: Seq<RenderItem>, names: Seq<Seq<char>>)
    ensures
        pass_counts(items, names, items.len() as int) == 0,
    decreases names.len(),
{
    if names.len() > 0 {
        lemma_pass_counts_end(items, names.drop_last());
    }
}

proof fn lemma_pass_counts_step(items: Seq<RenderItem>, names: Seq<Seq<char>>, k: int)
    requires
        0 <= k < items.len(),
    ensures
        pass_counts(items, names, k) == pass_counts(items, names, k + 1) + occurrences(names, items[k].pass()),
    decreases names.len(),
{
    if names.len() > 0 {
        lemma_pass_counts_step(items, names.drop_last(), k);
    }
}

proof fn lemma_pass_counts_all(items: Seq<RenderItem>, names: Seq<Seq<char>>, k: int)
    requires
        0 <= k <= items.len(),
        forall|i: int, j: int| 0 <= i < names.len() && 0 <= j < names.len() && i != j ==> names[i] != names[j],
        forall|j: int| 0 <= j < items.len() ==> names.contains(#[trigger] items[j].pass()),
    ensures
        pass_counts(items, names, k) == items.len() - k,
    decreases items.len() - k,
{
    if k == items.len() {
        lemma_pass_counts_end(items, names);
    } else {
        lemma_pass_counts_all(items, names, k + 1);
        lemma_pass_counts_step(items, names, k);
        lemma_occurrences_distinct(names, items[k].pass());
    }
}

proof fn lemma_names_after_cover(names: Seq<Seq<char>>, items: Seq<RenderItem>)
    ensures
        forall|j: int| 0 <= j < items.len() ==> names_after(names, items).contains(#[trigger] items[j].pass()),
    decreases items.len(),
{
    if items.len() > 0 {
        let d = items.drop_last();
        lemma_names_after_cover(names, d);
        lemma_names_after(names, items);
        lemma_names_after(names, d);
        let prev = names_after(names, d);
        assert forall|j: int| 0 <= j < items.len() implies names_after(names, items).contains(
            #[trigger] items[j].pass(),
        ) by {
            if j < d.len() {
                assert(d[j] == items[j]);
                let i = choose|i: int| 0 <= i < prev.len() && prev[i] == d[j].pass();
                if prev.contains(items.last().pass()) {
                } else {
                    assert(names_after(names, items)[i] == prev[i]);
                }
            } else {
                if prev.contains(items.last().pass()) {
                } else {
                    assert(names_after(names, items)[prev.len() as int] == items.last().pass());
                }
            }
        }
    }
}

proof fn lemma_total_split(
    new_buckets: Seq<Seq<RenderItem>>,
    old_buckets: Seq<Seq<RenderItem>>,
    items: Seq<RenderItem>,
    names: Seq<Seq<char>>,
)
    requires
        new_buckets.len() == names.len(),
        old_buckets.len() <= names.len(),
        forall|b: int|
            0 <= b < new_buckets.len() ==> #[trigger] new_buckets[b] == (if b < old_buckets.len() {
                old_buckets[b]
            } else {
                Seq::<RenderItem>::empty()
            }) + items_of_pass(items, names[b], 0),
    ensures
        total_items(new_buckets) == total_items(old_buckets) + pass_counts(items, names, 0),
    decreases names.len(),
{
    if names.len() > 0 {
        let nb = new_buckets.drop_last();
        let nn = names.drop_last();
        let last = new_buckets.len() - 1;
        if old_buckets.len() == names.len() {
            let ob = old_buckets.drop_last();
            assert forall|b: int| 0 <= b < nb.len() implies #[trigger] nb[b] == (if b < ob.len() {
                ob[b]
            } else {
                Seq::<RenderItem>::empty()
            }) + items_of_pass(items, nn[b], 0) by {
                assert(new_buckets[b] == nb[b]);
            }
            lemma_total_split(nb, ob, items, nn);
            assert(new_buckets[last] == old_buckets.last() + items_of_pass(items, names.last(), 0));
        } else {
            assert forall|b: int| 0 <= b < nb.len() implies #[trigger] nb[b] == (if b < old_buckets.len() {
                old_buckets[b]
            } else {
                Seq::<RenderItem>::empty()
            }) + items_of_pass(items, nn[b], 0) by {
                assert(new_buckets[b] == nb[b]);
            }
            lemma_total_split(nb, old_buckets, items, nn);
            assert(new_buckets[last] =~= items_of_pass(items, names.last(), 0));
        }
    }
}

/// Render items grouped into one bucket per pass, in the order the passes
/// appeared.
pub struct RenderJob {
    pass_items: Vec<Vec<RenderItem>>,
    graph: Vec<(RenderNodeId, Vec<(String, RenderNodeId)>)>,
    roots: Vec<(String, RenderNodeId)>,
}

/// Bucket visiting order of a job: pass name and bucket id.
pub struct Iter<'a> {
    node_ids: Vec<(String, RenderNodeId)>,
    job: &'a RenderJob,
    cur_idx: usize,
}

impl RenderJob {
    /// The pass name of each bucket.
    pub closed spec fn pass_names(&self) -> Seq<Seq<char>> {
        Seq::new(self.roots@.len(), |i: int| self.roots@[i].0@)
    }

    /// The items of each bucket.
    pub closed spec fn buckets(&self) -> Seq<Seq<RenderItem>> {
        Seq::new(self.pass_items@.len(), |i: int| self.pass_items@[i]@)
    }

    /// One bucket per pass name, no name twice, no bucket empty; buckets are
    /// not linked to each other (no graph has dependent items).
    pub closed spec fn wf(&self) -> bool {
        &&& self.graph@.len() == 0
        &&& self.roots@.len() == self.pass_items@.len()
        &&& forall|i: int| 0 <= i < self.roots@.len() ==> (#[trigger] self.roots@[i]).1 == i
        &&& forall|i: int, j: int|
            0 <= i < self.roots@.len() && 0 <= j < self.roots@.len() && i != j ==> (
            #[trigger] self.roots@[i]).0@ != (#[trigger] self.roots@[j]).0@
        &&& forall|i: int| 0 <= i < self.pass_items@.len() ==> (#[trigger] self.pass_items@[i])@.len() > 0
        &&& forall|i: int, k: int|
            0 <= i < self.pass_items@.len() && 0 <= k < self.pass_items@[i]@.len() ==> (
            #[trigger] self.pass_items@[i]@[k]).pass() == self.roots@[i].0@
    }

    /// In a well-formed job no two buckets have the same pass name, no
    /// bucket is empty, and every item of a bucket is of the bucket's pass.
    pub proof fn lemma_buckets(&self)
        requires
            self.wf(),
        ensures
            self.buckets().len() == self.pass_names().len(),
            forall|i: int, j: int|
                0 <= i < self.pass_names().len() && 0 <= j < self.pass_names().len() && i != j ==> (
                #[trigger] self.pass_names()[i]) != (#[trigger] self.pass_names()[j]),
            forall|b: int| 0 <= b < self.buckets().len() ==> (#[trigger] self.buckets()[b]).len() > 0,
            forall|b: int, k: int|
                0 <= b < self.buckets().len() && 0 <= k < self.buckets()[b].len() ==> (
                #[trigger] self.buckets()[b][k]).pass() == self.pass_names()[b],
    {
        assert forall|i: int, j: int|
            0 <= i < self.pass_names().len() && 0 <= j < self.pass_names().len() && i != j implies (
            #[trigger] self.pass_names()[i]) != (#[trigger] self.pass_names()[j]) by {
            assert(self.roots@[i].0@ != self.roots@[j].0@);
        }
        assert forall|b: int| 0 <= b < self.buckets().len() implies (#[trigger] self.buckets()[b]).len() > 0 by {
            assert(self.pass_items@[b]@.len() > 0);
        }
        assert forall|b: int, k: int|
            0 <= b < self.buckets().len() && 0 <= k < self.buckets()[b].len() implies (
            #[trigger] self.buckets()[b][k]).pass() == self.pass_names()[b] by {
            assert(self.pass_items@[b]@[k].pass() == self.roots@[b].0@);
        }
    }

    /// An empty job.
    pub fn new() -> (j: Self)
        ensures
            j.wf(),
            j.pass_names() == Seq::<Seq<char>>::empty(),
            j.buckets() == Seq::<Seq<RenderItem>>::empty(),
    {
        let j = RenderJob { pass_items: Vec::new(), graph: Vec::new(), roots: Vec::new() };
        assert(j.pass_names() =~= Seq::<Seq<char>>::empty());
        assert(j.buckets() =~= Seq::<Seq<RenderItem>>::empty());
        j
    }

    /// The bucket of pass `name`, made (empty) if there is none yet.
    fn bucket_for(&mut self, name: &String) -> (id: RenderNodeId)
        requires
            old(self).roots@.len() == old(self).pass_items@.len(),
            forall|i: int| 0 <= i < old(self).roots@.len() ==> (#[trigger] old(self).roots@[i]).1 == i,
            forall|i: int, j: int|
                0 <= i < old(self).roots@.len() && 0 <= j < old(self).roots@.len() && i != j ==> (
                #[trigger] old(self).roots@[i]).0@ != (#[trigger] old(self).roots@[j]).0@,
        ensures
            final(self).graph@ == old(self).graph@,
            final(self).roots@.len() == final(self).pass_items@.len(),
            forall|i: int| 0 <= i < final(self).roots@.len() ==> (#[trigger] final(self).roots@[i]).1 == i,
            forall|i: int, j: int|
                0 <= i < final(self).roots@.len() && 0 <= j < final(self).roots@.len() && i != j ==> (
                #[trigger] final(self).roots@[i]).0@ != (#[trigger] final(self).roots@[j]).0@,
            old(self).pass_names().contains(name@) ==> final(self).pass_names() == old(self).pass_names()
                && final(self).pass_items@ == old(self).pass_items@,
            !old(self).pass_names().contains(name@) ==> final(self).pass_names() == old(
                self,
            ).pass_names().push(name@) && final(self).pass_items@.len() == old(self).pass_items@.len() + 1
                && final(self).pass_items@.drop_last() == old(self).pass_items@
                && final(self).pass_items@.last()@ == Seq::<RenderItem>::empty(),
            id < final(self).roots@.len(),
            final(self).pass_names()[id as int] == name@,
    {
        let mut k: usize = 0;
        while k < self.roots.len()
            invariant
                k <= self.roots@.len(),
                self.roots@ == old(self).roots@,
                self.pass_items@ == old(self).pass_items@,
                self.graph@ == old(self).graph@,
                old(self).roots@.len() == old(self).pass_items@.len(),
                forall|i: int| 0 <= i < old(self).roots@.len() ==> (#[trigger] old(self).roots@[i]).1 == i,
                forall|i: int, j: int|
                    0 <= i < old(self).roots@.len() && 0 <= j < old(self).roots@.len() && i != j ==> (
                    #[trigger] old(self).roots@[i]).0@ != (#[trigger] old(self).roots@[j]).0@,
                forall|i: int| 0 <= i < k ==> (#[trigger] self.roots@[i]).0@ != name@,
            decreases self.roots@.len() - k,
        {
            if self.roots[k].0 == *name {
                proof {
                    assert(self.pass_names()[k as int] == name@);
                }
                return self.roots[k].1;
            }
            k = k + 1;
        }
        proof {
            assert forall|i: int| 0 <= i < self.pass_names().len() implies self.pass_names()[i] != name@ by {
                let _ = self.roots@[i];
            }
        }
        let new_id = self.pass_items.len();
        self.pass_items.push(Vec::new());
        self.roots.push((name.clone(), new_id));
        proof {
            assert(self.pass_names() =~= old(self).pass_names().push(name@));
            assert(self.pass_items@.drop_last() =~= old(self).pass_items@);
        }
        new_id
    }

    /// Sorts the items of `graph` into the buckets of their passes: each
    /// pass not seen before gets a new bucket, in the order the roots name
    /// them, and the items are added last root first. The graph must hold
    /// at least one item.
    pub fn merge_graph(&mut self, graph: RenderGraph)
        requires
            old(self).wf(),
            graph.wf(),
            graph.items().len() > 0,
        ensures
            final(self).wf(),
            final(self).pass_names() == names_after(old(self).pass_names(), graph.items()),
            final(self).buckets().len() == final(self).pass_names().len(),
            forall|b: int|
                0 <= b < final(self).buckets().len() ==> #[trigger] final(self).buckets()[b] == (if b
                    < old(self).buckets().len() {
                    old(self).buckets()[b]
                } else {
                    Seq::<RenderItem>::empty()
                }) + items_of_pass(graph.items(), final(self).pass_names()[b], 0),
        total_items(final(self).buckets()) == total_items(old(self).buckets()) + graph.items().len(),
    {
        let ghost items = graph.items@;
        let ghost n = items.len();
        let ghost old_names = self.pass_names();
        let ghost old_buckets = self.buckets();
        let ghost old_pass_items = self.pass_items@;
        // Give each root the bucket of its pass.
        let mut job_root_ids: Vec<RenderNodeId> = Vec::new();
        let mut r: usize = 0;
        while r < graph.roots.len()
            invariant
                graph.wf(),
                items == graph.items@,
                r <= graph.roots@.len(),
                job_root_ids@.len() == r,
                self.graph@.len() == 0,
                self.roots@.len() == self.pass_items@.len(),
                forall|i: int| 0 <= i < self.roots@.len() ==> (#[trigger] self.roots@[i]).1 == i,
                forall|i: int, j: int|
                    0 <= i < self.roots@.len() && 0 <= j < self.roots@.len() && i != j ==> (
                    #[trigger] self.roots@[i]).0@ != (#[trigger] self.roots@[j]).0@,
                self.pass_names() == names_after(old_names, items.take(r as int)),
                self.pass_items@.len() >= old_pass_items.len(),
                forall|b: int| 0 <= b < old_pass_items.len() ==> #[trigger] self.pass_items@[b] == old_pass_items[b],
                forall|b: int| old_pass_items.len() <= b < self.pass_items@.len() ==> (#[trigger] self.pass_items@[b])@
                    == Seq::<RenderItem>::empty(),
                forall|i: int| 0 <= i < r ==> #[trigger] job_root_ids@[i] < self.roots@.len()
                    && self.pass_names()[job_root_ids@[i] as int] == items[i].pass(),
            decreases graph.roots@.len() - r,
        {
            let rid = graph.roots[r];
            proof {
                assert(rid == r);
                assert(items.take(r + 1).drop_last() =~= items.take(r as int));
            }
            let pass_name = render_item_pass_name(&graph.items[rid]);
            let ghost before_names = self.pass_names();
            let ghost before_len = self.pass_items@.len();
            let job_id = self.bucket_for(pass_name);
            job_root_ids.push(job_id);
            proof {
                if !before_names.contains(pass_name@) {
                    assert forall|b: int| 0 <= b < before_len implies #[trigger] self.pass_items@[b]
                        == self.pass_items@.drop_last()[b] by {
                    }
                }
                assert forall|b: int| old_pass_items.len() <= b < self.pass_items@.len() implies (#[trigger] self.pass_items@[b])@
                    == Seq::<RenderItem>::empty() by {
                    if b < before_len {
                        if !before_names.contains(pass_name@) {
                            assert(self.pass_items@[b] == self.pass_items@.drop_last()[b]);
                        }
                    }
                }
                assert forall|b: int| 0 <= b < old_pass_items.len() implies #[trigger] self.pass_items@[b]
                    == old_pass_items[b] by {
                    if !before_names.contains(pass_name@) {
                        assert(self.pass_items@[b] == self.pass_items@.drop_last()[b]);
                    }
                }
                assert forall|i: int| 0 <= i < r + 1 implies #[trigger] job_root_ids@[i] < self.roots@.len()
                    && self.pass_names()[job_root_ids@[i] as int] == items[i].pass() by {
                    if i < r {
                        assert(self.pass_names()[job_root_ids@[i] as int] == before_names[job_root_ids@[i] as int]);
                    }
                }
            }
            r = r + 1;
        }
        proof {
            assert(items.take(n as int) =~= items);
        }
        // Pair the roots with their buckets; the last root goes first.
        let mut stack: Vec<(RenderNodeId, RenderNodeId)> = Vec::new();
        let mut s: usize = 0;
        while s < graph.roots.len()
            invariant
                graph.wf(),
                s <= graph.roots@.len(),
                job_root_ids@.len() == graph.roots@.len(),
                stack@.len() == s,
                forall|i: int| 0 <= i < s ==> #[trigger] stack@[i] == (graph.roots@[i], job_root_ids@[i]),
            decreases graph.roots@.len() - s,
        {
            stack.push((graph.roots[s], job_root_ids[s]));
            s = s + 1;
        }
        let max_job_id = stack[stack.len() - 1].1;
        let ghost snap_items = self.pass_items@;
        let ghost snap_roots = self.roots@;
        let ghost snap_graph = self.graph@;
        proof {
            let last = (stack@.len() - 1) as int;
            assert(stack@[last] == (graph.roots@[last], job_root_ids@[last]));
        }
        while self.pass_items.len() < max_job_id
            invariant
                self.pass_items@.len() > max_job_id,
                self.pass_items@ == snap_items,
                self.roots@ == snap_roots,
                self.graph@ == snap_graph,
            decreases max_job_id - self.pass_items@.len(),
        {
            self.pass_items.push(Vec::new());
        }
        let ghost names = self.pass_names();
        let ghost mid_pass_items = self.pass_items@;
        while stack.len() > 0
            invariant
                graph.wf(),
                items == graph.items@,
                n == items.len(),
                job_root_ids@.len() == n,
                stack@.len() <= n,
                forall|i: int| 0 <= i < stack@.len() ==> #[trigger] stack@[i] == (graph.roots@[i], job_root_ids@[i]),
                forall|i: int| 0 <= i < n ==> #[trigger] job_root_ids@[i] < self.roots@.len()
                    && names[job_root_ids@[i] as int] == items[i].pass(),
                self.pass_names() == names,
                self.graph@.len() == 0,
                self.roots@.len() == self.pass_items@.len(),
                self.pass_items@.len() == mid_pass_items.len(),
                forall|i: int| 0 <= i < self.roots@.len() ==> (#[trigger] self.roots@[i]).1 == i,
                forall|i: int, j: int|
                    0 <= i < self.roots@.len() && 0 <= j < self.roots@.len() && i != j ==> (
                    #[trigger] self.roots@[i]).0@ != (#[trigger] self.roots@[j]).0@,
                forall|b: int|
                    0 <= b < self.pass_items@.len() ==> (#[trigger] self.pass_items@[b])@ == mid_pass_items[b]@
                        + items_of_pass(items, names[b], stack@.len() as int),
            decreases stack@.len(),
        {
            let (graph_id, job_id) = stack.pop().unwrap();
            let ghost k = stack@.len() as int;
            proof {
                assert(graph_id == k);
            }
            let item = graph.items[graph_id].duplicate();
            self.pass_items[job_id].push(item);
            // No root has dependent items, so there are no children to add.
            proof {
                assert forall|b: int|
                    0 <= b < self.pass_items@.len() implies (#[trigger] self.pass_items@[b])@ == mid_pass_items[b]@
                        + items_of_pass(items, names[b], k) by {
                    if b == job_id {
                        assert(items[k].pass() == names[b]);
                    } else {
                        if items[k].pass() == names[b] {
                            assert(self.roots@[b].0@ != self.roots@[job_id as int].0@);
                        }
                    }
                }
            }
        }
        proof {
            assert forall|b: int| 0 <= b < self.buckets().len() implies #[trigger] self.buckets()[b] == (if b
                < old_buckets.len() {
                old_buckets[b]
            } else {
                Seq::<RenderItem>::empty()
            }) + items_of_pass(items, self.pass_names()[b], 0) by {
                assert(self.buckets()[b] == self.pass_items@[b]@);
                if b < old_buckets.len() {
                    assert(old_buckets[b] == old_pass_items[b]@);
                }
            }
            assert forall|b: int| 0 <= b < old_pass_items.len() implies (#[trigger] old_pass_items[b])@.len() > 0 by {
                assert(old(self).pass_items@[b] == old_pass_items[b]);
            }
            assert forall|b: int, k: int|
                0 <= b < old_pass_items.len() && 0 <= k < old_pass_items[b]@.len() implies (
                #[trigger] old_pass_items[b]@[k]).pass() == old_names[b] by {
                assert(old(self).pass_items@[b] == old_pass_items[b]);
                assert(old_names[b] == old(self).roots@[b].0@);
            }
            self.lemma_buckets_nonempty(items, old_names, old_pass_items, names, mid_pass_items);
            lemma_total_split(self.buckets(), old_buckets, items, self.pass_names());
            lemma_names_after_cover(old_names, items);
            assert forall|i: int, j: int|
                0 <= i < self.pass_names().len() && 0 <= j < self.pass_names().len() && i != j implies self.pass_names()[i]
                    != self.pass_names()[j] by {
                assert(self.roots@[i].0@ != self.roots@[j].0@);
            }
            lemma_pass_counts_all(items, self.pass_names(), 0);
        }
    }

    proof fn lemma_buckets_nonempty(
        &self,
        items: Seq<RenderItem>,
        old_names: Seq<Seq<char>>,
        old_pass_items: Seq<Vec<RenderItem>>,
        names: Seq<Seq<char>>,
        mid_pass_items: Seq<Vec<RenderItem>>,
    )
        requires
            names == names_after(old_names, items),
            old_names.len() == old_pass_items.len(),
            self.pass_names() == names,
            self.roots@.len() == self.pass_items@.len(),
            mid_pass_items.len() == self.pass_items@.len(),
            forall|b: int| 0 <= b < old_pass_items.len() ==> #[trigger] mid_pass_items[b] == old_pass_items[b],
            forall|b: int| old_pass_items.len() <= b < mid_pass_items.len() ==> (#[trigger] mid_pass_items[b])@
                == Seq::<RenderItem>::empty(),
            forall|b: int| 0 <= b < old_pass_items.len() ==> (#[trigger] old_pass_items[b])@.len() > 0,
            forall|b: int, k: int|
                0 <= b < old_pass_items.len() && 0 <= k < old_pass_items[b]@.len() ==> (
                #[trigger] old_pass_items[b]@[k]).pass() == old_names[b],
            forall|b: int|
                0 <= b < self.pass_items@.len() ==> (#[trigger] self.pass_items@[b])@ == mid_pass_items[b]@
                    + items_of_pass(items, names[b], 0),
        ensures
            forall|i: int| 0 <= i < self.pass_items@.len() ==> (#[trigger] self.pass_items@[i])@.len() > 0,
            forall|i: int, k: int|
                0 <= i < self.pass_items@.len() && 0 <= k < self.pass_items@[i]@.len() ==> (
                #[trigger] self.pass_items@[i]@[k]).pass() == self.roots@[i].0@,
    {
        lemma_names_after(old_names, items);
        assert forall|i: int| 0 <= i < self.pass_items@.len() implies (#[trigger] self.pass_items@[i])@.len() > 0 by {
            if i >= old_pass_items.len() {
                let k = choose|k: int| 0 <= k < items.len() && items[k].pass() == names[i];
                lemma_items_of_pass_has(items, names[i], 0, k);
            }
        }
        assert forall|i: int, k: int|
            0 <= i < self.pass_items@.len() && 0 <= k < self.pass_items@[i]@.len() implies (
            #[trigger] self.pass_items@[i]@[k]).pass() == self.roots@[i].0@ by {
            assert(self.pass_names()[i] == self.roots@[i].0@);
            lemma_items_of_pass_all(items, names[i], 0);
            let m = mid_pass_items[i]@;
            if k < m.len() {
                assert(self.pass_items@[i]@[k] == m[k]);
            } else {
                assert(self.pass_items@[i]@[k] == items_of_pass(items, names[i], 0)[k - m.len()]);
            }
        }
    }

    /// Visits the buckets in breadth-first order from the buckets of the
    /// passes (there are no links between buckets, so each bucket once, in
    /// the order the passes appeared).
    pub fn iter_bfs(&self) -> (it: Iter)
        requires
            self.wf(),
        ensures
            self.buckets().len() == self.pass_names().len(),
            it.order().len() == self.pass_names().len(),
            forall|i: int|
                0 <= i < it.order().len() ==> (#[trigger] it.order()[i]).1 == i && it.order()[i].0
                    == self.pass_names()[i],
            it.position() == 0,
            it.job() == self,
    {
        let mut res: Vec<(String, RenderNodeId)> = Vec::new();
        let mut processed: Vec<bool> = Vec::new();
        let mut p: usize = 0;
        while p < self.pass_items.len()
            invariant
                p <= self.pass_items@.len(),
                processed@.len() == p,
                forall|i: int| 0 <= i < p ==> !(#[trigger] processed@[i]),
            decreases self.pass_items@.len() - p,
        {
            processed.push(false);
            p = p + 1;
        }
        let mut queue: Vec<RenderNodeId> = Vec::new();
        let mut q: usize = 0;
        while q < self.roots.len()
            invariant
                q <= self.roots@.len(),
                queue@.len() == q,
                forall|i: int| 0 <= i < q ==> #[trigger] queue@[i] == self.roots@[i].1,
            decreases self.roots@.len() - q,
        {
            queue.push(self.roots[q].1);
            q = q + 1;
        }
        let mut front: usize = 0;
        while front < queue.len()
            invariant
                self.wf(),
                front <= queue@.len(),
                queue@.len() == self.roots@.len(),
                processed@.len() == self.pass_items@.len(),
                forall|i: int| 0 <= i < queue@.len() ==> #[trigger] queue@[i] == i,
                forall|i: int| 0 <= i < processed@.len() ==> (#[trigger] processed@[i] <==> i < front),
                res@.len() == front,
                forall|i: int|
                    0 <= i < front ==> (#[trigger] res@[i]).1 == i && res@[i].0@ == self.pass_names()[i],
            decreases queue@.len() - front,
        {
            let cur_id = queue[front];
            front = front + 1;
            if processed[cur_id] {
                continue;
            }
            let cur_items = &self.pass_items[cur_id];
            let first = &cur_items[0];
            let pass_name = render_item_pass_name(first);
            res.push((pass_name.clone(), cur_id));
            processed.set(cur_id, true);
            // No bucket links to another, so nothing more joins the queue.
        }
        Iter { node_ids: res, job: self, cur_idx: 0 }
    }
}

impl<'a> Iter<'a> {
    /// The pass names and bucket ids, in visiting order.
    pub closed spec fn order(&self) -> Seq<(Seq<char>, RenderNodeId)> {
        Seq::new(self.node_ids@.len(), |i: int| (self.node_ids@[i].0@, self.node_ids@[i].1))
    }

    /// How many buckets were handed out.
    pub closed spec fn position(&self) -> nat {
        self.cur_idx as nat
    }

    /// The job whose buckets are visited.
    pub closed spec fn job(&self) -> &'a RenderJob {
        self.job
    }

    /// The next bucket: its pass name and its items.
    pub fn next(&mut self) -> (r: Option<(&'a String, &'a [RenderItem])>)
        requires
            old(self).job().wf(),
            forall|i: int| 0 <= i < old(self).order().len() ==> (#[trigger] old(self).order()[i]).1 < old(
                self,
            ).job().buckets().len() && old(self).order()[i].0 == old(self).job().pass_names()[old(self).order()[i].1 as int],
        ensures
            final(self).order() == old(self).order(),
            final(self).job() == old(self).job(),
            old(self).position() < old(self).order().len() ==> final(self).position() == old(self).position() + 1
                && r is Some,
            r matches Some(p) ==> (p.0@ == old(self).order()[old(self).position() as int].0
                && p.1@ == old(self).job().buckets()[old(self).order()[old(self).position() as int].1 as int]),
            r matches Some(p) ==> p.1@.len() > 0 && forall|k: int| 0 <= k < p.1@.len() ==> (#[trigger] p.1@[k]).pass()
                == p.0@,
            old(self).position() >= old(self).order().len() ==> r is None && final(self).position() == old(
                self,
            ).position(),
    {
        if self.cur_idx < self.node_ids.len() {
            let i = self.node_ids[self.cur_idx].1;
            proof {
                assert(self.order()[self.cur_idx as int].1 == i);
            }
            let job: &'a RenderJob = self.job;
            let name: &'a String = &job.roots[i].0;
            let items: &'a [RenderItem] = job.pass_items[i].as_slice();
            self.cur_idx = self.cur_idx + 1;
            Some((name, items))
        } else {
            None
        }
    }
}

/// Merging keeps the names already there, and each name it adds is the
/// pass of one of the items.
pub proof fn lemma_names_after(names: Seq<Seq<char>>, items: Seq<RenderItem>)
    ensures
        names_after(names, items).len() >= names.len(),
        forall|b: int| 0 <= b < names.len() ==> #[trigger] names_after(names, items)[b] == names[b],
        forall|b: int|
            names.len() <= b < names_after(names, items).len() ==> exists|k: int|
                0 <= k < items.len() && items[k].pass() == #[trigger] names_after(names, items)[b],
    decreases items.len(),
{
    if items.len() > 0 {
        let d = items.drop_last();
        lemma_names_after(names, d);
        let prev = names_after(names, d);
        assert forall|b: int|
            names.len() <= b < names_after(names, items).len() implies exists|k: int|
                0 <= k < items.len() && items[k].pass() == #[trigger] names_after(names, items)[b] by {
            if b < prev.len() {
                let k = choose|k: int| 0 <= k < d.len() && d[k].pass() == prev[b];
                assert(items[k] == d[k]);
            } else {
                assert(items[items.len() - 1].pass() == names_after(names, items)[b]);
            }
        }
    }
}

/// An item at or after `k` with pass `name` puts something in the list.
pub proof fn lemma_items_of_pass_has(items: Seq<RenderItem>, name: Seq<char>, k: int, j: int)
    requires
        0 <= k <= j < items.len(),
        items[j].pass() == name,
    ensures
        items_of_pass(items, name, k).len() > 0,
    decreases j - k,
{
    if k < j {
        lemma_items_of_pass_has(items, name, k + 1, j);
    }
}

/// Every item in the list has pass `name`.
pub proof fn lemma_items_of_pass_all(items: Seq<RenderItem>, name: Seq<char>, k: int)
    ensures
        forall|i: int|
            0 <= i < items_of_pass(items, name, k).len() ==> (#[trigger] items_of_pass(items, name, k)[i]).pass()
                == name,
    decreases items.len() - k,
{
    if 0 <= k < items.len() {
        lemma_items_of_pass_all(items, name, k + 1);
        let rest = items_of_pass(items, name, k + 1);
        assert forall|i: int|
            0 <= i < items_of_pass(items, name, k).len() implies (#[trigger] items_of_pass(items, name, k)[i]).pass()
                == name by {
            if i < rest.len() {
                assert(items_of_pass(items, name, k)[i] == rest[i]);
            }
        }
    }
}

} // verus!
