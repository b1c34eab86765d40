//! The graph of operators: an append-only arena in which a node is known
//! by its position. A node reads only nodes that were made before it, so
//! the graph cannot hold a cycle.
use crate::ast::{Column, ColumnSpecView, ColumnSpecification, ColumnView};
use crate::node::{FlowNode, MirNode, MirNodeRef, MirNodeType, MirNodeTypeView, MirNodeView};
use vstd::prelude::*;

verus! {

/// Whether `n`, if it is a Reuse node, has the name and the columns of its
/// target in the graph `g`.
pub open spec fn reuse_fits(g: Seq<MirNodeView>, n: MirNodeView) -> bool {
    match n.inner {
        MirNodeTypeView::Reuse { node } => node < g.len() && n.name == g[node as int].name
            && n.columns == g[node as int].columns,
        _ => true,
    }
}

/// A graph is valid when each node refers only to nodes numbered below
/// it, obeys the rules of its kind and, if it is a Reuse node, has the
/// name and the columns of its target.
pub open spec fn graph_ok(g: Seq<MirNodeView>) -> bool {
    forall|i: int|
        0 <= i < g.len() ==> (#[trigger] g[i]).refers_below(i) && g[i].well_shaped()
            && reuse_fits(g, g[i])
}

/// The Reuse node that stands for node `target` at schema version
/// `version`: same name and columns, no ancestors.
pub open spec fn reuse_of(g: Seq<MirNodeView>, target: usize, version: usize) -> MirNodeView {
    MirNodeView::fresh(
        g[target as int].name,
        version,
        g[target as int].columns,
        MirNodeTypeView::Reuse { node: target },
        Seq::empty(),
    )
}

/// Whether some node of the graph reads node `id`.
pub open spec fn has_child(g: Seq<MirNodeView>, id: usize) -> bool {
    exists|j: int| 0 <= j < g.len() && #[trigger] g[j].ancestors.contains(id)
}

/// The nodes among the first `n` that read node `id`, in the order of
/// their creation.
pub open spec fn children_among(g: Seq<MirNodeView>, id: usize, n: int) -> Seq<usize>
    decreases n,
{
    if n <= 0 {
        Seq::empty()
    } else if g[n - 1].ancestors.contains(id) {
        children_among(g, id, n - 1).push((n - 1) as usize)
    } else {
        children_among(g, id, n - 1)
    }
}

/// The children of node `id`: the nodes that read it, in the order of
/// their creation.
pub open spec fn children_of(g: Seq<MirNodeView>, id: usize) -> Seq<usize> {
    children_among(g, id, g.len() as int)
}

/// Whether `cc` answers to the reference `c` on an operator that is not a
/// base table: the names agree, and so do the tables unless `c` names none.
pub open spec fn answers_to(cc: ColumnView, c: ColumnView) -> bool {
    cc.name == c.name && (cc.table == c.table || c.table is None)
}

/// Position of the first of `cols` that answers to `c`.
pub open spec fn first_answering(cols: Seq<ColumnView>, c: ColumnView) -> Option<usize>
    decreases cols.len(),
{
    if cols.len() == 0 {
        None
    } else {
        match first_answering(cols.drop_last(), c) {
            Some(p) => Some(p),
            None => if answers_to(cols.last(), c) {
                Some((cols.len() - 1) as usize)
            } else {
                None
            },
        }
    }
}

/// Position of the last declaration of `specs` whose column is the same
/// column as `c`.
pub open spec fn last_declaring(specs: Seq<ColumnSpecView>, c: ColumnView) -> Option<usize>
    decreases specs.len(),
{
    if specs.len() == 0 {
        None
    } else if specs.last().column.same(c) {
        Some((specs.len() - 1) as usize)
    } else {
        last_declaring(specs.drop_last(), c)
    }
}

/// The position at which node `id` holds column `c`. A base table answers
/// with the last declaration of the column, a Reuse node with what its
/// target answers, any other node with the first of its columns that
/// answers to `c`.
pub open spec fn column_id(g: Seq<MirNodeView>, id: usize, c: ColumnView) -> Option<usize>
    decreases id,
{
    if id >= g.len() {
        None
    } else {
        match g[id as int].inner {
            MirNodeTypeView::Base { column_specs, .. } => last_declaring(column_specs, c),
            MirNodeTypeView::Reuse { node } => if node < id {
                column_id(g, node, c)
            } else {
                None
            },
            _ => first_answering(g[id as int].columns, c),
        }
    }
}

/// The positions at which node `id` holds each of `cols`, if it holds
/// them all.
pub open spec fn column_ids(g: Seq<MirNodeView>, id: usize, cols: Seq<ColumnView>) -> Option<
    Seq<usize>,
>
    decreases cols.len(),
{
    if cols.len() == 0 {
        Some(Seq::empty())
    } else {
        match (column_ids(g, id, cols.drop_last()), column_id(g, id, cols.last())) {
            (Some(ids), Some(p)) => Some(ids.push(p)),
            _ => None,
        }
    }
}

/// If a prefix of `cols` is not held in full, neither is `cols`.
pub proof fn lemma_column_ids_none(g: Seq<MirNodeView>, id: usize, cols: Seq<ColumnView>, k: int)
    requires
        0 <= k <= cols.len(),
        column_ids(g, id, cols.take(k)) is None,
    ensures
        column_ids(g, id, cols) is None,
    decreases cols.len() - k,
{
    if k < cols.len() {
        assert(cols.take(k + 1).drop_last() =~= cols.take(k));
        lemma_column_ids_none(g, id, cols, k + 1);
    } else {
        assert(cols.take(k) =~= cols);
    }
}

/// As many positions are found as there are columns.
pub proof fn lemma_column_ids_len(g: Seq<MirNodeView>, id: usize, cols: Seq<ColumnView>)
    ensures
        column_ids(g, id, cols) is Some ==> column_ids(g, id, cols)->0.len() == cols.len(),
    decreases cols.len(),
{
    if cols.len() > 0 {
        lemma_column_ids_len(g, id, cols.drop_last());
    }
}

/// A declaration of the column is found among the declarations.
pub proof fn lemma_last_declaring_some(specs: Seq<ColumnSpecView>, c: ColumnView, i: int)
    requires
        0 <= i < specs.len(),
        specs[i].column.same(c),
    ensures
        last_declaring(specs, c) is Some,
    decreases specs.len(),
{
    if !specs.last().column.same(c) {
        assert(specs.drop_last()[i] == specs[i]);
        lemma_last_declaring_some(specs.drop_last(), c, i);
    }
}

/// A column that answers is found among the columns.
pub proof fn lemma_first_answering_some(cols: Seq<ColumnView>, c: ColumnView, i: int)
    requires
        0 <= i < cols.len(),
        answers_to(cols[i], c),
    ensures
        first_answering(cols, c) is Some,
    decreases cols.len(),
{
    if i < cols.len() - 1 {
        assert(cols.drop_last()[i] == cols[i]);
        lemma_first_answering_some(cols.drop_last(), c, i);
    }
}

/// In a valid graph every node holds each of its own columns.
pub proof fn lemma_own_column_found(g: Seq<MirNodeView>, id: usize, k: int)
    requires
        graph_ok(g),
        id < g.len(),
        0 <= k < g[id as int].columns.len(),
    ensures
        column_id(g, id, g[id as int].columns[k]) is Some,
    decreases id,
{
    let n = g[id as int];
    assert(n.well_shaped() && n.refers_below(id as int) && reuse_fits(g, n));
    match n.inner {
        MirNodeTypeView::Base { column_specs, .. } => {
            assert(n.columns[k] == column_specs[k].column);
            lemma_last_declaring_some(column_specs, n.columns[k], k);
        },
        MirNodeTypeView::Reuse { node } => {
            lemma_own_column_found(g, node, k);
        },
        _ => {
            lemma_first_answering_some(n.columns, n.columns[k], k);
        },
    }
}

/// In a valid graph every node holds all of its own columns.
pub proof fn lemma_own_columns_found(g: Seq<MirNodeView>, id: usize, n: int)
    requires
        graph_ok(g),
        id < g.len(),
        0 <= n <= g[id as int].columns.len(),
    ensures
        column_ids(g, id, g[id as int].columns.take(n)) is Some,
    decreases n,
{
    if n > 0 {
        let cols = g[id as int].columns;
        lemma_own_columns_found(g, id, n - 1);
        assert(cols.take(n).drop_last() =~= cols.take(n - 1));
        assert(cols.take(n).last() == cols[n - 1]);
        lemma_own_column_found(g, id, n - 1);
    }
}

/// Whether the columns of every node can be counted by a machine word.
pub open spec fn widths_fit(g: Seq<MirNodeView>) -> bool {
    forall|i: int| 0 <= i < g.len() ==> (#[trigger] g[i]).columns.len() <= usize::MAX
}

/// The declaration that is found lies among the declarations.
pub proof fn lemma_last_declaring_bound(specs: Seq<ColumnSpecView>, c: ColumnView)
    requires
        specs.len() <= usize::MAX,
    ensures
        last_declaring(specs, c) is Some ==> last_declaring(specs, c)->0 < specs.len(),
    decreases specs.len(),
{
    if specs.len() > 0 && !specs.last().column.same(c) {
        lemma_last_declaring_bound(specs.drop_last(), c);
    }
}

/// The column that is found lies among the columns.
pub proof fn lemma_first_answering_bound(cols: Seq<ColumnView>, c: ColumnView)
    requires
        cols.len() <= usize::MAX,
    ensures
        first_answering(cols, c) is Some ==> first_answering(cols, c)->0 < cols.len(),
    decreases cols.len(),
{
    if cols.len() > 0 {
        lemma_first_answering_bound(cols.drop_last(), c);
    }
}

/// In a valid graph the position at which a node holds a column is a
/// position of its columns.
pub proof fn lemma_column_id_bound(g: Seq<MirNodeView>, id: usize, c: ColumnView)
    requires
        graph_ok(g),
        widths_fit(g),
        column_id(g, id, c) is Some,
    ensures
        id < g.len(),
        column_id(g, id, c)->0 < g[id as int].columns.len(),
    decreases id,
{
    let n = g[id as int];
    assert(n.well_shaped() && reuse_fits(g, n));
    match n.inner {
        MirNodeTypeView::Base { column_specs, .. } => {
            assert(n.columns.len() == column_specs.len());
            lemma_last_declaring_bound(column_specs, c);
        },
        MirNodeTypeView::Reuse { node } => {
            lemma_column_id_bound(g, node, c);
        },
        _ => {
            lemma_first_answering_bound(n.columns, c);
        },
    }
}

/// In a valid graph the positions at which a node holds columns are
/// positions of its columns.
pub proof fn lemma_column_ids_bound(g: Seq<MirNodeView>, id: usize, cols: Seq<ColumnView>, k: int)
    requires
        graph_ok(g),
        widths_fit(g),
        column_ids(g, id, cols) is Some,
        0 <= k < cols.len(),
    ensures
        id < g.len(),
        column_ids(g, id, cols)->0.len() == cols.len(),
        column_ids(g, id, cols)->0[k] < g[id as int].columns.len(),
    decreases cols.len(),
{
    lemma_column_ids_len(g, id, cols);
    if k < cols.len() - 1 {
        lemma_column_ids_bound(g, id, cols.drop_last(), k);
    } else {
        lemma_column_id_bound(g, id, cols.last());
    }
}

/// The arena of nodes.
#[derive(Debug)]
pub struct MirGraph {
    pub nodes: Vec<MirNode>,
}

impl View for MirGraph {
    type V = Seq<MirNodeView>;

    open spec fn view(&self) -> Seq<MirNodeView> {
        self.nodes.deep_view()
    }
}

/// A copy of a column list.
pub fn clone_columns(v: &Vec<Column>) -> (r: Vec<Column>)
    ensures
        r.deep_view() == v.deep_view(),
{
    let r = v.clone();
    assert(r.deep_view() =~= v.deep_view());
    r
}

impl MirGraph {
    /// The empty graph.
    pub fn new() -> (r: MirGraph)
        ensures
            r@ == Seq::<MirNodeView>::empty(),
            graph_ok(r@),
    {
        let r = MirGraph { nodes: Vec::new() };
        assert(r@ =~= Seq::<MirNodeView>::empty());
        r
    }

    /// The number of nodes.
    pub fn len(&self) -> (r: usize)
        ensures
            r == self@.len(),
    {
        self.nodes.len()
    }

    /// The node behind a handle.
    pub(crate) fn node(&self, id: MirNodeRef) -> (r: &MirNode)
        requires
            id < self@.len(),
        ensures
            r.deep_view() == self@[id as int],
    {
        &self.nodes[id]
    }

    /// Appends a node and hands out its handle.
    pub(crate) fn add_node(&mut self, node: MirNode) -> (id: MirNodeRef)
        requires
            graph_ok(old(self)@),
            node.deep_view().refers_below(old(self)@.len() as int),
            node.deep_view().well_shaped(),
            reuse_fits(old(self)@, node.deep_view()),
        ensures
            id == old(self)@.len(),
            final(self)@ == old(self)@.push(node.deep_view()),
            graph_ok(final(self)@),
    {
        let id = self.nodes.len();
        let ghost before = self@;
        self.nodes.push(node);
        assert(self@ =~= before.push(node.deep_view()));
        assert forall|i: int| 0 <= i < self@.len() implies (#[trigger] self@[i]).refers_below(i)
            && self@[i].well_shaped() && reuse_fits(self@, self@[i]) by {
            if i < before.len() {
                assert(self@[i] == before[i]);
                assert(before[i].refers_below(i) && reuse_fits(before, before[i]));
            }
        }
        id
    }

    /// Appends a Reuse node that stands for `target` at `version`.
    pub(crate) fn reuse(&mut self, target: MirNodeRef, version: usize) -> (id: MirNodeRef)
        requires
            graph_ok(old(self)@),
            target < old(self)@.len(),
        ensures
            id == old(self)@.len(),
            final(self)@ == old(self)@.push(reuse_of(old(self)@, target, version)),
            graph_ok(final(self)@),
    {
        let name = self.nodes[target].name.clone();
        let columns = clone_columns(&self.nodes[target].columns);
        let node = MirNode {
            name,
            from_version: version,
            columns,
            inner: MirNodeType::Reuse { node: target },
            ancestors: Vec::new(),
            flow_node: None,
        };
        assert(node.deep_view() == reuse_of(self@, target, version)) by {
            assert(node.ancestors@ =~= Seq::<usize>::empty());
        }
        self.add_node(node)
    }

    /// Drops the nodes from position `len` on.
    pub(crate) fn truncate(&mut self, len: usize)
        requires
            graph_ok(old(self)@),
            len <= old(self)@.len(),
        ensures
            final(self)@ == old(self)@.take(len as int),
            graph_ok(final(self)@),
    {
        let ghost before = self@;
        self.nodes.truncate(len);
        assert(self@ =~= before.take(len as int));
        assert forall|i: int| 0 <= i < self@.len() implies (#[trigger] self@[i]).refers_below(i)
            && self@[i].well_shaped() && reuse_fits(self@, self@[i]) by {
            assert(self@[i] == before[i]);
            assert(before[i].refers_below(i) && reuse_fits(before, before[i]));
        }
    }

    /// Records the address that the physical dataflow gave to node `id`.
    pub(crate) fn set_flow_node(&mut self, id: MirNodeRef, flow_node: FlowNode)
        requires
            graph_ok(old(self)@),
            id < old(self)@.len(),
        ensures
            final(self)@ == old(self)@.update(
                id as int,
                MirNodeView { flow_node: Some(flow_node), ..old(self)@[id as int] },
            ),
            graph_ok(final(self)@),
    {
        let ghost before = self@;
        let mut node = self.nodes.remove(id);
        node.flow_node = Some(flow_node);
        let ghost after = node.deep_view();
        self.nodes.insert(id, node);
        assert(self@ =~= before.update(id as int, after));
        assert(after == (MirNodeView { flow_node: Some(flow_node), ..before[id as int] }));
        assert forall|i: int| 0 <= i < self@.len() implies (#[trigger] self@[i]).refers_below(i)
            && self@[i].well_shaped() && reuse_fits(self@, self@[i]) by {
            assert(before[i].refers_below(i) && before[i].well_shaped() && reuse_fits(
                before,
                before[i],
            ));
        }
    }

    /// Whether some node reads node `id`.
    pub fn has_children(&self, id: MirNodeRef) -> (r: bool)
        ensures
            r == has_child(self@, id),
    {
        let mut j: usize = 0;
        while j < self.nodes.len()
            invariant
                j <= self.nodes.len(),
                forall|k: int| 0 <= k < j ==> !#[trigger] self@[k].ancestors.contains(id),
            decreases self.nodes.len() - j,
        {
            if contains_ref(&self.nodes[j].ancestors, id) {
                assert(self@[j as int].ancestors.contains(id));
                return true;
            }
            j += 1;
        }
        false
    }

    /// The nodes that read node `id`, in the order of their creation.
    pub fn children(&self, id: MirNodeRef) -> (r: Vec<MirNodeRef>)
        ensures
            r@ == children_of(self@, id),
    {
        let mut out: Vec<MirNodeRef> = Vec::new();
        let mut j: usize = 0;
        while j < self.nodes.len()
            invariant
                j <= self.nodes.len(),
                out@ == children_among(self@, id, j as int),
            decreases self.nodes.len() - j,
        {
            if contains_ref(&self.nodes[j].ancestors, id) {
                out.push(j);
            }
            j += 1;
        }
        out
    }

    /// The position at which node `id` holds column `c`, if it does.
    pub fn column_id_for_column(&self, id: MirNodeRef, c: &Column) -> (r: Option<usize>)
        ensures
            r == column_id(self@, id, c.deep_view()),
            r is Some ==> id < self@.len() && r->0 < usize::MAX,
    {
        let mut cur = id;
        loop
            invariant
                column_id(self@, cur, c.deep_view()) == column_id(self@, id, c.deep_view()),
                cur <= id,
            decreases cur,
        {
            if cur >= self.nodes.len() {
                return None;
            }
            match &self.nodes[cur].inner {
                MirNodeType::Base { column_specs, .. } => {
                    return last_declaring_spec(column_specs, c);
                },
                MirNodeType::Reuse { node } => {
                    if *node < cur {
                        cur = *node;
                    } else {
                        return None;
                    }
                },
                _ => {
                    return first_answering_column(&self.nodes[cur].columns, c);
                },
            }
        }
    }

    /// The positions at which node `id` holds each of `cols`, if it holds
    /// them all.
    pub fn column_ids_for(&self, id: MirNodeRef, cols: &Vec<Column>) -> (r: Option<Vec<usize>>)
        ensures
            match r {
                Some(ids) => {
                    &&& column_ids(self@, id, cols.deep_view()) == Some(ids@)
                    &&& ids.len() == cols.len()
                    &&& forall|k: int| 0 <= k < ids.len() ==> ids[k] < usize::MAX
                },
                None => column_ids(self@, id, cols.deep_view()) is None,
            },
    {
        let mut out: Vec<usize> = Vec::new();
        let mut i: usize = 0;
        assert(cols.deep_view().take(0) =~= Seq::empty());
        while i < cols.len()
            invariant
                i <= cols.len(),
                column_ids(self@, id, cols.deep_view().take(i as int)) == Some(out@),
                out.len() == i,
                forall|k: int| 0 <= k < out.len() ==> out[k] < usize::MAX,
            decreases cols.len() - i,
        {
            proof {
                let t = cols.deep_view().take(i + 1);
                assert(t.drop_last() =~= cols.deep_view().take(i as int));
                assert(t.last() == cols[i as int].deep_view());
            }
            match self.column_id_for_column(id, &cols[i]) {
                Some(p) => {
                    out.push(p);
                },
                None => {
                    proof {
                        lemma_column_ids_none(self@, id, cols.deep_view(), i + 1);
                    }
                    return None;
                },
            }
            i += 1;
        }
        assert(cols.deep_view().take(cols.len() as int) =~= cols.deep_view());
        Some(out)
    }
}

/// Whether `refs` holds `id`.
pub fn contains_ref(refs: &Vec<MirNodeRef>, id: MirNodeRef) -> (r: bool)
    ensures
        r == refs@.contains(id),
{
    let mut i: usize = 0;
    while i < refs.len()
        invariant
            i <= refs.len(),
            forall|k: int| 0 <= k < i ==> refs@[k] != id,
        decreases refs.len() - i,
    {
        if refs[i] == id {
            return true;
        }
        i += 1;
    }
    false
}

/// Position of the last declaration of `specs` whose column is the same
/// column as `c`.
pub fn last_declaring_spec(specs: &Vec<ColumnSpecification>, c: &Column) -> (r: Option<usize>)
    ensures
        r == last_declaring(specs.deep_view(), c.deep_view()),
        r is Some ==> r->0 < specs.len(),
{
    let mut i = specs.len();
    assert(specs.deep_view().take(i as int) =~= specs.deep_view());
    while i > 0
        invariant
            i <= specs.len(),
            last_declaring(specs.deep_view(), c.deep_view()) == last_declaring(
                specs.deep_view().take(i as int),
                c.deep_view(),
            ),
        decreases i,
    {
        proof {
            let t = specs.deep_view().take(i as int);
            assert(t.drop_last() =~= specs.deep_view().take(i - 1));
            assert(t.last() == specs[i - 1].deep_view());
        }
        if specs[i - 1].column.same_as(c) {
            return Some(i - 1);
        }
        i -= 1;
    }
    None
}

/// Position of the first of `cols` that answers to `c`.
pub fn first_answering_column(cols: &Vec<Column>, c: &Column) -> (r: Option<usize>)
    ensures
        r == first_answering(cols.deep_view(), c.deep_view()),
        r is Some ==> r->0 < cols.len(),
{
    let mut i: usize = 0;
    assert(cols.deep_view().take(0) =~= Seq::empty());
    while i < cols.len()
        invariant
            i <= cols.len(),
            first_answering(cols.deep_view().take(i as int), c.deep_view()) is None,
        decreases cols.len() - i,
    {
        proof {
            let t = cols.deep_view().take(i + 1);
            assert(t.drop_last() =~= cols.deep_view().take(i as int));
            assert(t.last() == cols[i as int].deep_view());
        }
        let cc = &cols[i];
        let hit = cc.name == c.name && (crate::ast::opt_string_same(&cc.table, &c.table)
            || c.table.is_none());
        if hit {
            proof {
                lemma_first_answering_found(cols.deep_view(), c.deep_view(), i + 1);
            }
            return Some(i);
        }
        i += 1;
    }
    assert(cols.deep_view().take(cols.len() as int) =~= cols.deep_view());
    None
}

/// What a prefix of `cols` answers, `cols` answers.
pub proof fn lemma_first_answering_found(cols: Seq<ColumnView>, c: ColumnView, k: int)
    requires
        0 <= k <= cols.len(),
        first_answering(cols.take(k), c) is Some,
    ensures
        first_answering(cols, c) == first_answering(cols.take(k), c),
    decreases cols.len() - k,
{
    if k < cols.len() {
        assert(cols.take(k + 1).drop_last() =~= cols.take(k));
        lemma_first_answering_found(cols, c, k + 1);
    } else {
        assert(cols.take(k) =~= cols);
    }
}

} // verus!
