//! What holds of every valid state of a converter and of every query that
//! it hands back.
use crate::ast::{
    schemas_same, specs_contain, ColumnSpecView, ConditionTreeView, ConditionView, Operator,
    TableKeyView,
};
use crate::base::{missing_from, newest_schema, remove_each};
use crate::converter::assoc_get;
use crate::node::{declared_columns, AdaptationView};
use crate::query::MirQueryView;
use crate::ast::{ColumnView, OrderType};
use crate::graph::reuse_of;
use crate::grouping::{computed_columns, AboveGrouped};
use crate::output::{literal_columns, output_nodes};
use crate::query_copy::{
    copies_from, query_copy, query_predicates_from, relation_predicates_from, Copies, CopyResult,
    Walk,
};
use crate::query_graph::{
    computed_columns_name, insert_by_name, order_by_name, relation_index, QueryGraphNodeView,
    QueryGraphView,
};
use crate::security::{security_boundary, Boundary};
use crate::selection::{
    bases_from, finish, front, group_views, predicates_supported, query_name, selection, Front,
};
use crate::universe::universe_suffix;
use crate::value::{DataTypeView, MirError};
use crate::factory::{filter_node, same_base_union_node};
use crate::predicates::{filter_name, logical_nodes, predicate_nodes, union_name};
use crate::converter::{assoc_index, assoc_put, lemma_assoc_index_sound, ConverterView};
use crate::graph::{graph_ok, has_child};
use crate::node::{MirNodeTypeView, MirNodeView};
use vstd::prelude::*;

verus! {

/// Whether a walk from node `from` along ancestors comes to node `to`.
pub open spec fn reaches(g: Seq<MirNodeView>, from: usize, to: usize) -> bool
    decreases from,
{
    from == to || (from < g.len() && exists|k: int|
        0 <= k < g[from as int].ancestors.len() && (#[trigger] g[from as int].ancestors[k]) < from
            && reaches(g, g[from as int].ancestors[k], to))
}

impl MirQueryView {
    /// A query is connected in a graph when its leaf and its roots are
    /// nodes of the graph and a walk from the leaf along ancestors comes
    /// to every root.
    pub open spec fn connected(self, g: Seq<MirNodeView>) -> bool {
        &&& self.leaf < g.len()
        &&& forall|k: int|
            0 <= k < self.roots.len() ==> (#[trigger] self.roots[k]) < g.len() && reaches(
                g,
                self.leaf,
                self.roots[k],
            )
    }

    /// A query is valid in a graph when it is connected and no node reads
    /// its leaf: the leaf is the one end of the query.
    pub open spec fn wf(self, g: Seq<MirNodeView>) -> bool {
        self.connected(g) && !has_child(g, self.leaf)
    }
}

/// No node reads the last node of a valid graph.
pub proof fn lemma_last_has_no_child(g: Seq<MirNodeView>)
    requires
        graph_ok(g),
        0 < g.len() <= usize::MAX,
    ensures
        !has_child(g, (g.len() - 1) as usize),
{
    let last = (g.len() - 1) as usize;
    if has_child(g, last) {
        let j = choose|j: int| 0 <= j < g.len() && #[trigger] g[j].ancestors.contains(last);
        let k = choose|k: int| 0 <= k < g[j].ancestors.len() && g[j].ancestors[k] == last;
        assert(g[j].refers_below(j));
        assert(g[j].ancestors[k] < j);
    }
}

/// A walk that comes to a node comes to every node that this node reads.
pub proof fn lemma_reaches_step(g: Seq<MirNodeView>, from: usize, mid: usize, to: usize)
    requires
        reaches(g, from, mid),
        mid < g.len(),
        g[mid as int].ancestors.contains(to),
        to < mid,
    ensures
        reaches(g, from, to),
    decreases from,
{
    if from == mid {
        let k = choose|k: int| 0 <= k < g[mid as int].ancestors.len() && g[mid as int].ancestors[k]
            == to;
        assert(reaches(g, g[mid as int].ancestors[k], to));
    } else {
        let k = choose|k: int|
            0 <= k < g[from as int].ancestors.len() && (#[trigger] g[from as int].ancestors[k])
                < from && reaches(g, g[from as int].ancestors[k], mid);
        lemma_reaches_step(g, g[from as int].ancestors[k], mid, to);
    }
}

/// Walks along ancestors can be put together.
pub proof fn lemma_reaches_trans(g: Seq<MirNodeView>, a: usize, b: usize, c: usize)
    requires
        reaches(g, a, b),
        reaches(g, b, c),
    ensures
        reaches(g, a, c),
    decreases a,
{
    if a != b {
        let k = choose|k: int|
            0 <= k < g[a as int].ancestors.len() && (#[trigger] g[a as int].ancestors[k]) < a
                && reaches(g, g[a as int].ancestors[k], b);
        lemma_reaches_trans(g, g[a as int].ancestors[k], b, c);
    }
}

/// A walk in a graph is a walk in the graph with nodes appended.
pub proof fn lemma_reaches_grown(g: Seq<MirNodeView>, h: Seq<MirNodeView>, a: usize, b: usize)
    requires
        reaches(g, a, b),
        g.len() <= h.len(),
        forall|i: int| 0 <= i < g.len() ==> g[i] == h[i],
    ensures
        reaches(h, a, b),
    decreases a,
{
    if a != b {
        let k = choose|k: int|
            0 <= k < g[a as int].ancestors.len() && (#[trigger] g[a as int].ancestors[k]) < a
                && reaches(g, g[a as int].ancestors[k], b);
        lemma_reaches_grown(g, h, g[a as int].ancestors[k], b);
        assert(h[a as int] == g[a as int]);
        assert(h[a as int].ancestors[k] < a && reaches(h, h[a as int].ancestors[k], b));
    }
}

/// Where every node from position `start` on but the last is read by some
/// node, a walk from the last node comes to each of them.
pub proof fn lemma_last_reaches_all(g: Seq<MirNodeView>, start: int, i: int)
    requires
        graph_ok(g),
        forall|k: int| start <= k < g.len() - 1 ==> #[trigger] has_child(g, k as usize),
        0 <= start <= i < g.len(),
        g.len() <= usize::MAX,
    ensures
        reaches(g, (g.len() - 1) as usize, i as usize),
    decreases g.len() - i,
{
    let last = (g.len() - 1) as usize;
    if i < g.len() - 1 {
        assert(has_child(g, i as usize));
        let j = choose|j: int| 0 <= j < g.len() && #[trigger] g[j].ancestors.contains(i as usize);
        let k = choose|k: int| 0 <= k < g[j].ancestors.len() && g[j].ancestors[k] == i as usize;
        assert(g[j].refers_below(j));
        assert(g[j].ancestors[k] < j);
        lemma_last_reaches_all(g, start, j);
        lemma_reaches_step(g, last, j as usize, i as usize);
    }
}

/// The graph has no cycle: a node reads only nodes that were made before
/// it.
pub proof fn law_ancestors_precede(c: ConverterView, i: int, k: int)
    requires
        c.wf(),
        0 <= i < c.graph.len(),
        0 <= k < c.graph[i].ancestors.len(),
    ensures
        c.graph[i].ancestors[k] < i,
{
}

/// The graph has no cycle: a walk along ancestors only comes to nodes that
/// were made before its start, so none comes back to its start.
pub proof fn law_acyclic(g: Seq<MirNodeView>, from: usize, to: usize)
    requires
        reaches(g, from, to),
    ensures
        to <= from,
        reaches(g, to, from) ==> from == to,
    decreases from,
{
    if from != to {
        let k = choose|k: int|
            0 <= k < g[from as int].ancestors.len() && (#[trigger] g[from as int].ancestors[k])
                < from && reaches(g, g[from as int].ancestors[k], to);
        law_acyclic(g, g[from as int].ancestors[k], to);
        if reaches(g, to, from) {
            lemma_reaches_below(g, to, from);
        }
    }
}

/// A walk along ancestors does not come to a node that was made after its
/// start.
pub proof fn lemma_reaches_below(g: Seq<MirNodeView>, from: usize, to: usize)
    requires
        reaches(g, from, to),
    ensures
        to <= from,
    decreases from,
{
    if from != to {
        let k = choose|k: int|
            0 <= k < g[from as int].ancestors.len() && (#[trigger] g[from as int].ancestors[k])
                < from && reaches(g, g[from as int].ancestors[k], to);
        lemma_reaches_below(g, g[from as int].ancestors[k], to);
    }
}

/// Every Union takes equally many columns of each ancestor, as many as
/// it shows.
pub proof fn law_union_emits_its_columns(c: ConverterView, i: int, k: int)
    requires
        c.wf(),
        0 <= i < c.graph.len(),
        c.graph[i].inner is Union,
        0 <= k < c.graph[i].inner->Union_emit.len(),
    ensures
        c.graph[i].inner->Union_emit.len() == c.graph[i].ancestors.len(),
        c.graph[i].inner->Union_emit[k].len() == c.graph[i].columns.len(),
{
    assert(c.graph[i].well_shaped());
}

/// Every Join and LeftJoin joins on as many columns of its left ancestor
/// as of its right ancestor.
pub proof fn law_join_columns_pair_up(c: ConverterView, i: int)
    requires
        c.wf(),
        0 <= i < c.graph.len(),
    ensures
        match c.graph[i].inner {
            MirNodeTypeView::Join { on_left, on_right, .. } => on_left.len() == on_right.len(),
            MirNodeTypeView::LeftJoin { on_left, on_right, .. } => on_left.len() == on_right.len(),
            _ => true,
        },
{
    assert(c.graph[i].well_shaped());
}

/// Every TopK has offset 0.
pub proof fn law_topk_offset_zero(c: ConverterView, i: int)
    requires
        c.wf(),
        0 <= i < c.graph.len(),
        c.graph[i].inner is TopK,
    ensures
        c.graph[i].inner->TopK_offset == 0,
{
    assert(c.graph[i].well_shaped());
}

/// A key that was bound stays bound where it was.
pub proof fn lemma_assoc_put_index<K, V>(m: Seq<(K, V)>, k: K, v: V)
    ensures
        assoc_index(assoc_put(m, k, v), k) is Some,
        assoc_index(m, k) is Some ==> assoc_index(assoc_put(m, k, v), k) == assoc_index(m, k),
        assoc_put(assoc_put(m, k, v), k, v) == assoc_put(m, k, v),
{
    lemma_assoc_index_sound(m, k);
    let m1 = assoc_put(m, k, v);
    match assoc_index(m, k) {
        Some(i) => {
            lemma_assoc_index_sound(m1, k);
            assert(m1[i].0 == k);
            assert forall|j: int| 0 <= j < i implies (#[trigger] m1[j]).0 != k by {
                assert(m1[j] == m[j]);
            }
            assert(assoc_index(m1, k) == Some(i));
            assert(m1.update(i, (k, v)) =~= m1);
        },
        None => {
            assert(m1.drop_last() =~= m);
            assert(assoc_index(m1, k) == Some(m1.len() - 1));
            assert(m1.update(m1.len() - 1, (k, v)) =~= m1);
        },
    }
}

/// Registering under a name that is registered at the current schema
/// version leaves the registry as it is.
pub proof fn law_register_existing_is_noop(c: ConverterView, name: Seq<char>, node: usize)
    requires
        c.registered(name, c.schema_version) is Some,
    ensures
        c.remember(name, node) == c,
        c.register(name, node).nodes == c.nodes,
        c.register(name, node).registered(name, c.schema_version) == c.registered(
            name,
            c.schema_version,
        ),
{
}

/// Registering twice is registering once.
pub proof fn law_register_idempotent(c: ConverterView, name: Seq<char>, node: usize)
    ensures
        c.register(name, node).register(name, node) == c.register(name, node),
{
    let once = c.register(name, node);
    let key = (name, c.schema_version);
    lemma_assoc_index_sound(c.nodes, key);
    match assoc_index(c.nodes, key) {
        Some(_) => {},
        None => {
            let n1 = c.nodes.push((key, node));
            assert(n1.drop_last() =~= c.nodes);
            assert(assoc_index(n1, key) == Some(n1.len() - 1));
        },
    }
    assert(assoc_index(once.nodes, key) is Some);
    lemma_assoc_put_index(c.current, name, c.schema_version);
}


/// The number of comparisons in a condition.
pub open spec fn comparison_count(ce: ConditionView) -> nat
    decreases ce,
{
    match ce {
        ConditionView::LogicalOp(ct) => comparison_count(*ct.left) + comparison_count(*ct.right),
        ConditionView::ComparisonOp(_) => 1,
        ConditionView::NegationOp(e) => comparison_count(*e),
        ConditionView::Base(_) => 0,
    }
}

/// Whether a condition is a tree of conjunctions over comparisons.
pub open spec fn conjunction(ce: ConditionView) -> bool
    decreases ce,
{
    match ce {
        ConditionView::LogicalOp(ct) => ct.operator == Operator::And && conjunction(*ct.left)
            && conjunction(*ct.right),
        ConditionView::ComparisonOp(_) => true,
        _ => false,
    }
}

/// The nodes of a chain are the nodes that the graph has gained, in the
/// order of their creation, and the first of them reads the parent of the
/// chain; the nodes that were there before are unchanged.
pub open spec fn chain_shape(
    g: Seq<MirNodeView>,
    g2: Seq<MirNodeView>,
    nodes: Seq<usize>,
    parent: usize,
) -> bool {
    &&& nodes.len() > 0
    &&& g2.len() == g.len() + nodes.len()
    &&& forall|i: int| 0 <= i < g.len() ==> g2[i] == g[i]
    &&& forall|k: int| 0 <= k < nodes.len() ==> #[trigger] nodes[k] == g.len() + k
    &&& g2[g.len() as int].ancestors == seq![parent]
}

/// Every chain of predicate nodes has the shape of a chain.
pub proof fn lemma_predicate_nodes_shape(
    g: Seq<MirNodeView>,
    version: usize,
    name: Seq<char>,
    parent: usize,
    ce: ConditionView,
    nc: usize,
)
    requires
        predicate_nodes(g, version, name, parent, ce, nc) is Ok,
        predicate_nodes(g, version, name, parent, ce, nc)->Ok_0.0.len() <= usize::MAX,
    ensures
        chain_shape(
            g,
            predicate_nodes(g, version, name, parent, ce, nc)->Ok_0.0,
            predicate_nodes(g, version, name, parent, ce, nc)->Ok_0.1,
            parent,
        ),
    decreases ce, 1nat,
{
    match ce {
        ConditionView::LogicalOp(ct) => {
            lemma_logical_nodes_shape(g, version, name, parent, ct, nc);
        },
        ConditionView::ComparisonOp(ct) => {
            let f = filter_node(g, version, filter_name(name, nc), parent, ct)->Ok_0;
            assert(g.push(f)[g.len() as int] == f);
        },
        _ => {},
    }
}

/// Every chain of a conjunction or disjunction has the shape of a chain.
pub proof fn lemma_logical_nodes_shape(
    g: Seq<MirNodeView>,
    version: usize,
    name: Seq<char>,
    parent: usize,
    ct: ConditionTreeView,
    nc: usize,
)
    requires
        logical_nodes(g, version, name, parent, ct, nc) is Ok,
        logical_nodes(g, version, name, parent, ct, nc)->Ok_0.0.len() <= usize::MAX,
    ensures
        chain_shape(
            g,
            logical_nodes(g, version, name, parent, ct, nc)->Ok_0.0,
            logical_nodes(g, version, name, parent, ct, nc)->Ok_0.1,
            parent,
        ),
    decreases ct, 0nat,
{
    let (g1, left) = predicate_nodes(g, version, name, parent, *ct.left, nc)->Ok_0;
    let next = (nc + left.len()) as usize;
    let over = if ct.operator == Operator::And {
        left.last()
    } else {
        parent
    };
    let (g2, right) = predicate_nodes(g1, version, name, over, *ct.right, next)->Ok_0;
    let (g3, nodes) = logical_nodes(g, version, name, parent, ct, nc)->Ok_0;
    lemma_predicate_nodes_grow(g1, version, name, over, *ct.right, next);
    assert(g2.len() <= g3.len());
    lemma_predicate_nodes_grow(g, version, name, parent, *ct.left, nc);
    lemma_predicate_nodes_shape(g, version, name, parent, *ct.left, nc);
    lemma_predicate_nodes_shape(g1, version, name, over, *ct.right, next);
    assert forall|k: int| 0 <= k < nodes.len() implies #[trigger] nodes[k] == g.len() + k by {
        if k < left.len() {
            assert(nodes[k] == left[k]);
        } else if k < left.len() + right.len() {
            assert(nodes[k] == right[k - left.len()]);
        }
    }
    assert forall|i: int| 0 <= i < g.len() implies g3[i] == g[i] by {
        assert(g2[i] == g1[i]);
        assert(g1[i] == g[i]);
    }
    assert(g3[g.len() as int] == g2[g.len() as int]);
    assert(g2[g.len() as int] == g1[g.len() as int]);
}

/// A chain of predicate nodes only appends to the graph.
pub proof fn lemma_predicate_nodes_grow(
    g: Seq<MirNodeView>,
    version: usize,
    name: Seq<char>,
    parent: usize,
    ce: ConditionView,
    nc: usize,
)
    requires
        predicate_nodes(g, version, name, parent, ce, nc) is Ok,
    ensures
        g.len() < predicate_nodes(g, version, name, parent, ce, nc)->Ok_0.0.len(),
    decreases ce, 1nat,
{
    match ce {
        ConditionView::LogicalOp(ct) => {
            lemma_logical_nodes_grow(g, version, name, parent, ct, nc);
        },
        _ => {},
    }
}

/// A chain of a conjunction or disjunction only appends to the graph.
pub proof fn lemma_logical_nodes_grow(
    g: Seq<MirNodeView>,
    version: usize,
    name: Seq<char>,
    parent: usize,
    ct: ConditionTreeView,
    nc: usize,
)
    requires
        logical_nodes(g, version, name, parent, ct, nc) is Ok,
    ensures
        g.len() < logical_nodes(g, version, name, parent, ct, nc)->Ok_0.0.len(),
    decreases ct, 0nat,
{
    let (g1, left) = predicate_nodes(g, version, name, parent, *ct.left, nc)->Ok_0;
    let next = (nc + left.len()) as usize;
    let over = if ct.operator == Operator::And {
        left.last()
    } else {
        parent
    };
    lemma_predicate_nodes_grow(g, version, name, parent, *ct.left, nc);
    lemma_predicate_nodes_grow(g1, version, name, over, *ct.right, next);
}

/// For a tree of conjunctions the chain is as long as the tree has
/// comparisons, every node of the chain is a Filter, and each reads the
/// node before it, the first the parent of the chain.
pub proof fn law_conjunction_is_filter_chain(
    g: Seq<MirNodeView>,
    version: usize,
    name: Seq<char>,
    parent: usize,
    ce: ConditionView,
    nc: usize,
)
    requires
        conjunction(ce),
        predicate_nodes(g, version, name, parent, ce, nc) is Ok,
        predicate_nodes(g, version, name, parent, ce, nc)->Ok_0.0.len() <= usize::MAX,
    ensures
        ({
            let (g2, nodes) = predicate_nodes(g, version, name, parent, ce, nc)->Ok_0;
            &&& nodes.len() == comparison_count(ce)
            &&& forall|k: int|
                0 <= k < nodes.len() ==> (#[trigger] g2[nodes[k] as int]).inner is Filter
            &&& g2[nodes[0] as int].ancestors == seq![parent]
            &&& forall|k: int|
                0 < k < nodes.len() ==> (#[trigger] g2[nodes[k] as int]).ancestors == seq![
                    nodes[k - 1],
                ]
        }),
    decreases ce,
{
    let (g2, nodes) = predicate_nodes(g, version, name, parent, ce, nc)->Ok_0;
    lemma_predicate_nodes_shape(g, version, name, parent, ce, nc);
    match ce {
        ConditionView::LogicalOp(ct) => {
            let (g1, left) = predicate_nodes(g, version, name, parent, *ct.left, nc)->Ok_0;
            let next = (nc + left.len()) as usize;
            let (gr, right) = predicate_nodes(g1, version, name, left.last(), *ct.right, next)->Ok_0;
            assert(gr == g2);
            assert(nodes == left + right);
            lemma_predicate_nodes_grow(g1, version, name, left.last(), *ct.right, next);
            law_conjunction_is_filter_chain(g, version, name, parent, *ct.left, nc);
            law_conjunction_is_filter_chain(g1, version, name, left.last(), *ct.right, next);
            lemma_predicate_nodes_shape(g, version, name, parent, *ct.left, nc);
            lemma_predicate_nodes_shape(g1, version, name, left.last(), *ct.right, next);
            assert forall|k: int| 0 <= k < nodes.len() implies (#[trigger] g2[nodes[k] as int]).inner
                is Filter by {
                if k < left.len() {
                    assert(nodes[k] == left[k]);
                    assert(g2[left[k] as int] == g1[left[k] as int]);
                } else {
                    assert(nodes[k] == right[k - left.len()]);
                }
            }
            assert forall|k: int| 0 < k < nodes.len() implies (#[trigger] g2[nodes[k] as int]).ancestors
                == seq![nodes[k - 1]] by {
                if k < left.len() {
                    assert(nodes[k] == left[k]);
                    assert(nodes[k - 1] == left[k - 1]);
                    assert(g2[left[k] as int] == g1[left[k] as int]);
                } else if k == left.len() {
                    assert(nodes[k] == right[0]);
                    assert(nodes[k - 1] == left[k - 1]);
                } else {
                    assert(nodes[k] == right[k - left.len()]);
                    assert(nodes[k - 1] == right[k - 1 - left.len()]);
                }
            }
            assert(nodes[0] == left[0]);
            assert(g2[left[0] as int] == g1[left[0] as int]);
        },
        ConditionView::ComparisonOp(ct) => {
            let f = filter_node(g, version, filter_name(name, nc), parent, ct)->Ok_0;
            assert(g2[g.len() as int] == f);
        },
        _ => {},
    }
}

/// For a disjunction the last node is a Union of the ends of two chains,
/// that of the left side and that of the right side, and both chains start
/// at the parent of the disjunction.
pub proof fn law_disjunction_unites_two_chains(
    g: Seq<MirNodeView>,
    version: usize,
    name: Seq<char>,
    parent: usize,
    ct: ConditionTreeView,
    nc: usize,
)
    requires
        ct.operator == Operator::Or,
        predicate_nodes(g, version, name, parent, ConditionView::LogicalOp(ct), nc) is Ok,
        predicate_nodes(
            g,
            version,
            name,
            parent,
            ConditionView::LogicalOp(ct),
            nc,
        )->Ok_0.0.len() <= usize::MAX,
    ensures
        ({
            let (g3, nodes) = predicate_nodes(
                g,
                version,
                name,
                parent,
                ConditionView::LogicalOp(ct),
                nc,
            )->Ok_0;
            let left = predicate_nodes(g, version, name, parent, *ct.left, nc);
            let right = predicate_nodes(
                left->Ok_0.0,
                version,
                name,
                parent,
                *ct.right,
                (nc + left->Ok_0.1.len()) as usize,
            );
            &&& left is Ok
            &&& right is Ok
            &&& nodes == (left->Ok_0.1 + right->Ok_0.1).push(nodes.last())
            &&& g3[nodes.last() as int].inner is Union
            &&& g3[nodes.last() as int].ancestors == seq![left->Ok_0.1.last(), right->Ok_0.1.last()]
            &&& g3[left->Ok_0.1[0] as int].ancestors == seq![parent]
            &&& g3[right->Ok_0.1[0] as int].ancestors == seq![parent]
        }),
{
    let (g3, nodes) = predicate_nodes(g, version, name, parent, ConditionView::LogicalOp(ct), nc)->Ok_0;
    let (g1, left) = predicate_nodes(g, version, name, parent, *ct.left, nc)->Ok_0;
    let next = (nc + left.len()) as usize;
    let (g2, right) = predicate_nodes(g1, version, name, parent, *ct.right, next)->Ok_0;
    lemma_predicate_nodes_grow(g, version, name, parent, *ct.left, nc);
    lemma_predicate_nodes_grow(g1, version, name, parent, *ct.right, next);
    lemma_predicate_nodes_shape(g, version, name, parent, *ct.left, nc);
    lemma_predicate_nodes_shape(g1, version, name, parent, *ct.right, next);
    let u = same_base_union_node(
        g2,
        version,
        union_name(name),
        seq![left.last(), right.last()],
        g[parent as int].columns,
    )->Ok_0;
    assert(g3 == g2.push(u));
    assert(nodes.last() == g2.len() as usize);
    assert(g3[g2.len() as int] == u);
    assert(left[0] == g.len());
    assert(right[0] == g1.len());
    assert(g3[left[0] as int] == g2[left[0] as int]);
    assert(g2[left[0] as int] == g1[left[0] as int]);
    assert(g3[right[0] as int] == g2[right[0] as int]);
}


/// Where a schema holds every declaration of `cols`, none is missing from
/// it.
pub proof fn lemma_missing_none(cols: Seq<ColumnSpecView>, schema: Seq<ColumnSpecView>)
    requires
        forall|i: int| 0 <= i < cols.len() ==> specs_contain(schema, #[trigger] cols[i]),
    ensures
        missing_from(cols, schema) == Seq::<ColumnSpecView>::empty(),
    decreases cols.len(),
{
    if cols.len() > 0 {
        assert(specs_contain(schema, cols[cols.len() - 1]));
        assert forall|i: int| 0 <= i < cols.drop_last().len() implies specs_contain(
            schema,
            #[trigger] cols.drop_last()[i],
        ) by {
            assert(cols.drop_last()[i] == cols[i]);
        }
        lemma_missing_none(cols.drop_last(), schema);
    }
}

/// Schema adaptation. A table whose newest schema declares `cols`, and
/// whose node for that schema is the Base node `existing`, is declared
/// again with `cols` and one more column `extra`. Then the table is
/// adapted from `existing`: the new Base node declares the columns of
/// `existing` and then `extra`, shows the columns of `existing` and then
/// the column of `extra`, and records `extra` as the one column added and
/// no column as removed.
pub proof fn law_added_column_adapts_base(
    c: ConverterView,
    name: Seq<char>,
    cols: Seq<ColumnSpecView>,
    extra: ColumnSpecView,
    keys: Option<Seq<TableKeyView>>,
    transactional: bool,
    existing: usize,
)
    requires
        c.wf(),
        cols.len() > 0,
        !specs_contain(cols, extra),
        assoc_get(c.base_schemas, name) is Some,
        assoc_get(c.base_schemas, name)->0.len() > 0,
        ({
            let h = assoc_get(c.base_schemas, name)->0;
            let (sv, schema) = h[newest_schema(h)];
            schemas_same(schema, cols) && c.registered(name, sv) == Some(existing)
        }),
        existing < c.graph.len(),
        c.graph[existing as int].inner is Base,
    ensures
        ({
            let prior = c.graph[existing as int];
            let made = c.make_base(name, cols.push(extra), keys, transactional);
            &&& made is Ok
            &&& made->Ok_0.graph.len() == c.graph.len() + 1
            &&& made->Ok_0.graph.last().columns == prior.columns.push(extra.column)
            &&& made->Ok_0.graph.last().inner == (MirNodeTypeView::Base {
                column_specs: prior.inner->Base_column_specs.push(extra),
                keys: prior.inner->Base_keys,
                transactional: prior.inner->Base_transactional,
                adapted_over: Some(
                    AdaptationView {
                        over: existing,
                        columns_added: seq![extra],
                        columns_removed: Seq::empty(),
                    },
                ),
            })
        }),
{
    let h = assoc_get(c.base_schemas, name)->0;
    let (sv, schema) = h[newest_schema(h)];
    let more = cols.push(extra);
    let prior = c.graph[existing as int];
    let specs = prior.inner->Base_column_specs;
    lemma_one_more_column(schema, cols, extra);
    let added = missing_from(more, schema);
    let removed = missing_from(schema, more);
    assert(added.len() < more.len() && added.len() > 0);
    assert(c.make_base(name, more, keys, transactional) == c.adapted_base(
        name,
        existing,
        added,
        removed,
    ));
    assert(remove_each(specs + seq![extra], Seq::empty(), 0) == Some(specs + seq![extra]));
    assert(specs + seq![extra] =~= specs.push(extra));
    assert(prior.columns == declared_columns(specs)) by {
        assert(prior.well_shaped());
    }
    assert(declared_columns(specs.push(extra)) =~= declared_columns(specs).push(extra.column));
}

/// A schema with one more column than the newest schema differs from it
/// by that column: it alone is added, and none is removed.
pub proof fn lemma_one_more_column(
    schema: Seq<ColumnSpecView>,
    cols: Seq<ColumnSpecView>,
    extra: ColumnSpecView,
)
    requires
        schemas_same(schema, cols),
        !specs_contain(cols, extra),
    ensures
        !schemas_same(schema, cols.push(extra)),
        missing_from(cols.push(extra), schema) == seq![extra],
        missing_from(schema, cols.push(extra)) == Seq::<ColumnSpecView>::empty(),
{
    let more = cols.push(extra);
    assert(more.drop_last() =~= cols);
    assert(more.last() == extra);
    assert(!specs_contain(schema, extra)) by {
        if specs_contain(schema, extra) {
            let i = choose|i: int| 0 <= i < schema.len() && (#[trigger] schema[i]).same(extra);
            assert(schema[i].same(cols[i]));
            assert(cols[i].same(extra));
        }
    }
    assert forall|i: int| 0 <= i < cols.len() implies specs_contain(schema, #[trigger] cols[i]) by {
        assert(schema[i].same(cols[i]));
    }
    lemma_missing_none(cols, schema);
    assert(missing_from(more, schema) =~= seq![extra]);
    assert forall|i: int| 0 <= i < schema.len() implies specs_contain(
        more,
        #[trigger] schema[i],
    ) by {
        assert(schema[i].same(cols[i]));
        assert(more[i] == cols[i]);
        assert(more[i].same(schema[i]));
    }
    lemma_missing_none(schema, more);
}


/// A plain query: one relation that stands for a registered table, no
/// joins, no predicates, no computed columns, output literals that have
/// values; and a universe without row policies and without groups.
pub open spec fn plain_query(c: ConverterView, qg: QueryGraphView) -> bool {
    &&& qg.relations.len() == 1
    &&& qg.relations[0].rel_name != computed_columns_name()
    &&& qg.relations[0].predicates.len() == 0
    &&& qg.joins.len() == 0
    &&& c.universe.row_policies.len() == 0
    &&& c.universe.member_of.len() == 0
    &&& c.latest(qg.relations[0].rel_name) is Some
    &&& literal_columns(qg.columns, 0, Seq::empty()) is Ok
    &&& c.graph.len() + 3 <= usize::MAX
}

/// The graph of a plain query before its projection: the graph and a
/// Reuse node of the table.
pub open spec fn plain_base(c: ConverterView, qg: QueryGraphView) -> Seq<MirNodeView> {
    c.graph.push(
        reuse_of(c.graph, c.latest(qg.relations[0].rel_name)->0, c.schema_version),
    )
}

/// The part of a plain query before its copies is the Reuse node of its
/// table.
pub proof fn lemma_plain_front(
    c: ConverterView,
    name: Seq<char>,
    qg: QueryGraphView,
    uformat: Seq<char>,
)
    requires
        plain_query(c, qg),
    ensures
        qg.sorted_relations() == seq![0usize],
        computed_columns(qg) == Seq::<ColumnView>::empty(),
        front(c, name, qg, uformat) == Ok::<Front, MirError>(
            Front {
                graph: plain_base(c, qg),
                nodes: seq![c.graph.len() as usize],
                created: Seq::empty(),
                frontier: seq![c.graph.len() as usize],
                views: Seq::empty(),
                count: 0,
            },
        ),
{
    reveal(front);
    let rels = qg.relations;
    let n = c.graph.len() as usize;
    let g0 = plain_base(c, qg);
    let rel = rels[0].rel_name;
    let qname = query_name(qg.signature_hash, uformat);
    let order = qg.sorted_relations();
    assert(order =~= seq![0usize]) by {
        assert(order_by_name(rels, 0) =~= Seq::<usize>::empty());
        assert(order_by_name(rels, 1) == insert_by_name(rels, order_by_name(rels, 0), 0usize));
    }
    let nfr = assoc_put(Seq::<(Seq<char>, usize)>::empty(), rel, n);
    let c1 = c.with_graph(g0);
    assert(bases_from(c, rels, order, 0, Seq::empty(), Seq::empty()) == Ok::<
        (Seq<MirNodeView>, Seq<(Seq<char>, usize)>, Seq<usize>),
        MirError,
    >((g0, nfr, seq![n]))) by {
        assert(bases_from(c1, rels, order, 1, nfr, Seq::<usize>::empty().push(n)) == Ok::<
            (Seq<MirNodeView>, Seq<(Seq<char>, usize)>, Seq<usize>),
            MirError,
        >((g0, nfr, Seq::<usize>::empty().push(n))));
        assert(Seq::<usize>::empty().push(n) =~= seq![n]);
    }
    assert(computed_columns(qg) =~= Seq::<ColumnView>::empty()) by {
        assert(rels.drop_last() =~= Seq::<QueryGraphNodeView>::empty());
        assert(relation_index(rels.drop_last(), computed_columns_name()) is None);
        assert(relation_index(rels, computed_columns_name()) is None);
    }
    assert(predicates_supported(rels));
    let above = AboveGrouped {
        graph: g0,
        nodes: Seq::empty(),
        created: Seq::empty(),
        prev: n,
    };
    assert(security_boundary(g0, c.schema_version, qname, c.universe.row_policies, nfr, n) == Ok::<
        Boundary,
        MirError,
    >(Boundary { graph: g0, node_for_rel: nfr, last_nodes: seq![n], nodes: Seq::empty() }));
    assert(group_views(c1, name, uformat) == Ok::<(Seq<MirNodeView>, Seq<usize>), MirError>(
        (g0, Seq::empty()),
    ));
    assert(seq![n] + Seq::<usize>::empty() + Seq::<usize>::empty() + Seq::<usize>::empty()
        + Seq::<usize>::empty() =~= seq![n]);
}

/// A plain query has one copy, which adds no node.
pub proof fn lemma_plain_copies(
    c: ConverterView,
    name: Seq<char>,
    qg: QueryGraphView,
    uformat: Seq<char>,
    order_by: Option<Seq<(ColumnView, OrderType)>>,
)
    requires
        plain_query(c, qg),
    ensures
        copies_from(
            c.schema_version,
            query_name(qg.signature_hash, uformat),
            uformat,
            qg,
            qg.sorted_relations(),
            Seq::empty(),
            order_by,
            None,
            seq![c.graph.len() as usize],
            0,
            Copies {
                graph: plain_base(c, qg),
                count: 0,
                nodes_added: seq![c.graph.len() as usize],
                ancestors: Seq::empty(),
            },
        ) == Ok::<Copies, MirError>(
            Copies {
                graph: plain_base(c, qg),
                count: 0,
                nodes_added: seq![c.graph.len() as usize],
                ancestors: seq![c.graph.len() as usize],
            },
        ),
{
    reveal(query_copy);
    lemma_plain_front(c, name, qg, uformat);
    let n = c.graph.len() as usize;
    let g0 = plain_base(c, qg);
    let v = c.schema_version;
    let qname = query_name(qg.signature_hash, uformat);
    let order = qg.sorted_relations();
    let created = Seq::<ConditionView>::empty();
    let w = Walk { graph: g0, count: 0, prev: n, nodes: Seq::empty() };
    assert(query_predicates_from(v, qg.signature_hash, uformat, qg.relations, order, created, 0, w)
        == Ok::<Walk, MirError>(w)) by {
        assert(relation_predicates_from(
            v,
            qg.signature_hash,
            uformat,
            qg.relations[0].predicates,
            created,
            0,
            w,
        ) == Ok::<Walk, MirError>(w));
        assert(query_predicates_from(
            v,
            qg.signature_hash,
            uformat,
            qg.relations,
            order,
            created,
            1,
            w,
        ) == Ok::<Walk, MirError>(w));
    }
    let copy = CopyResult {
        graph: g0,
        count: 0,
        func_nodes: Seq::empty(),
        predicate_nodes: Seq::empty(),
        final_node: n,
    };
    assert(query_copy(v, qname, uformat, qg, order, created, order_by, None, g0, 0, n) == Ok::<
        CopyResult,
        MirError,
    >(copy));
    let st1 = Copies {
        graph: g0,
        count: 0,
        nodes_added: seq![n] + Seq::<usize>::empty() + Seq::<usize>::empty(),
        ancestors: Seq::<usize>::empty().push(n),
    };
    assert(copies_from(v, qname, uformat, qg, order, created, order_by, None, seq![n], 1, st1)
        == Ok::<Copies, MirError>(st1));
    assert(seq![n] + Seq::<usize>::empty() + Seq::<usize>::empty() =~= seq![n]);
    assert(Seq::<usize>::empty().push(n) =~= seq![n]);
}

/// The shape of a plain query. A SELECT without LIMIT on one table,
/// without joins, predicates and aggregates, in a universe without
/// policies and groups, gives a Reuse node of the table, a projection that
/// reads it and, with a leaf, a leaf that reads the projection; and
/// nothing else.
pub proof fn law_plain_select_shape(
    c: ConverterView,
    name: Seq<char>,
    qg: QueryGraphView,
    has_leaf: bool,
    universe: (DataTypeView, Option<DataTypeView>),
    order_by: Option<Seq<(ColumnView, OrderType)>>,
)
    requires
        plain_query(c, qg),
    ensures
        ({
            let made = selection(c, name, order_by, None, qg, has_leaf, universe);
            let n = c.graph.len() as usize;
            &&& made is Ok
            &&& made->Ok_0.0.len() == c.graph.len() + made->Ok_0.1.len()
            &&& made->Ok_0.0.take(n + 1) == plain_base(c, qg)
            &&& made->Ok_0.0[n + 1].inner is Project
            &&& made->Ok_0.0[n + 1].ancestors == seq![n]
            &&& !has_leaf ==> made->Ok_0.1 == seq![n, (n + 1) as usize]
            &&& has_leaf ==> {
                &&& made->Ok_0.1 == seq![n, (n + 1) as usize, (n + 2) as usize]
                &&& made->Ok_0.0[n + 2].inner is Leaf
                &&& made->Ok_0.0[n + 2].ancestors == seq![(n + 1) as usize]
            }
        }),
{
    reveal(finish);
    reveal(output_nodes);
    let uformat = universe_suffix(universe.0);
    lemma_plain_front(c, name, qg, uformat);
    lemma_plain_copies(c, name, qg, uformat, order_by);
    let n = c.graph.len() as usize;
    let g0 = plain_base(c, qg);
    let cp = Copies { graph: g0, count: 0, nodes_added: seq![n], ancestors: seq![n] };
    let out = output_nodes(
        g0,
        c.schema_version,
        name,
        qg,
        has_leaf,
        universe.1 is Some,
        uformat,
        0,
        n,
    );
    assert(out is Ok);
    let (g, nodes) = out->Ok_0;
    assert(finish(c.schema_version, name, qg, has_leaf, universe.1 is Some, uformat, cp) == Ok::<
        (Seq<MirNodeView>, Seq<usize>),
        MirError,
    >((g, seq![n] + nodes)));
    if has_leaf {
        assert(seq![n] + seq![(n + 1) as usize, (n + 2) as usize] =~= seq![
            n,
            (n + 1) as usize,
            (n + 2) as usize,
        ]);
        assert(g.take(n + 1) =~= g0);
    } else {
        assert(seq![n] + seq![(n + 1) as usize] =~= seq![n, (n + 1) as usize]);
        assert(g.take(n + 1) =~= g0);
    }
}


/// The names of the nodes `nodes` of the graph `g`.
pub open spec fn node_names(g: Seq<MirNodeView>, nodes: Seq<usize>) -> Seq<Seq<char>> {
    Seq::new(nodes.len(), |k: int| g[nodes[k] as int].name)
}

/// Deterministic naming of chains. The names of the nodes of a chain are
/// fixed by the name of the chain, the condition and the number of its
/// first filter: whatever the graph, the schema version and the parent,
/// any two chains for them have the same names in the same order.
pub proof fn law_chain_names_fixed(
    g: Seq<MirNodeView>,
    version: usize,
    parent: usize,
    h: Seq<MirNodeView>,
    version2: usize,
    parent2: usize,
    name: Seq<char>,
    ce: ConditionView,
    nc: usize,
)
    requires
        predicate_nodes(g, version, name, parent, ce, nc) is Ok,
        predicate_nodes(h, version2, name, parent2, ce, nc) is Ok,
        predicate_nodes(g, version, name, parent, ce, nc)->Ok_0.0.len() <= usize::MAX,
        predicate_nodes(h, version2, name, parent2, ce, nc)->Ok_0.0.len() <= usize::MAX,
    ensures
        node_names(
            predicate_nodes(g, version, name, parent, ce, nc)->Ok_0.0,
            predicate_nodes(g, version, name, parent, ce, nc)->Ok_0.1,
        ) == node_names(
            predicate_nodes(h, version2, name, parent2, ce, nc)->Ok_0.0,
            predicate_nodes(h, version2, name, parent2, ce, nc)->Ok_0.1,
        ),
    decreases ce,
{
    let (g3, nodes) = predicate_nodes(g, version, name, parent, ce, nc)->Ok_0;
    let (h3, nodes2) = predicate_nodes(h, version2, name, parent2, ce, nc)->Ok_0;
    lemma_predicate_nodes_shape(g, version, name, parent, ce, nc);
    lemma_predicate_nodes_shape(h, version2, name, parent2, ce, nc);
    match ce {
        ConditionView::LogicalOp(ct) => {
            let (g1, left) = predicate_nodes(g, version, name, parent, *ct.left, nc)->Ok_0;
            let (h1, left2) = predicate_nodes(h, version2, name, parent2, *ct.left, nc)->Ok_0;
            let next = (nc + left.len()) as usize;
            let next2 = (nc + left2.len()) as usize;
            let over = if ct.operator == Operator::And {
                left.last()
            } else {
                parent
            };
            let over2 = if ct.operator == Operator::And {
                left2.last()
            } else {
                parent2
            };
            let (g2, right) = predicate_nodes(g1, version, name, over, *ct.right, next)->Ok_0;
            let (h2, right2) = predicate_nodes(h1, version2, name, over2, *ct.right, next2)->Ok_0;
            lemma_predicate_nodes_grow(g1, version, name, over, *ct.right, next);
            lemma_predicate_nodes_grow(h1, version2, name, over2, *ct.right, next2);
            law_chain_names_fixed(g, version, parent, h, version2, parent2, name, *ct.left, nc);
            let ln = node_names(g1, left);
            let ln2 = node_names(h1, left2);
            assert(ln.len() == left.len() && ln2.len() == left2.len());
            assert(next == next2);
            law_chain_names_fixed(
                g1,
                version,
                over,
                h1,
                version2,
                over2,
                name,
                *ct.right,
                next,
            );
            let rn = node_names(g2, right);
            let rn2 = node_names(h2, right2);
            assert(rn.len() == right.len() && rn2.len() == right2.len());
            lemma_predicate_nodes_shape(g, version, name, parent, *ct.left, nc);
            lemma_predicate_nodes_shape(h, version2, name, parent2, *ct.left, nc);
            lemma_predicate_nodes_shape(g1, version, name, over, *ct.right, next);
            lemma_predicate_nodes_shape(h1, version2, name, over2, *ct.right, next2);
            let a = node_names(g3, nodes);
            let b = node_names(h3, nodes2);
            assert(a.len() == b.len());
            assert forall|k: int| 0 <= k < a.len() implies a[k] == b[k] by {
                if k < left.len() {
                    assert(nodes[k] == left[k] && nodes2[k] == left2[k]);
                    assert(g3[left[k] as int] == g1[left[k] as int]) by {
                        assert(g2[left[k] as int] == g1[left[k] as int]);
                    }
                    assert(h3[left2[k] as int] == h1[left2[k] as int]) by {
                        assert(h2[left2[k] as int] == h1[left2[k] as int]);
                    }
                    assert(ln[k] == ln2[k]);
                } else if k < left.len() + right.len() {
                    assert(nodes[k] == right[k - left.len()]);
                    assert(nodes2[k] == right2[k - left.len()]);
                    assert(rn[k - left.len()] == rn2[k - left.len()]);
                } else {
                    assert(g3[nodes[k] as int].name == union_name(name));
                    assert(h3[nodes2[k] as int].name == union_name(name));
                }
            }
            assert(a =~= b);
        },
        ConditionView::ComparisonOp(ct) => {
            let f = filter_node(g, version, filter_name(name, nc), parent, ct)->Ok_0;
            let f2 = filter_node(h, version2, filter_name(name, nc), parent2, ct)->Ok_0;
            assert(g3[g.len() as int] == f);
            assert(h3[h.len() as int] == f2);
            assert(node_names(g3, nodes) =~= node_names(h3, nodes2));
        },
        _ => {},
    }
}


/// In a valid graph a filter finds every column of the node that it
/// reads: no filter over a node of the graph is refused for an unknown
/// column.
pub proof fn law_filter_finds_its_columns(
    g: Seq<MirNodeView>,
    version: usize,
    name: Seq<char>,
    parent: usize,
    ct: ConditionTreeView,
)
    requires
        graph_ok(g),
        parent < g.len(),
    ensures
        filter_node(g, version, name, parent, ct) != Err::<MirNodeView, MirError>(
            MirError::UnknownColumn,
        ),
{
    let cols = g[parent as int].columns;
    crate::graph::lemma_own_columns_found(g, parent, cols.len() as int);
    assert(cols.take(cols.len() as int) =~= cols);
}


/// An adapted base table shows as many columns as the table that it is
/// adapted from, and the added ones, less the removed ones.
pub proof fn law_adapted_base_column_count(
    c: ConverterView,
    name: Seq<char>,
    existing: usize,
    added: Seq<ColumnSpecView>,
    removed: Seq<ColumnSpecView>,
)
    requires
        c.wf(),
        existing < c.graph.len(),
        c.adapted_base(name, existing, added, removed) is Ok,
    ensures
        c.adapted_base(name, existing, added, removed)->Ok_0.graph.last().columns.len()
            == c.graph[existing as int].columns.len() + added.len() - removed.len(),
{
    let prior = c.graph[existing as int];
    assert(prior.well_shaped());
    let specs = prior.inner->Base_column_specs;
    crate::base::lemma_remove_each_len(specs + added, removed, 0);
}


/// The relations of a query are lowered in the order of their names:
/// the order holds the position of every relation once, and no relation
/// in it is behind a later one.
pub proof fn law_relations_in_name_order(qg: QueryGraphView)
    requires
        qg.relations.len() <= usize::MAX,
    ensures
        crate::query_graph::sorted_by_name(qg.relations, qg.sorted_relations()),
        qg.sorted_relations().no_duplicates(),
        qg.sorted_relations().len() == qg.relations.len(),
        forall|x: usize| qg.sorted_relations().contains(x) <==> x < qg.relations.len(),
{
    crate::query_graph::lemma_order_by_name_sorts(qg.relations, qg.relations.len() as int);
    crate::query_graph::lemma_order_by_name_below(qg.relations, qg.relations.len() as int);
}


/// In a valid graph a filter has one slot per column: it shows the
/// columns of the node that it reads, or one more, and holds as many
/// conditions as it shows columns.
pub proof fn law_filter_has_a_slot_per_column(
    g: Seq<MirNodeView>,
    version: usize,
    name: Seq<char>,
    parent: usize,
    ct: ConditionTreeView,
)
    requires
        graph_ok(g),
        crate::graph::widths_fit(g),
        filter_node(g, version, name, parent, ct) is Ok,
    ensures
        ({
            let f = filter_node(g, version, name, parent, ct)->Ok_0;
            let width = g[parent as int].columns.len();
            &&& f.inner is Filter
            &&& f.inner->Filter_conditions.len() == f.columns.len()
            &&& f.columns.len() == width || f.columns.len() == width + 1
        }),
{
    let cols = g[parent as int].columns;
    let parts = crate::conditions::comparison_parts(ct)->Ok_0;
    let ids = crate::graph::column_ids(g, parent, cols)->0;
    crate::graph::lemma_column_ids_len(g, parent, cols);
    assert forall|k: int| 0 <= k < ids.len() implies ids[k] < cols.len() by {
        crate::graph::lemma_column_ids_bound(g, parent, cols, k);
    }
    crate::conditions::lemma_slot_count_exact(ids, cols.len() as int);
    crate::conditions::lemma_last_named_bound(cols, parts.0.name);
}


/// Every name with a latest version is registered at that version.
pub proof fn law_latest_is_registered(c: ConverterView, name: Seq<char>)
    requires
        c.wf(),
        assoc_get(c.current, name) is Some,
    ensures
        c.registered(name, assoc_get(c.current, name)->0) is Some,
        c.latest(name) is Some,
        c.latest(name)->0 < c.graph.len(),
{
    lemma_assoc_index_sound(c.current, name);
    let i = assoc_index(c.current, name)->0;
    assert(c.current[i] == (name, c.current[i].1));
    assert(assoc_index(c.nodes, c.current[i]) is Some);
    lemma_assoc_index_sound(c.nodes, c.current[i]);
}

/// Whether two states have the same graph, registry, latest versions,
/// schema version and universe; the schema histories may differ.
pub open spec fn same_but_histories(a: ConverterView, b: ConverterView) -> bool {
    &&& a.graph == b.graph
    &&& a.nodes == b.nodes
    &&& a.current == b.current
    &&& a.schema_version == b.schema_version
    &&& a.universe == b.universe
}

/// The Reuse nodes of the relations do not depend on the schema
/// histories.
pub proof fn lemma_bases_ignore_histories(
    a: ConverterView,
    b: ConverterView,
    rels: Seq<QueryGraphNodeView>,
    order: Seq<usize>,
    k: int,
    node_for_rel: Seq<(Seq<char>, usize)>,
    acc: Seq<usize>,
)
    requires
        same_but_histories(a, b),
    ensures
        bases_from(a, rels, order, k, node_for_rel, acc) == bases_from(
            b,
            rels,
            order,
            k,
            node_for_rel,
            acc,
        ),
    decreases order.len() - k,
{
    if 0 <= k < order.len() {
        let rel = rels[order[k] as int].rel_name;
        if rel == computed_columns_name() {
            lemma_bases_ignore_histories(a, b, rels, order, k + 1, node_for_rel, acc);
        } else if a.latest(rel) is Some {
            let g = a.graph.push(reuse_of(a.graph, a.latest(rel)->0, a.schema_version));
            lemma_bases_ignore_histories(
                a.with_graph(g),
                b.with_graph(g),
                rels,
                order,
                k + 1,
                assoc_put(node_for_rel, rel, a.graph.len() as usize),
                acc.push(a.graph.len() as usize),
            );
        }
    }
}

/// The views that one group has of a query do not depend on the schema
/// histories.
pub proof fn lemma_group_views_of_ignore_histories(
    a: ConverterView,
    b: ConverterView,
    root: Seq<char>,
    gname: Seq<char>,
    gids: Seq<DataTypeView>,
    j: int,
    acc: Seq<usize>,
)
    requires
        same_but_histories(a, b),
    ensures
        crate::selection::group_views_of(a, root, gname, gids, j, acc)
            == crate::selection::group_views_of(b, root, gname, gids, j, acc),
    decreases gids.len() - j,
{
    if 0 <= j < gids.len() {
        let view = crate::selection::group_view_name(root, gname, gids[j]);
        if a.latest(view) is Some {
            let g = a.graph.push(reuse_of(a.graph, a.latest(view)->0, a.schema_version));
            lemma_group_views_of_ignore_histories(
                a.with_graph(g),
                b.with_graph(g),
                root,
                gname,
                gids,
                j + 1,
                acc.push(a.graph.len() as usize),
            );
        }
    }
}

/// The views that the groups have of a query do not depend on the schema
/// histories.
pub proof fn lemma_group_views_ignore_histories(
    a: ConverterView,
    b: ConverterView,
    root: Seq<char>,
    member_of: Seq<(Seq<char>, Seq<DataTypeView>)>,
    k: int,
    acc: Seq<usize>,
)
    requires
        same_but_histories(a, b),
    ensures
        crate::selection::group_views_from(a, root, member_of, k, acc)
            == crate::selection::group_views_from(b, root, member_of, k, acc),
    decreases member_of.len() - k,
{
    if 0 <= k < member_of.len() {
        lemma_group_views_of_ignore_histories(a, b, root, member_of[k].0, member_of[k].1, 0, acc);
        match crate::selection::group_views_of(a, root, member_of[k].0, member_of[k].1, 0, acc) {
            Ok((g, views)) => {
                lemma_group_views_ignore_histories(
                    a.with_graph(g),
                    b.with_graph(g),
                    root,
                    member_of,
                    k + 1,
                    views,
                );
            },
            Err(_) => {},
        }
    }
}

/// Deterministic lowering. The nodes of a query, with their names and
/// all that they hold, are fixed by the query, the universe, the schema
/// version, the graph and the registry: two converters that agree in
/// these lower the same query to the same nodes, whatever tables they
/// have seen declared.
pub proof fn law_same_inputs_same_nodes(
    a: ConverterView,
    b: ConverterView,
    name: Seq<char>,
    order_by: Option<Seq<(ColumnView, OrderType)>>,
    limit: Option<crate::ast::LimitClause>,
    qg: QueryGraphView,
    has_leaf: bool,
    universe: (DataTypeView, Option<DataTypeView>),
)
    requires
        same_but_histories(a, b),
    ensures
        selection(a, name, order_by, limit, qg, has_leaf, universe) == selection(
            b,
            name,
            order_by,
            limit,
            qg,
            has_leaf,
            universe,
        ),
{
    reveal(front);
    let uformat = universe_suffix(universe.0);
    lemma_bases_ignore_histories(
        a,
        b,
        qg.relations,
        qg.sorted_relations(),
        0,
        Seq::empty(),
        Seq::empty(),
    );
    assert forall|g: Seq<MirNodeView>|
        group_views(#[trigger] a.with_graph(g), name, uformat) == group_views(
            b.with_graph(g),
            name,
            uformat,
        ) by {
        lemma_group_views_ignore_histories(
            a.with_graph(g),
            b.with_graph(g),
            crate::text::strip_trailing(name, uformat),
            a.universe.member_of,
            0,
            Seq::empty(),
        );
    }
    assert(front(a, name, qg, uformat) == front(b, name, qg, uformat));
}

} // verus!
