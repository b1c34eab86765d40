//! One copy of a query behind the security boundary: the grouped
//! operators, then the chains of the predicates that were not built above
//! them, then the TopK of a query with LIMIT. Each end of a policy chain
//! gets its own copy.
use crate::ast::{
    ColumnView, ConditionExpression, ConditionView, LimitClause, OrderType, SelectStatement,
};
use crate::converter::SqlToMirConverter;
use crate::grouping::{computed_columns, grouped_from};
use crate::node::{MirNodeRef, MirNodeView};
use crate::predicates::{
    all_new, conditions_contain, contains_condition, extend_refs, grown, lemma_all_new_concat,
    lemma_grown_push, lemma_grown_trans, predicate_nodes,
};
use crate::project::topk_node;
use crate::query_graph::{
    all_below, computed_columns_name, QueryGraph, QueryGraphNodeView, QueryGraphView,
};
use crate::selection::{
    numbered_query_name, numbered_query_name_string, predicate_chain_name,
    predicate_chain_name_string,
};
use crate::text::str_same;
use crate::value::MirError;
use vstd::prelude::*;

verus! {

/// Where the lowering of the predicates stands: the graph, the number of
/// nodes that the query has made, the end of the last chain, and the
/// nodes of the chains.
pub ghost struct Walk {
    pub graph: Seq<MirNodeView>,
    pub count: int,
    pub prev: usize,
    pub nodes: Seq<usize>,
}

/// The chains for the predicates `preds` of one relation from position
/// `j` on. A predicate that `created` holds has its chain above the
/// grouped operators and is passed over. The chain of predicate `j` is
/// named by the number of nodes made before it and by `j`.
pub open spec fn relation_predicates_from(
    version: usize,
    hash: u64,
    uformat: Seq<char>,
    preds: Seq<ConditionView>,
    created: Seq<ConditionView>,
    j: int,
    w: Walk,
) -> Result<Walk, MirError>
    decreases preds.len() - j,
{
    if j < 0 || j >= preds.len() {
        Ok(w)
    } else if conditions_contain(created, preds[j]) {
        relation_predicates_from(version, hash, uformat, preds, created, j + 1, w)
    } else {
        match predicate_nodes(
            w.graph,
            version,
            predicate_chain_name(hash, w.count as usize, j as usize, uformat),
            w.prev,
            preds[j],
            0,
        ) {
            Err(e) => Err(e),
            Ok((g1, ns)) => relation_predicates_from(
                version,
                hash,
                uformat,
                preds,
                created,
                j + 1,
                Walk {
                    graph: g1,
                    count: w.count + ns.len(),
                    prev: ns.last(),
                    nodes: w.nodes + ns,
                },
            ),
        }
    }
}

/// The chains for the predicates of the relations at the positions
/// `order` from `k` on.
pub open spec fn query_predicates_from(
    version: usize,
    hash: u64,
    uformat: Seq<char>,
    rels: Seq<QueryGraphNodeView>,
    order: Seq<usize>,
    created: Seq<ConditionView>,
    k: int,
    w: Walk,
) -> Result<Walk, MirError>
    decreases order.len() - k,
{
    if k < 0 || k >= order.len() {
        Ok(w)
    } else if rels[order[k] as int].rel_name == computed_columns_name() {
        query_predicates_from(version, hash, uformat, rels, order, created, k + 1, w)
    } else {
        match relation_predicates_from(
            version,
            hash,
            uformat,
            rels[order[k] as int].predicates,
            created,
            0,
            w,
        ) {
            Err(e) => Err(e),
            Ok(w1) => query_predicates_from(version, hash, uformat, rels, order, created, k + 1, w1),
        }
    }
}

/// One copy of a query: the graph, the number of nodes that the query has
/// made, the nodes of the grouped operators with the TopK, the nodes of
/// the predicates, and the end of the copy.
pub ghost struct CopyResult {
    pub graph: Seq<MirNodeView>,
    pub count: int,
    pub func_nodes: Seq<usize>,
    pub predicate_nodes: Seq<usize>,
    pub final_node: usize,
}

/// The copy of the query over the end `frontier` of a policy chain.
#[verifier::opaque]
pub open spec fn query_copy(
    version: usize,
    name: Seq<char>,
    uformat: Seq<char>,
    qg: QueryGraphView,
    order: Seq<usize>,
    created: Seq<ConditionView>,
    order_by: Option<Seq<(ColumnView, OrderType)>>,
    limit: Option<LimitClause>,
    g: Seq<MirNodeView>,
    count: int,
    frontier: usize,
) -> Result<CopyResult, MirError> {
    match grouped_from(
        g,
        version,
        name,
        qg,
        computed_columns(qg),
        0,
        count as usize,
        frontier,
        Seq::empty(),
    ) {
        Err(e) => Err(e),
        Ok((g1, fnodes, prev1)) => match query_predicates_from(
            version,
            qg.signature_hash,
            uformat,
            qg.relations,
            order,
            created,
            0,
            Walk { graph: g1, count: count + fnodes.len(), prev: prev1, nodes: Seq::empty() },
        ) {
            Err(e) => Err(e),
            Ok(w) => match limit {
                None => Ok(
                    CopyResult {
                        graph: w.graph,
                        count: w.count,
                        func_nodes: fnodes,
                        predicate_nodes: w.nodes,
                        final_node: w.prev,
                    },
                ),
                Some(l) => match topk_node(
                    w.graph,
                    version,
                    numbered_query_name(qg.signature_hash, w.count as usize, uformat),
                    w.prev,
                    qg.parameters(),
                    order_by,
                    l,
                ) {
                    Err(e) => Err(e),
                    Ok(t) => Ok(
                        CopyResult {
                            graph: w.graph.push(t),
                            count: w.count + 1,
                            func_nodes: fnodes.push(w.graph.len() as usize),
                            predicate_nodes: w.nodes,
                            final_node: w.graph.len() as usize,
                        },
                    ),
                },
            },
        },
    }
}

/// All copies of a query: the graph, the number of nodes that the query
/// has made, all nodes of the query, and the ends of the copies behind
/// the views of the groups.
pub ghost struct Copies {
    pub graph: Seq<MirNodeView>,
    pub count: int,
    pub nodes_added: Seq<usize>,
    pub ancestors: Seq<usize>,
}

/// The copies of the query over the ends `frontier` of the policy chains
/// from position `m` on.
pub open spec fn copies_from(
    version: usize,
    name: Seq<char>,
    uformat: Seq<char>,
    qg: QueryGraphView,
    order: Seq<usize>,
    created: Seq<ConditionView>,
    order_by: Option<Seq<(ColumnView, OrderType)>>,
    limit: Option<LimitClause>,
    frontier: Seq<usize>,
    m: int,
    st: Copies,
) -> Result<Copies, MirError>
    decreases frontier.len() - m,
{
    if m < 0 || m >= frontier.len() {
        Ok(st)
    } else {
        match query_copy(
            version,
            name,
            uformat,
            qg,
            order,
            created,
            order_by,
            limit,
            st.graph,
            st.count,
            frontier[m],
        ) {
            Err(e) => Err(e),
            Ok(r) => copies_from(
                version,
                name,
                uformat,
                qg,
                order,
                created,
                order_by,
                limit,
                frontier,
                m + 1,
                Copies {
                    graph: r.graph,
                    count: r.count,
                    nodes_added: st.nodes_added + r.func_nodes + r.predicate_nodes,
                    ancestors: st.ancestors.push(r.final_node),
                },
            ),
        }
    }
}

/// What one copy of a query hands back.
pub struct QueryCopy {
    pub count: usize,
    pub func_nodes: Vec<MirNodeRef>,
    pub predicate_nodes: Vec<MirNodeRef>,
    pub final_node: MirNodeRef,
}

impl SqlToMirConverter {
    /// The chains for the predicates of one relation that `created` does
    /// not hold, stacked on `prev`.
    fn make_relation_predicates(
        &mut self,
        hash: u64,
        uformat: &str,
        preds: &Vec<ConditionExpression>,
        created: &Vec<ConditionExpression>,
        count: &mut usize,
        prev: &mut MirNodeRef,
        nodes: &mut Vec<MirNodeRef>,
        Ghost(base): Ghost<Seq<MirNodeView>>,
    ) -> (r: Result<(), MirError>)
        requires
            old(self)@.wf(),
            *old(count) <= old(self)@.graph.len(),
            grown(base, old(self)@.graph),
            all_new(base, old(self)@.graph, old(nodes)@),
        ensures
            final(self)@.wf(),
            grown(old(self)@.graph, final(self)@.graph),
            match relation_predicates_from(
                old(self)@.schema_version,
                hash,
                uformat@,
                preds.deep_view(),
                created.deep_view(),
                0,
                Walk {
                    graph: old(self)@.graph,
                    count: *old(count) as int,
                    prev: *old(prev),
                    nodes: old(nodes)@,
                },
            ) {
                Ok(w) => {
                    &&& r is Ok
                    &&& final(self)@ == old(self)@.with_graph(w.graph)
                    &&& *final(count) == w.count
                    &&& *final(prev) == w.prev
                    &&& final(nodes)@ == w.nodes
                    &&& all_new(base, w.graph, w.nodes)
                    &&& w.count <= w.graph.len()
                    &&& w.graph.len() - old(self)@.graph.len() == w.nodes.len() - old(nodes)@.len()
                    &&& w.count - *old(count) == w.nodes.len() - old(nodes)@.len()
                },
                Err(e) => r == Err::<(), MirError>(e) && final(self)@ == old(self)@,
            },
    {
        let ghost pre = self@;
        let ghost pv = preds.deep_view();
        let ghost count0 = *count;
        let ghost prev0 = *prev;
        let ghost nodes0 = nodes@;
        let start = self.graph.len();
        proof {
            lemma_grown_push(pre.graph, arbitrary());
        }
        let mut j: usize = 0;
        while j < preds.len()
            invariant
                j <= preds.len(),
                pv == preds.deep_view(),
                pre == old(self)@,
                count0 == *old(count),
                prev0 == *old(prev),
                nodes0 == old(nodes)@,
                pre.wf(),
                self@.wf(),
                self@ == pre.with_graph(self@.graph),
                grown(pre.graph, self@.graph),
                grown(base, pre.graph),
                start == pre.graph.len(),
                all_new(base, self@.graph, nodes@),
                *count <= self@.graph.len(),
                self@.graph.len() - pre.graph.len() == nodes@.len() - nodes0.len(),
                *count - count0 == nodes@.len() - nodes0.len(),
                relation_predicates_from(
                    pre.schema_version,
                    hash,
                    uformat@,
                    pv,
                    created.deep_view(),
                    0,
                    Walk { graph: pre.graph, count: count0 as int, prev: prev0, nodes: nodes0 },
                ) == relation_predicates_from(
                    pre.schema_version,
                    hash,
                    uformat@,
                    pv,
                    created.deep_view(),
                    j as int,
                    Walk { graph: self@.graph, count: *count as int, prev: *prev, nodes: nodes@ },
                ),
            decreases preds.len() - j,
        {
            assert(pv[j as int] == preds[j as int].deep_view());
            if !contains_condition(created, &preds[j]) {
                let chain_name = predicate_chain_name_string(hash, *count, j, uformat);
                let ghost g_before = self@.graph;
                let ghost nodes_before = nodes@;
                match self.make_predicate_nodes(chain_name.as_str(), *prev, &preds[j], 0) {
                    Err(e) => {
                        self.rollback(start, Ghost(pre));
                        return Err(e);
                    },
                    Ok(fns) => {
                        let total = self.graph.len();
                        assert(*count + fns.len() <= total);
                        *count = *count + fns.len();
                        *prev = fns[fns.len() - 1];
                        extend_refs(nodes, &fns);
                        proof {
                            lemma_grown_trans(pre.graph, g_before, self@.graph);
                            lemma_all_new_concat(base, g_before, self@.graph, nodes_before, fns@);
                        }
                    },
                }
            }
            j += 1;
        }
        Ok(())
    }

    /// The chains for the predicates of the query that `created` does not
    /// hold, relation by relation in the order `order`, stacked on
    /// `prev`.
    fn make_query_predicates(
        &mut self,
        qg: &QueryGraph,
        uformat: &str,
        order: &Vec<usize>,
        created: &Vec<ConditionExpression>,
        count: &mut usize,
        prev: &mut MirNodeRef,
    ) -> (r: Result<Vec<MirNodeRef>, MirError>)
        requires
            old(self)@.wf(),
            all_below(order@, qg.relations.len() as int),
            *old(count) <= old(self)@.graph.len(),
        ensures
            final(self)@.wf(),
            grown(old(self)@.graph, final(self)@.graph),
            match query_predicates_from(
                old(self)@.schema_version,
                qg.signature_hash,
                uformat@,
                qg.deep_view().relations,
                order@,
                created.deep_view(),
                0,
                Walk {
                    graph: old(self)@.graph,
                    count: *old(count) as int,
                    prev: *old(prev),
                    nodes: Seq::empty(),
                },
            ) {
                Ok(w) => {
                    &&& r is Ok
                    &&& r->Ok_0@ == w.nodes
                    &&& final(self)@ == old(self)@.with_graph(w.graph)
                    &&& *final(count) == w.count
                    &&& *final(prev) == w.prev
                    &&& all_new(old(self)@.graph, w.graph, w.nodes)
                    &&& w.count <= w.graph.len()
                    &&& w.graph.len() - old(self)@.graph.len() == w.nodes.len()
                    &&& w.count - *old(count) == w.nodes.len()
                },
                Err(e) => r == Err::<Vec<MirNodeRef>, MirError>(e) && final(self)@ == old(self)@,
            },
    {
        let ghost pre = self@;
        let ghost rels = qg.deep_view().relations;
        let ghost count0 = *count;
        let ghost prev0 = *prev;
        let start = self.graph.len();
        let mut nodes: Vec<MirNodeRef> = Vec::new();
        proof {
            lemma_grown_push(pre.graph, arbitrary());
            reveal_strlit("computed_columns");
        }
        let mut k: usize = 0;
        while k < order.len()
            invariant
                k <= order.len(),
                rels == qg.deep_view().relations,
                all_below(order@, qg.relations.len() as int),
                pre == old(self)@,
                count0 == *old(count),
                prev0 == *old(prev),
                pre.wf(),
                self@.wf(),
                self@ == pre.with_graph(self@.graph),
                grown(pre.graph, self@.graph),
                start == pre.graph.len(),
                all_new(pre.graph, self@.graph, nodes@),
                *count <= self@.graph.len(),
                self@.graph.len() - pre.graph.len() == nodes@.len(),
                *count - count0 == nodes@.len(),
                query_predicates_from(
                    pre.schema_version,
                    qg.signature_hash,
                    uformat@,
                    rels,
                    order@,
                    created.deep_view(),
                    0,
                    Walk {
                        graph: pre.graph,
                        count: count0 as int,
                        prev: prev0,
                        nodes: Seq::empty(),
                    },
                ) == query_predicates_from(
                    pre.schema_version,
                    qg.signature_hash,
                    uformat@,
                    rels,
                    order@,
                    created.deep_view(),
                    k as int,
                    Walk { graph: self@.graph, count: *count as int, prev: *prev, nodes: nodes@ },
                ),
            decreases order.len() - k,
        {
            assert(order@[k as int] < qg.relations.len());
            let rel = &qg.relations[order[k]];
            assert(rels[order@[k as int] as int] == rel.deep_view());
            if !str_same(rel.rel_name.as_str(), "computed_columns") {
                let ghost g_before = self@.graph;
                match self.make_relation_predicates(
                    qg.signature_hash,
                    uformat,
                    &rel.predicates,
                    created,
                    count,
                    prev,
                    &mut nodes,
                    Ghost(pre.graph),
                ) {
                    Err(e) => {
                        self.rollback(start, Ghost(pre));
                        return Err(e);
                    },
                    Ok(()) => {
                        proof {
                            lemma_grown_trans(pre.graph, g_before, self@.graph);
                        }
                    },
                }
            }
            k += 1;
        }
        Ok(nodes)
    }

    /// One copy of the query over the end `frontier` of a policy chain.
    /// `count` nodes of the query were made before.
    pub(crate) fn make_query_copy(
        &mut self,
        name: &str,
        uformat: &str,
        qg: &QueryGraph,
        order: &Vec<usize>,
        created: &Vec<ConditionExpression>,
        st: &SelectStatement,
        count: usize,
        frontier: MirNodeRef,
    ) -> (r: Result<QueryCopy, MirError>)
        requires
            old(self)@.wf(),
            all_below(order@, qg.relations.len() as int),
            count <= old(self)@.graph.len(),
        ensures
            final(self)@.wf(),
            grown(old(self)@.graph, final(self)@.graph),
            match query_copy(
                old(self)@.schema_version,
                name@,
                uformat@,
                qg.deep_view(),
                order@,
                created.deep_view(),
                crate::ast::order_view(st.order),
                st.limit,
                old(self)@.graph,
                count as int,
                frontier,
            ) {
                Ok(c) => {
                    &&& r is Ok
                    &&& final(self)@ == old(self)@.with_graph(c.graph)
                    &&& r->Ok_0.count == c.count
                    &&& r->Ok_0.func_nodes@ == c.func_nodes
                    &&& r->Ok_0.predicate_nodes@ == c.predicate_nodes
                    &&& r->Ok_0.final_node == c.final_node
                    &&& all_new(old(self)@.graph, c.graph, c.func_nodes)
                    &&& all_new(old(self)@.graph, c.graph, c.predicate_nodes)
                    &&& c.count <= c.graph.len()
                    &&& c.graph.len() - old(self)@.graph.len() == c.func_nodes.len()
                        + c.predicate_nodes.len()
                },
                Err(e) => r is Err && r->Err_0 == e && final(self)@ == old(self)@,
            },
    {
        let ghost pre = self@;
        let start = self.graph.len();
        proof {
            reveal(query_copy);
            lemma_grown_push(pre.graph, arbitrary());
        }
        let mut prev = frontier;
        let mut func_nodes = match self.make_grouped(name, qg, count, &mut prev) {
            Ok(f) => f,
            Err(e) => {
                return Err(e);
            },
        };
        let ghost g1 = self@.graph;
        let total = self.graph.len();
        assert(count + func_nodes.len() <= total);
        let mut count = count + func_nodes.len();
        let predicate_nodes = match self.make_query_predicates(
            qg,
            uformat,
            order,
            created,
            &mut count,
            &mut prev,
        ) {
            Ok(p) => p,
            Err(e) => {
                self.rollback(start, Ghost(pre));
                return Err(e);
            },
        };
        let ghost g2 = self@.graph;
        proof {
            lemma_grown_trans(pre.graph, g1, g2);
            assert(all_new(pre.graph, g2, func_nodes@)) by {
                assert forall|k: int| 0 <= k < func_nodes@.len() implies pre.graph.len()
                    <= #[trigger] func_nodes@[k] < g2.len() by {}
            }
            assert(all_new(pre.graph, g2, predicate_nodes@)) by {
                assert forall|k: int| 0 <= k < predicate_nodes@.len() implies pre.graph.len()
                    <= #[trigger] predicate_nodes@[k] < g2.len() by {}
            }
        }
        let mut final_node = prev;
        match st.limit {
            None => {},
            Some(limit) => {
                let node_name = numbered_query_name_string(qg.signature_hash, count, uformat);
                let group_by = qg.parameters();
                match self.make_topk_node(node_name.as_str(), final_node, group_by, &st.order, &limit) {
                    Err(e) => {
                        self.rollback(start, Ghost(pre));
                        return Err(e);
                    },
                    Ok(node) => {
                        let ghost before = func_nodes@;
                        func_nodes.push(node);
                        final_node = node;
                        let total = self.graph.len();
                        assert(count + 1 <= total);
                        count = count + 1;
                        proof {
                            lemma_grown_push(g2, self@.graph.last());
                            lemma_grown_trans(pre.graph, g2, self@.graph);
                            assert(all_new(pre.graph, self@.graph, func_nodes@)) by {
                                assert forall|k: int| 0 <= k < func_nodes@.len() implies pre.graph.len()
                                    <= #[trigger] func_nodes@[k] < self@.graph.len() by {
                                    if k < before.len() {
                                        assert(func_nodes@[k] == before[k]);
                                    }
                                }
                            }
                            assert(all_new(pre.graph, self@.graph, predicate_nodes@)) by {
                                assert forall|k: int|
                                    0 <= k < predicate_nodes@.len() implies pre.graph.len()
                                    <= #[trigger] predicate_nodes@[k] < self@.graph.len() by {}
                            }
                        }
                    },
                }
            },
        }
        Ok(QueryCopy { count, func_nodes, predicate_nodes, final_node })
    }
}

} // verus!
