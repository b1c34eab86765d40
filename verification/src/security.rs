//! The security boundary of a query: the row policies of the universe,
//! applied to what the query has built so far, and the union that brings
//! the copies of a query together again.
use crate::converter::{assoc_index, assoc_put, find_name, SqlToMirConverter};
use crate::ast::{ConditionExpression, ConditionView};
use crate::factory::{one_made, union_node};
use crate::grouping::clone_conditions;
use crate::join::{numbered, numbered_name};
use crate::node::{MirNodeRef, MirNodeView};
use crate::predicates::{
    all_new, extend_refs, grown, lemma_all_new_concat, lemma_grown_push, lemma_grown_trans,
    predicate_nodes,
};
use crate::text::{joined3, decimal, decimal_string};
use crate::universe::RowPolicyView;
use crate::value::MirError;
use vstd::prelude::*;

verus! {

/// The name of the chains of policy `k` in the query named `name`.
pub open spec fn policy_name(name: Seq<char>, k: usize) -> Seq<char> {
    name + "_sp"@ + decimal(k as nat)
}

/// The name of the chain of predicate `j` of the policy named `name`.
pub open spec fn policy_predicate_name(name: Seq<char>, j: usize) -> Seq<char> {
    name + "_p"@ + decimal(j as nat)
}

/// The chains for the predicates `preds` of one policy from position `j`
/// on, each over the end of the one before, the first over `prev`: the
/// graph, all nodes, and the end of the last chain.
pub open spec fn policy_chain(
    g: Seq<MirNodeView>,
    version: usize,
    name: Seq<char>,
    preds: Seq<ConditionView>,
    j: int,
    prev: usize,
    acc: Seq<usize>,
) -> Result<(Seq<MirNodeView>, Seq<usize>, usize), MirError>
    decreases preds.len() - j,
{
    if j < 0 || j >= preds.len() {
        Ok((g, acc, prev))
    } else {
        match predicate_nodes(g, version, policy_predicate_name(name, j as usize), prev, preds[j], 0) {
            Err(e) => Err(e),
            Ok((g1, ns)) => policy_chain(g1, version, name, preds, j + 1, ns.last(), acc + ns),
        }
    }
}

/// A policy applies to a query when it has predicates and the query reads
/// its table.
pub open spec fn policy_applies(p: RowPolicyView, node_for_rel: Seq<(Seq<char>, usize)>) -> bool {
    p.predicates.len() > 0 && assoc_index(node_for_rel, p.table) is Some
}

/// A security boundary: the graph with the nodes of the policies, the
/// node of each relation behind the boundary, the ends of the policy
/// chains, and all nodes of the policies.
pub ghost struct Boundary {
    pub graph: Seq<MirNodeView>,
    pub node_for_rel: Seq<(Seq<char>, usize)>,
    pub last_nodes: Seq<usize>,
    pub nodes: Seq<usize>,
}

/// The boundary after the policies from position `k` on were applied.
/// Each policy that applies gets a chain of its predicates over `prev`;
/// the end of the chain becomes the node of the policy's table.
pub open spec fn security_from(
    version: usize,
    name: Seq<char>,
    policies: Seq<RowPolicyView>,
    k: int,
    prev: usize,
    st: Boundary,
) -> Result<Boundary, MirError>
    decreases policies.len() - k,
{
    if k < 0 || k >= policies.len() {
        Ok(st)
    } else if !policy_applies(policies[k], st.node_for_rel) {
        security_from(version, name, policies, k + 1, prev, st)
    } else {
        match policy_chain(
            st.graph,
            version,
            policy_name(name, k as usize),
            policies[k].predicates,
            0,
            prev,
            Seq::empty(),
        ) {
            Err(e) => Err(e),
            Ok((g1, ns, end)) => security_from(
                version,
                name,
                policies,
                k + 1,
                prev,
                Boundary {
                    graph: g1,
                    node_for_rel: assoc_put(st.node_for_rel, policies[k].table, end),
                    last_nodes: st.last_nodes.push(end),
                    nodes: st.nodes + ns,
                },
            ),
        }
    }
}

/// The security boundary of a query over `prev`. Without a policy that
/// applies, `prev` alone is the frontier and no node is made.
pub open spec fn security_boundary(
    g: Seq<MirNodeView>,
    version: usize,
    name: Seq<char>,
    policies: Seq<RowPolicyView>,
    node_for_rel: Seq<(Seq<char>, usize)>,
    prev: usize,
) -> Result<Boundary, MirError> {
    match security_from(
        version,
        name,
        policies,
        0,
        prev,
        Boundary { graph: g, node_for_rel, last_nodes: Seq::empty(), nodes: Seq::empty() },
    ) {
        Err(e) => Err(e),
        Ok(b) => Ok(
            Boundary {
                last_nodes: if b.last_nodes.len() == 0 {
                    seq![prev]
                } else {
                    b.last_nodes
                },
                ..b
            },
        ),
    }
}

/// What `make_security_boundary` hands back.
#[derive(Debug, PartialEq, Eq)]
pub struct SecurityNodes {
    /// The node of each relation behind the boundary.
    pub node_for_rel: Vec<(String, MirNodeRef)>,
    /// The frontier: the ends of the policy chains.
    pub last_policy_nodes: Vec<MirNodeRef>,
    /// All nodes of the policies.
    pub policy_nodes: Vec<MirNodeRef>,
}

/// Binds `name` to `node`: in place where the name is bound, else at the
/// end.
pub fn put_node(m: &mut Vec<(String, MirNodeRef)>, name: &str, node: MirNodeRef)
    ensures
        final(m).deep_view() == assoc_put(old(m).deep_view(), name@, node),
{
    let ghost before = m.deep_view();
    match find_name(m, name) {
        Some(i) => {
            m.remove(i);
            m.insert(i, (name.to_owned(), node));
            assert(m.deep_view() =~= before.update(i as int, (name@, node)));
        },
        None => {
            m.push((name.to_owned(), node));
            assert(m.deep_view() =~= before.push((name@, node)));
        },
    }
}

/// A copy of the nodes of the relations.
pub fn clone_node_map(m: &Vec<(String, MirNodeRef)>) -> (r: Vec<(String, MirNodeRef)>)
    ensures
        r.deep_view() == m.deep_view(),
{
    let mut out: Vec<(String, MirNodeRef)> = Vec::new();
    let mut i: usize = 0;
    while i < m.len()
        invariant
            i <= m.len(),
            out.len() == i,
            forall|k: int| 0 <= k < i ==> out[k].deep_view() == m[k].deep_view(),
        decreases m.len() - i,
    {
        out.push((m[i].0.clone(), m[i].1));
        i += 1;
    }
    assert(out.deep_view() =~= m.deep_view());
    out
}

impl SqlToMirConverter {
    /// The chains for the predicates of one policy, stacked on `prev`.
    fn make_policy_chain(&mut self, name: &str, preds: &Vec<ConditionExpression>, prev: MirNodeRef) -> (r:
        Result<(Vec<MirNodeRef>, MirNodeRef), MirError>)
        requires
            old(self)@.wf(),
        ensures
            final(self)@.wf(),
            grown(old(self)@.graph, final(self)@.graph),
            match policy_chain(
                old(self)@.graph,
                old(self)@.schema_version,
                name@,
                preds.deep_view(),
                0,
                prev,
                Seq::empty(),
            ) {
                Ok((g, nodes, end)) => {
                    &&& r is Ok
                    &&& r->Ok_0.0@ == nodes
                    &&& r->Ok_0.1 == end
                    &&& final(self)@ == old(self)@.with_graph(g)
                    &&& all_new(old(self)@.graph, g, nodes)
                    &&& old(self)@.graph.len() + nodes.len() == g.len()
                },
                Err(e) => {
                    &&& r == Err::<(Vec<MirNodeRef>, MirNodeRef), MirError>(e)
                    &&& final(self)@ == old(self)@
                },
            },
    {
        let ghost pre = self@;
        let ghost pv = preds.deep_view();
        let start = self.graph.len();
        let mut nodes: Vec<MirNodeRef> = Vec::new();
        let mut end = prev;
        proof {
            lemma_grown_push(pre.graph, arbitrary());
        }
        let mut j: usize = 0;
        while j < preds.len()
            invariant
                j <= preds.len(),
                pv == preds.deep_view(),
                pre == old(self)@,
                pre.wf(),
                self@.wf(),
                self@ == pre.with_graph(self@.graph),
                grown(pre.graph, self@.graph),
                start == pre.graph.len(),
                all_new(pre.graph, self@.graph, nodes@),
                pre.graph.len() + nodes@.len() == self@.graph.len(),
                policy_chain(pre.graph, pre.schema_version, name@, pv, 0, prev, Seq::empty())
                    == policy_chain(
                    self@.graph,
                    pre.schema_version,
                    name@,
                    pv,
                    j as int,
                    end,
                    nodes@,
                ),
            decreases preds.len() - j,
        {
            assert(pv[j as int] == preds[j as int].deep_view());
            let number = decimal_string(j as u64);
            let chain_name = joined3(name, "_p", number.as_str());
            let ghost g_before = self@.graph;
            let ghost nodes_before = nodes@;
            match self.make_predicate_nodes(chain_name.as_str(), end, &preds[j], 0) {
                Err(e) => {
                    self.rollback(start, Ghost(pre));
                    return Err(e);
                },
                Ok(fns) => {
                    end = fns[fns.len() - 1];
                    extend_refs(&mut nodes, &fns);
                    proof {
                        lemma_grown_trans(pre.graph, g_before, self@.graph);
                        lemma_all_new_concat(pre.graph, g_before, self@.graph, nodes_before, fns@);
                    }
                },
            }
            j += 1;
        }
        Ok((nodes, end))
    }

    /// The security boundary of the query named `name` over `prev_node`:
    /// one chain per row policy of the universe that applies to a relation
    /// of the query. `node_for_rel` gives the node of each relation; what
    /// is handed back gives the nodes behind the boundary.
    pub fn make_security_boundary(
        &mut self,
        name: &str,
        node_for_rel: &Vec<(String, MirNodeRef)>,
        prev_node: MirNodeRef,
    ) -> (r: Result<SecurityNodes, MirError>)
        requires
            old(self)@.wf(),
        ensures
            final(self)@.wf(),
            grown(old(self)@.graph, final(self)@.graph),
            match security_boundary(
                old(self)@.graph,
                old(self)@.schema_version,
                name@,
                old(self)@.universe.row_policies,
                node_for_rel.deep_view(),
                prev_node,
            ) {
                Ok(b) => {
                    &&& r is Ok
                    &&& r->Ok_0.node_for_rel.deep_view() == b.node_for_rel
                    &&& r->Ok_0.last_policy_nodes@ == b.last_nodes
                    &&& r->Ok_0.policy_nodes@ == b.nodes
                    &&& final(self)@ == old(self)@.with_graph(b.graph)
                    &&& all_new(old(self)@.graph, b.graph, b.nodes)
                    &&& old(self)@.graph.len() + b.nodes.len() == b.graph.len()
                    &&& b.last_nodes.len() > 0
                },
                Err(e) => {
                    &&& r == Err::<SecurityNodes, MirError>(e)
                    &&& final(self)@ == old(self)@
                },
            },
    {
        let ghost pre = self@;
        let ghost policies = pre.universe.row_policies;
        let ghost nfr0 = node_for_rel.deep_view();
        let start = self.graph.len();
        let mut behind = clone_node_map(node_for_rel);
        let mut last_policy_nodes: Vec<MirNodeRef> = Vec::new();
        let mut policy_nodes: Vec<MirNodeRef> = Vec::new();
        proof {
            lemma_grown_push(pre.graph, arbitrary());
        }
        let mut k: usize = 0;
        while k < self.universe.row_policies.len()
            invariant
                k <= self.universe.row_policies.len(),
                policies == self.universe.row_policies.deep_view(),
                policies == pre.universe.row_policies,
                nfr0 == node_for_rel.deep_view(),
                pre == old(self)@,
                pre.wf(),
                self@.wf(),
                self@ == pre.with_graph(self@.graph),
                grown(pre.graph, self@.graph),
                start == pre.graph.len(),
                all_new(pre.graph, self@.graph, policy_nodes@),
                pre.graph.len() + policy_nodes@.len() == self@.graph.len(),
                security_from(
                    pre.schema_version,
                    name@,
                    policies,
                    0,
                    prev_node,
                    Boundary {
                        graph: pre.graph,
                        node_for_rel: nfr0,
                        last_nodes: Seq::empty(),
                        nodes: Seq::empty(),
                    },
                ) == security_from(
                    pre.schema_version,
                    name@,
                    policies,
                    k as int,
                    prev_node,
                    Boundary {
                        graph: self@.graph,
                        node_for_rel: behind.deep_view(),
                        last_nodes: last_policy_nodes@,
                        nodes: policy_nodes@,
                    },
                ),
            decreases self.universe.row_policies.len() - k,
        {
            assert(policies[k as int] == self.universe.row_policies[k as int].deep_view());
            let applies = self.universe.row_policies[k].predicates.len() > 0 && find_name(
                &behind,
                self.universe.row_policies[k].table.as_str(),
            ).is_some();
            assert(policies[k as int].predicates.len()
                == self.universe.row_policies[k as int].predicates.len());
            assert(applies == policy_applies(policies[k as int], behind.deep_view()));
            if applies {
                let preds = clone_conditions(&self.universe.row_policies[k].predicates);
                assert(preds.deep_view() == policies[k as int].predicates);
                let table = self.universe.row_policies[k].table.clone();
                let number = decimal_string(k as u64);
                let chain_name = joined3(name, "_sp", number.as_str());
                let ghost g_before = self@.graph;
                let ghost nodes_before = policy_nodes@;
                match self.make_policy_chain(chain_name.as_str(), &preds, prev_node) {
                    Err(e) => {
                        self.rollback(start, Ghost(pre));
                        return Err(e);
                    },
                    Ok((ns, end)) => {
                        put_node(&mut behind, table.as_str(), end);
                        last_policy_nodes.push(end);
                        extend_refs(&mut policy_nodes, &ns);
                        proof {
                            lemma_grown_trans(pre.graph, g_before, self@.graph);
                            lemma_all_new_concat(
                                pre.graph,
                                g_before,
                                self@.graph,
                                nodes_before,
                                ns@,
                            );
                        }
                    },
                }
            }
            k += 1;
        }
        if last_policy_nodes.len() == 0 {
            last_policy_nodes.push(prev_node);
            assert(last_policy_nodes@ =~= seq![prev_node]);
        }
        Ok(SecurityNodes { node_for_rel: behind, last_policy_nodes, policy_nodes })
    }

    /// The union that brings the copies of the query named `name`
    /// together; `node_count` is the number by which it is named.
    pub fn reconcile(&mut self, name: &str, ancestors: &Vec<MirNodeRef>, node_count: usize) -> (r:
        Result<MirNodeRef, MirError>)
        requires
            old(self)@.wf(),
        ensures
            final(self)@.wf(),
            one_made(
                old(self)@,
                final(self)@,
                r,
                union_node(
                    old(self)@.graph,
                    old(self)@.schema_version,
                    numbered(name@, node_count),
                    ancestors@,
                ),
            ),
    {
        let node_name = numbered_name(name, node_count);
        self.make_union_node(node_name.as_str(), ancestors)
    }
}

} // verus!
