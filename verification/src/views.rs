//! Queries that are built on queries: a further reader below the leaf of
//! a query, and the union of several queries.
use crate::ast::{
    Column, ColumnView, CompoundSelectOperator, LimitClause, OrderClause, OrderType,
};
use crate::query::{MirQuery, MirQueryView};
use crate::converter::{ConverterView, SqlToMirConverter};
use crate::factory::{concat_columns, sanitize_leaf_columns, sanitized_all, union_node};
use crate::graph::{clone_columns, reuse_of};
use crate::node::{MirNodeRef, MirNodeType, MirNodeTypeView, MirNodeView};
use crate::predicates::{extend_refs, lemma_grown_push};
use crate::project::{leaf_node, topk_node};
use crate::text::joined;
use crate::value::MirError;
use vstd::prelude::*;

verus! {

/// The node between the Reuse node `parent` and a further leaf: with
/// `reproject` a projection of `columns`, named after the leaf with
/// `_reproject`; else an identity, named with `_id`.
pub open spec fn below_node(
    version: usize,
    name: Seq<char>,
    parent: usize,
    columns: Seq<ColumnView>,
    reproject: bool,
) -> MirNodeView {
    if reproject {
        MirNodeView::fresh(
            name + "_reproject"@,
            version,
            columns,
            MirNodeTypeView::Project {
                emit: columns,
                arithmetic: Seq::empty(),
                literals: Seq::empty(),
            },
            seq![parent],
        )
    } else {
        MirNodeView::fresh(name + "_id"@, version, columns, MirNodeTypeView::Identity, seq![parent])
    }
}

/// The roots of the first `n` queries, query by query.
pub open spec fn roots_among_queries(sqs: Seq<MirQueryView>, n: int) -> Seq<usize>
    decreases n,
{
    if n <= 0 {
        Seq::empty()
    } else {
        roots_among_queries(sqs, n - 1) + sqs[n - 1].roots
    }
}

/// The leaves of the queries.
pub open spec fn leaves_of(sqs: Seq<MirQueryView>) -> Seq<usize> {
    Seq::new(sqs.len(), |i: int| sqs[i].leaf)
}

impl ConverterView {
    /// The state and the query after `add_leaf_below`: a Reuse node over
    /// `prior_leaf`, a projection or an identity over it, and the leaf
    /// `name` on top, keyed on `params` and registered. A handle that is
    /// not of this graph is refused, and so is a graph without room for
    /// three more nodes.
    ///
    /// With `project_columns` the node in between projects those columns
    /// and then `params`; without, it is an identity with the columns of
    /// `prior_leaf`.
    pub open spec fn leaf_below(
        self,
        prior_leaf: usize,
        name: Seq<char>,
        params: Seq<ColumnView>,
        project_columns: Option<Seq<ColumnView>>,
    ) -> Result<(ConverterView, MirQueryView), MirError> {
        if prior_leaf >= self.graph.len() {
            Err(MirError::UnknownView)
        } else if self.graph.len() + 2 > usize::MAX {
            Err(MirError::InvariantViolation)
        } else {
            let parent = self.graph.len() as usize;
            let columns = match project_columns {
                None => self.graph[prior_leaf as int].columns,
                Some(pc) => pc + params,
            };
            let g = self.graph.push(reuse_of(self.graph, prior_leaf, self.schema_version)).push(
                below_node(self.schema_version, name, parent, columns, project_columns is Some),
            ).push(
                MirNodeView::fresh(
                    name,
                    self.schema_version,
                    sanitized_all(columns, name),
                    MirNodeTypeView::Leaf { node: parent, keys: params },
                    seq![(parent + 1) as usize],
                ),
            );
            Ok(
                (
                    self.with_graph(g).register(name, (parent + 2) as usize),
                    MirQueryView { name, roots: seq![parent], leaf: (parent + 2) as usize },
                ),
            )
        }
    }

    /// The state and the query after `compound_query_to_mir`: a union of
    /// the leaves of the queries `sqs`; with a LIMIT a TopK above it; with
    /// `has_leaf` a leaf without keys on top. The last of these nodes has
    /// the name `name` and is the leaf of the query; the union below a
    /// TopK or a leaf is named with `_union`, the TopK below a leaf with
    /// `_topk`. Every node is registered under its name. Only UNION is
    /// supported, and the graph must have room for three more nodes.
    pub open spec fn compound(
        self,
        name: Seq<char>,
        sqs: Seq<MirQueryView>,
        op: CompoundSelectOperator,
        order_by: Option<Seq<(ColumnView, OrderType)>>,
        limit: Option<LimitClause>,
        has_leaf: bool,
    ) -> Result<(ConverterView, MirQueryView), MirError> {
        let v = self.schema_version;
        let union_name = if !has_leaf && limit is None {
            name
        } else {
            name + "_union"@
        };
        let topk_name = if !has_leaf {
            name
        } else {
            name + "_topk"@
        };
        if op != CompoundSelectOperator::Union {
            Err(MirError::Unsupported)
        } else if self.graph.len() + 2 > usize::MAX {
            Err(MirError::InvariantViolation)
        } else {
            match union_node(self.graph, v, union_name, leaves_of(sqs)) {
                Err(e) => Err(e),
                Ok(u) => {
                    let uid = self.graph.len() as usize;
                    let g1 = self.graph.push(u);
                    let sanitized = sanitized_all(u.columns, name);
                    let topk = match limit {
                        None => None,
                        Some(l) => Some(
                            topk_node(
                                g1,
                                v,
                                topk_name,
                                uid,
                                if !has_leaf {
                                    sanitized
                                } else {
                                    u.columns
                                },
                                order_by,
                                l,
                            ),
                        ),
                    };
                    match topk {
                        Some(Err(e)) => Err(e),
                        _ => {
                            let g2 = match topk {
                                Some(Ok(t)) => g1.push(t),
                                _ => g1,
                            };
                            let top = (g2.len() - 1) as usize;
                            let g3 = if has_leaf {
                                g2.push(
                                    MirNodeView::fresh(
                                        name,
                                        v,
                                        sanitized,
                                        MirNodeTypeView::Leaf { node: top, keys: Seq::empty() },
                                        seq![top],
                                    ),
                                )
                            } else {
                                g2
                            };
                            let leaf = (g3.len() - 1) as usize;
                            let c1 = self.with_graph(g3).remember(union_name, uid);
                            let c2 = if limit is Some {
                                c1.remember(topk_name, (uid + 1) as usize)
                            } else {
                                c1
                            };
                            Ok(
                                (
                                    c2.register(name, leaf),
                                    MirQueryView {
                                        name,
                                        roots: roots_among_queries(sqs, sqs.len() as int),
                                        leaf,
                                    },
                                ),
                            )
                        },
                    }
                },
            }
        }
    }
}

/// Every root of the first `n` queries is a root of one of them.
pub proof fn lemma_root_of_some_query(sqs: Seq<MirQueryView>, n: int, k: int) -> (r: (int, int))
    requires
        0 <= n <= sqs.len(),
        0 <= k < roots_among_queries(sqs, n).len(),
    ensures
        0 <= r.0 < n,
        0 <= r.1 < sqs[r.0].roots.len(),
        roots_among_queries(sqs, n)[k] == sqs[r.0].roots[r.1],
    decreases n,
{
    let before = roots_among_queries(sqs, n - 1);
    if k < before.len() {
        lemma_root_of_some_query(sqs, n - 1, k)
    } else {
        (n - 1, k - before.len())
    }
}

/// The roots of the queries, query by query.
pub fn roots_of_queries(sqs: &Vec<&MirQuery>) -> (r: Vec<MirNodeRef>)
    ensures
        r@ == roots_among_queries(sqs.deep_view(), sqs.len() as int),
{
    let mut roots: Vec<MirNodeRef> = Vec::new();
    let mut i: usize = 0;
    while i < sqs.len()
        invariant
            i <= sqs.len(),
            roots@ == roots_among_queries(sqs.deep_view(), i as int),
        decreases sqs.len() - i,
    {
        assert(sqs.deep_view()[i as int].roots == sqs[i as int].roots@);
        extend_refs(&mut roots, &sqs[i].roots);
        i += 1;
    }
    roots
}

/// The leaves of the queries.
pub fn leaves_of_queries(sqs: &Vec<&MirQuery>) -> (r: Vec<MirNodeRef>)
    ensures
        r@ == leaves_of(sqs.deep_view()),
{
    let mut leaves: Vec<MirNodeRef> = Vec::new();
    let mut i: usize = 0;
    while i < sqs.len()
        invariant
            i <= sqs.len(),
            leaves.len() == i,
            forall|k: int| 0 <= k < i ==> leaves@[k] == sqs[k].leaf,
        decreases sqs.len() - i,
    {
        leaves.push(sqs[i].leaf);
        i += 1;
    }
    assert(leaves@ =~= leaves_of(sqs.deep_view()));
    leaves
}

fn one_ref(node: MirNodeRef) -> (r: Vec<MirNodeRef>)
    ensures
        r@ == seq![node],
{
    let mut refs: Vec<MirNodeRef> = Vec::new();
    refs.push(node);
    assert(refs@ =~= seq![node]);
    refs
}

impl SqlToMirConverter {
    /// Hangs a further leaf named `name`, keyed on `params`, below the
    /// node `prior_leaf`. With `project_columns` the leaf reads a
    /// projection of those columns and of `params`; without, `prior_leaf`
    /// is a projection already and the leaf reads its columns.
    pub fn add_leaf_below(
        &mut self,
        prior_leaf: MirNodeRef,
        name: &str,
        params: &Vec<Column>,
        project_columns: Option<Vec<Column>>,
    ) -> (r: Result<MirQuery, MirError>)
        requires
            old(self)@.wf(),
        ensures
            final(self)@.wf(),
            match old(self)@.leaf_below(
                prior_leaf,
                name@,
                params.deep_view(),
                project_columns.deep_view(),
            ) {
                Ok((c, q)) => r is Ok && r->Ok_0.deep_view() == q && final(self)@ == c,
                Err(e) => r is Err && r->Err_0 == e && final(self)@ == old(self)@,
            },
            r is Ok ==> r->Ok_0.deep_view().wf(final(self)@.graph),
    {
        if prior_leaf >= self.graph.len() {
            return Err(MirError::UnknownView);
        }
        if self.graph.len() > usize::MAX - 2 {
            return Err(MirError::InvariantViolation);
        }
        let parent_columns = clone_columns(&self.graph.node(prior_leaf).columns);
        let parent = self.graph.reuse(prior_leaf, self.schema_version);
        let (reproject, columns) = match project_columns {
            None => (false, parent_columns),
            Some(pc) => (true, concat_columns(&pc, params)),
        };
        let n = if reproject {
            let literals: Vec<(String, crate::value::DataType)> = Vec::new();
            let arithmetic: Vec<(String, crate::ast::ArithmeticExpression)> = Vec::new();
            assert(literals.deep_view() =~= Seq::empty());
            assert(arithmetic.deep_view() =~= Seq::empty());
            self.new_node(
                joined(name, "_reproject"),
                clone_columns(&columns),
                MirNodeType::Project { emit: clone_columns(&columns), arithmetic, literals },
                one_ref(parent),
            )
        } else {
            self.new_node(
                joined(name, "_id"),
                clone_columns(&columns),
                MirNodeType::Identity,
                one_ref(parent),
            )
        };
        let new_leaf = self.new_node(
            name.to_owned(),
            sanitize_leaf_columns(&columns, name),
            MirNodeType::Leaf { node: parent, keys: clone_columns(params) },
            one_ref(n),
        );
        self.register_node(name, new_leaf);
        let total = self.graph.len();
        proof {
            let g = self@.graph;
            crate::laws::lemma_last_has_no_child(g);
            assert(g[new_leaf as int].ancestors[0] == n);
            assert(g[n as int].ancestors[0] == parent);
            assert(crate::laws::reaches(g, parent, parent));
            assert(crate::laws::reaches(g, n, parent));
            assert(crate::laws::reaches(g, new_leaf, parent));
        }
        Ok(MirQuery { name: name.to_owned(), roots: one_ref(parent), leaf: new_leaf })
    }

    /// The union of the queries `sqs` as a query named `name`, with a
    /// TopK above the union where `limit` is given and a leaf on top with
    /// `has_leaf`.
    pub fn compound_query_to_mir(
        &mut self,
        name: &str,
        sqs: Vec<&MirQuery>,
        op: CompoundSelectOperator,
        order: &Option<OrderClause>,
        limit: &Option<LimitClause>,
        has_leaf: bool,
    ) -> (r: Result<MirQuery, MirError>)
        requires
            old(self)@.wf(),
        ensures
            final(self)@.wf(),
            match old(self)@.compound(
                name@,
                sqs.deep_view(),
                op,
                crate::ast::order_view(*order),
                *limit,
                has_leaf,
            ) {
                Ok((c, q)) => r is Ok && r->Ok_0.deep_view() == q && final(self)@ == c,
                Err(e) => r is Err && r->Err_0 == e && final(self)@ == old(self)@,
            },
            r is Ok && (forall|i: int|
                0 <= i < sqs.len() ==> (#[trigger] sqs.deep_view()[i]).connected(old(self)@.graph))
                ==> r->Ok_0.deep_view().wf(final(self)@.graph),
    {
        let ghost pre = self@;
        let start = self.graph.len();
        proof {
            lemma_grown_push(pre.graph, arbitrary());
        }
        let union_name = if !has_leaf && limit.is_none() {
            name.to_owned()
        } else {
            joined(name, "_union")
        };
        let topk_name = if !has_leaf {
            name.to_owned()
        } else {
            joined(name, "_topk")
        };
        match op {
            CompoundSelectOperator::Union => {},
            _ => {
                return Err(MirError::Unsupported);
            },
        }
        if self.graph.len() > usize::MAX - 2 {
            return Err(MirError::InvariantViolation);
        }
        let leaves = leaves_of_queries(&sqs);
        let union = match self.make_union_node(union_name.as_str(), &leaves) {
            Ok(u) => u,
            Err(e) => {
                return Err(e);
            },
        };
        let ghost g1 = self@.graph;
        proof {
            lemma_grown_push(pre.graph, g1.last());
        }
        let columns = clone_columns(&self.graph.node(union).columns);
        let sanitized_columns = sanitize_leaf_columns(&columns, name);
        let mut final_node = union;
        match limit {
            None => {},
            Some(l) => {
                let topk_columns = if !has_leaf {
                    clone_columns(&sanitized_columns)
                } else {
                    clone_columns(&columns)
                };
                match self.make_topk_node(topk_name.as_str(), union, topk_columns, order, l) {
                    Err(e) => {
                        self.rollback(start, Ghost(pre));
                        return Err(e);
                    },
                    Ok(t) => {
                        final_node = t;
                    },
                }
            },
        }
        let leaf_node = if has_leaf {
            let keys: Vec<Column> = Vec::new();
            assert(keys.deep_view() =~= Seq::empty());
            self.new_node(
                name.to_owned(),
                sanitized_columns,
                MirNodeType::Leaf { node: final_node, keys },
                one_ref(final_node),
            )
        } else {
            final_node
        };
        self.remember(union_name.as_str(), union);
        if limit.is_some() {
            self.remember(topk_name.as_str(), union + 1);
        }
        self.register_node(name, leaf_node);
        let roots = roots_of_queries(&sqs);
        let total = self.graph.len();
        proof {
            let g = self@.graph;
            let sv = sqs.deep_view();
            crate::laws::lemma_last_has_no_child(g);
            assert(g[union as int].ancestors == leaves@);
            assert(crate::laws::reaches(g, final_node, union)) by {
                if final_node != union {
                    assert(g[final_node as int].ancestors[0] == union);
                    assert(crate::laws::reaches(g, union, union));
                }
            }
            assert(crate::laws::reaches(g, leaf_node, union)) by {
                if leaf_node != final_node {
                    assert(g[leaf_node as int].ancestors[0] == final_node);
                }
            }
            if forall|i: int| 0 <= i < sqs.len() ==> (#[trigger] sv[i]).connected(pre.graph) {
                assert forall|k: int| 0 <= k < roots@.len() implies (#[trigger] roots@[k]) < g.len()
                    && crate::laws::reaches(g, leaf_node, roots@[k]) by {
                    let (i, j) = lemma_root_of_some_query(sv, sv.len() as int, k);
                    assert(sv[i].connected(pre.graph));
                    assert(sv[i].roots[j] < pre.graph.len());
                    assert(crate::laws::reaches(pre.graph, sv[i].leaf, sv[i].roots[j]));
                    assert forall|x: int| 0 <= x < pre.graph.len() implies pre.graph[x] == g[x] by {
                        assert(g1.take(pre.graph.len() as int)[x] == g1[x]);
                    }
                    crate::laws::lemma_reaches_grown(pre.graph, g, sv[i].leaf, sv[i].roots[j]);
                    assert(leaves@[i] == sv[i].leaf);
                    assert(g[union as int].ancestors[i] == sv[i].leaf);
                    assert(crate::laws::reaches(g, sv[i].leaf, sv[i].leaf));
                    assert(crate::laws::reaches(g, union, sv[i].leaf));
                    crate::laws::lemma_reaches_trans(g, leaf_node, union, sv[i].leaf);
                    crate::laws::lemma_reaches_trans(g, leaf_node, sv[i].leaf, sv[i].roots[j]);
                }
            }
        }
        Ok(MirQuery { name: name.to_owned(), roots, leaf: leaf_node })
    }
}

} // verus!
