//! The lowering of one SELECT, in canonical order: base tables, joins,
//! the predicates that go above the grouped operators, the security
//! boundary, then per policy copy the grouped operators, the remaining
//! predicates and the TopK, then the reconciliation of the copies, the
//! projection and the leaf.
use crate::ast::{
    ColumnView, ConditionExpression, ConditionView, LimitClause, OrderType, SelectStatement,
};
use crate::query::{MirQuery, MirQueryView};
use crate::converter::{assoc_put, ConverterView, SqlToMirConverter};
use crate::factory::union_node;
use crate::graph::{has_child, reuse_of};
use crate::grouping::{above_grouped_from, computed_columns, AboveGrouped};
use crate::join::{joins_from, numbered};
use crate::output::output_nodes;
use crate::query_copy::{copies_from, Copies};
use crate::node::{MirNodeRef, MirNodeView};
use crate::predicates::{
    all_new, extend_refs, grown, lemma_all_new_concat, lemma_grown_push, lemma_grown_trans,
    predicate_columns, predicate_nodes,
};
use crate::query_graph::{
    all_below, computed_columns_name, QueryGraph, QueryGraphNodeView, QueryGraphView,
};
use crate::security::{put_node, security_boundary};
use crate::text::{
    joined, joined3, decimal, decimal_string, hex_string, hexadecimal, str_same, strip_trailing,
    strip_trailing_string,
};
use crate::universe::{universe_suffix, universe_suffix_string, UniverseId};
use crate::value::{DataTypeView, MirError};
use vstd::prelude::*;

verus! {

/// The name of the nodes of a query: `q_`, the signature hash in
/// hexadecimal, and the suffix of the universe.
pub open spec fn query_name(hash: u64, uformat: Seq<char>) -> Seq<char> {
    "q_"@ + hexadecimal(hash as nat) + uformat
}

/// The name of the node with number `count` that carries the suffix of
/// the universe at its end.
pub open spec fn numbered_query_name(hash: u64, count: usize, uformat: Seq<char>) -> Seq<char> {
    "q_"@ + hexadecimal(hash as nat) + "_n"@ + decimal(count as nat) + uformat
}

/// The name of the chain for predicate `i` of a relation, made when
/// `count` nodes of the query were made.
pub open spec fn predicate_chain_name(hash: u64, count: usize, i: usize, uformat: Seq<char>) -> Seq<
    char,
> {
    "q_"@ + hexadecimal(hash as nat) + "_n"@ + decimal(count as nat) + "_p"@ + decimal(i as nat)
        + uformat
}

/// The name of the nodes of a query.
pub fn query_name_string(hash: u64, uformat: &str) -> (r: String)
    ensures
        r@ == query_name(hash, uformat@),
{
    let hex = hex_string(hash);
    joined3("q_", hex.as_str(), uformat)
}

/// The name of the node with number `count`.
pub fn numbered_query_name_string(hash: u64, count: usize, uformat: &str) -> (r: String)
    ensures
        r@ == numbered_query_name(hash, count, uformat@),
{
    let hex = hex_string(hash);
    let number = decimal_string(count as u64);
    let head = joined3("q_", hex.as_str(), "_n");
    joined3(head.as_str(), number.as_str(), uformat)
}

/// The name of the chain for predicate `i` of a relation.
pub fn predicate_chain_name_string(hash: u64, count: usize, i: usize, uformat: &str) -> (r: String)
    ensures
        r@ == predicate_chain_name(hash, count, i, uformat@),
{
    let hex = hex_string(hash);
    let number = decimal_string(count as u64);
    let index = decimal_string(i as u64);
    let head = joined3("q_", hex.as_str(), "_n");
    let mid = joined3(head.as_str(), number.as_str(), "_p");
    joined3(mid.as_str(), index.as_str(), uformat)
}

/// The Reuse nodes for the relations at the positions `order` from `k`
/// on: the graph, the node of each relation, and the nodes. The relation
/// of the computed columns stands for no table. A relation that was never
/// registered is refused.
pub open spec fn bases_from(
    c: ConverterView,
    rels: Seq<QueryGraphNodeView>,
    order: Seq<usize>,
    k: int,
    node_for_rel: Seq<(Seq<char>, usize)>,
    acc: Seq<usize>,
) -> Result<(Seq<MirNodeView>, Seq<(Seq<char>, usize)>, Seq<usize>), MirError>
    decreases order.len() - k,
{
    if k < 0 || k >= order.len() {
        Ok((c.graph, node_for_rel, acc))
    } else {
        let rel = rels[order[k] as int].rel_name;
        if rel == computed_columns_name() {
            bases_from(c, rels, order, k + 1, node_for_rel, acc)
        } else {
            match c.latest(rel) {
                None => Err(MirError::UnknownView),
                Some(t) => bases_from(
                    c.with_graph(c.graph.push(reuse_of(c.graph, t, c.schema_version))),
                    rels,
                    order,
                    k + 1,
                    assoc_put(node_for_rel, rel, c.graph.len() as usize),
                    acc.push(c.graph.len() as usize),
                ),
            }
        }
    }
}

/// Whether the lowering can tell which columns each predicate of the
/// relations mentions.
pub open spec fn predicates_supported(rels: Seq<QueryGraphNodeView>) -> bool {
    forall|k: int, j: int|
        0 <= k < rels.len() && rels[k].rel_name != computed_columns_name() && 0 <= j
            < rels[k].predicates.len() ==> predicate_columns(
            #[trigger] rels[k].predicates[j],
        ) is Ok
}

/// The name of the view that a group has of a query: the name of the
/// query without the suffix of the universe, the name of the group and
/// the identifier of the membership.
pub open spec fn group_view_name(root: Seq<char>, gname: Seq<char>, gid: DataTypeView) -> Seq<char> {
    root + "_"@ + gname + gid.rendered()
}

/// The Reuse nodes for the views that one group has of a query, for the
/// memberships `gids` from position `j` on.
pub open spec fn group_views_of(
    c: ConverterView,
    root: Seq<char>,
    gname: Seq<char>,
    gids: Seq<DataTypeView>,
    j: int,
    acc: Seq<usize>,
) -> Result<(Seq<MirNodeView>, Seq<usize>), MirError>
    decreases gids.len() - j,
{
    if j < 0 || j >= gids.len() {
        Ok((c.graph, acc))
    } else {
        match c.latest(group_view_name(root, gname, gids[j])) {
            None => Err(MirError::UnknownView),
            Some(t) => group_views_of(
                c.with_graph(c.graph.push(reuse_of(c.graph, t, c.schema_version))),
                root,
                gname,
                gids,
                j + 1,
                acc.push(c.graph.len() as usize),
            ),
        }
    }
}

/// The Reuse nodes for the views that the groups `member_of`, from
/// position `k` on, have of a query.
pub open spec fn group_views_from(
    c: ConverterView,
    root: Seq<char>,
    member_of: Seq<(Seq<char>, Seq<DataTypeView>)>,
    k: int,
    acc: Seq<usize>,
) -> Result<(Seq<MirNodeView>, Seq<usize>), MirError>
    decreases member_of.len() - k,
{
    if k < 0 || k >= member_of.len() {
        Ok((c.graph, acc))
    } else {
        match group_views_of(c, root, member_of[k].0, member_of[k].1, 0, acc) {
            Err(e) => Err(e),
            Ok((g, a)) => group_views_from(c.with_graph(g), root, member_of, k + 1, a),
        }
    }
}

/// The views of the groups of the universe that are united with the query
/// named `name`: none unless the name ends with the suffix of the
/// universe; else one per membership, named after the query without that
/// suffix.
pub open spec fn group_views(c: ConverterView, name: Seq<char>, uformat: Seq<char>) -> Result<
    (Seq<MirNodeView>, Seq<usize>),
    MirError,
> {
    let root = strip_trailing(name, uformat);
    if root == name {
        Ok((c.graph, Seq::empty()))
    } else {
        group_views_from(c, root, c.universe.member_of, 0, Seq::empty())
    }
}

impl SqlToMirConverter {
    /// The Reuse nodes for the relations of the query, in the order
    /// `order`, with the node of each relation.
    pub(crate) fn make_base_reuses(&mut self, qg: &QueryGraph, order: &Vec<usize>) -> (r: Result<
        (Vec<(String, MirNodeRef)>, Vec<MirNodeRef>),
        MirError,
    >)
        requires
            old(self)@.wf(),
            all_below(order@, qg.relations.len() as int),
        ensures
            final(self)@.wf(),
            grown(old(self)@.graph, final(self)@.graph),
            match bases_from(
                old(self)@,
                qg.deep_view().relations,
                order@,
                0,
                Seq::empty(),
                Seq::empty(),
            ) {
                Ok((g, nfr, nodes)) => {
                    &&& r is Ok
                    &&& r->Ok_0.0.deep_view() == nfr
                    &&& r->Ok_0.1@ == nodes
                    &&& final(self)@ == old(self)@.with_graph(g)
                    &&& all_new(old(self)@.graph, g, nodes)
                    &&& old(self)@.graph.len() + nodes.len() == g.len()
                },
                Err(e) => {
                    &&& r == Err::<(Vec<(String, MirNodeRef)>, Vec<MirNodeRef>), MirError>(e)
                    &&& final(self)@ == old(self)@
                },
            },
    {
        let ghost pre = self@;
        let ghost rels = qg.deep_view().relations;
        let start = self.graph.len();
        let mut node_for_rel: Vec<(String, MirNodeRef)> = Vec::new();
        let mut base_nodes: Vec<MirNodeRef> = Vec::new();
        assert(node_for_rel.deep_view() =~= Seq::empty());
        proof {
            lemma_grown_push(pre.graph, arbitrary());
            reveal_strlit("computed_columns");
        }
        let mut k: usize = 0;
        while k < order.len()
            invariant
                k <= order.len(),
                rels == qg.deep_view().relations,
                all_below(order@, qg.relations.len() as int),
                pre == old(self)@,
                pre.wf(),
                self@.wf(),
                self@ == pre.with_graph(self@.graph),
                grown(pre.graph, self@.graph),
                start == pre.graph.len(),
                all_new(pre.graph, self@.graph, base_nodes@),
                pre.graph.len() + base_nodes@.len() == self@.graph.len(),
                bases_from(pre, rels, order@, 0, Seq::empty(), Seq::empty()) == bases_from(
                    self@,
                    rels,
                    order@,
                    k as int,
                    node_for_rel.deep_view(),
                    base_nodes@,
                ),
            decreases order.len() - k,
        {
            assert(order@[k as int] < qg.relations.len());
            let rel = &qg.relations[order[k]];
            assert(rels[order@[k as int] as int] == rel.deep_view());
            if !str_same(rel.rel_name.as_str(), "computed_columns") {
                let ghost g_before = self@.graph;
                match self.get_view(rel.rel_name.as_str()) {
                    Err(e) => {
                        self.rollback(start, Ghost(pre));
                        return Err(e);
                    },
                    Ok(base_for_rel) => {
                        base_nodes.push(base_for_rel);
                        put_node(&mut node_for_rel, rel.rel_name.as_str(), base_for_rel);
                        proof {
                            lemma_grown_push(g_before, self@.graph.last());
                            lemma_grown_trans(pre.graph, g_before, self@.graph);
                        }
                    },
                }
            }
            k += 1;
        }
        Ok((node_for_rel, base_nodes))
    }

    /// Whether the lowering can tell which columns each predicate of the
    /// query mentions.
    pub fn predicates_are_supported(&self, qg: &QueryGraph) -> (r: bool)
        ensures
            r == predicates_supported(qg.deep_view().relations),
    {
        let ghost rels = qg.deep_view().relations;
        proof {
            reveal_strlit("computed_columns");
        }
        let mut k: usize = 0;
        while k < qg.relations.len()
            invariant
                k <= qg.relations.len(),
                rels == qg.deep_view().relations,
                forall|a: int, b: int|
                    0 <= a < k && rels[a].rel_name != computed_columns_name() && 0 <= b
                        < rels[a].predicates.len() ==> predicate_columns(
                        #[trigger] rels[a].predicates[b],
                    ) is Ok,
            decreases qg.relations.len() - k,
        {
            let rel = &qg.relations[k];
            assert(rels[k as int] == rel.deep_view());
            if !str_same(rel.rel_name.as_str(), "computed_columns") {
                let mut j: usize = 0;
                while j < rel.predicates.len()
                    invariant
                        j <= rel.predicates.len(),
                        k < qg.relations.len(),
                        rels == qg.deep_view().relations,
                        rels[k as int] == rel.deep_view(),
                        rel.rel_name@ != computed_columns_name(),
                        forall|b: int|
                            0 <= b < j ==> predicate_columns(
                                #[trigger] rels[k as int].predicates[b],
                            ) is Ok,
                    decreases rel.predicates.len() - j,
                {
                    assert(rels[k as int].predicates[j as int] == rel.predicates[j as int].deep_view());
                    if self.predicate_columns(&rel.predicates[j]).is_err() {
                        assert(!(predicate_columns(rels[k as int].predicates[j as int]) is Ok));
                        return false;
                    }
                    j += 1;
                }
            }
            k += 1;
        }
        true
    }

    /// The Reuse nodes for the views that the groups of the universe have
    /// of the query named `name`.
    pub fn make_group_views(&mut self, name: &str, uformat: &str) -> (r: Result<
        Vec<MirNodeRef>,
        MirError,
    >)
        requires
            old(self)@.wf(),
        ensures
            final(self)@.wf(),
            grown(old(self)@.graph, final(self)@.graph),
            crate::predicates::many_made(
                old(self)@,
                final(self)@,
                r,
                group_views(old(self)@, name@, uformat@),
            ),
            r is Ok ==> all_new(old(self)@.graph, final(self)@.graph, r->Ok_0@),
            r is Ok ==> old(self)@.graph.len() + r->Ok_0@.len() == final(self)@.graph.len(),
    {
        let ghost pre = self@;
        let start = self.graph.len();
        let mut views: Vec<MirNodeRef> = Vec::new();
        proof {
            lemma_grown_push(pre.graph, arbitrary());
        }
        let root = strip_trailing_string(name, uformat);
        if str_same(root.as_str(), name) {
            return Ok(views);
        }
        let ghost member_of = pre.universe.member_of;
        let mut k: usize = 0;
        while k < self.universe.member_of.len()
            invariant
                k <= self.universe.member_of.len(),
                member_of == self.universe.member_of.deep_view(),
                member_of == pre.universe.member_of,
                root@ == strip_trailing(name@, uformat@),
                root@ != name@,
                pre == old(self)@,
                pre.wf(),
                self@.wf(),
                self@ == pre.with_graph(self@.graph),
                grown(pre.graph, self@.graph),
                start == pre.graph.len(),
                all_new(pre.graph, self@.graph, views@),
                pre.graph.len() + views@.len() == self@.graph.len(),
                group_views_from(pre, root@, member_of, 0, Seq::empty()) == group_views_from(
                    self@,
                    root@,
                    member_of,
                    k as int,
                    views@,
                ),
            decreases self.universe.member_of.len() - k,
        {
            assert(member_of[k as int] == self.universe.member_of[k as int].deep_view());
            let ghost gname = member_of[k as int].0;
            let ghost gids = member_of[k as int].1;
            let ghost c_before = self@;
            let ghost views_before = views@;
            let count = self.universe.member_of[k].1.len();
            let mut j: usize = 0;
            while j < count
                invariant
                    j <= count,
                    k < self.universe.member_of.len(),
                    count == self.universe.member_of[k as int].1.len(),
                    member_of == self.universe.member_of.deep_view(),
                    member_of[k as int] == self.universe.member_of[k as int].deep_view(),
                    gname == member_of[k as int].0,
                    gids == member_of[k as int].1,
                    member_of == pre.universe.member_of,
                    root@ == strip_trailing(name@, uformat@),
                    root@ != name@,
                    pre == old(self)@,
                    pre.wf(),
                    self@.wf(),
                    self@ == pre.with_graph(self@.graph),
                    grown(pre.graph, self@.graph),
                    start == pre.graph.len(),
                    all_new(pre.graph, self@.graph, views@),
                    pre.graph.len() + views@.len() == self@.graph.len(),
                    group_views_of(c_before, root@, gname, gids, 0, views_before) == group_views_of(
                        self@,
                        root@,
                        gname,
                        gids,
                        j as int,
                        views@,
                    ),
                    group_views_from(pre, root@, member_of, 0, Seq::empty()) == group_views_from(
                        c_before,
                        root@,
                        member_of,
                        k as int,
                        views_before,
                    ),
                decreases count - j,
            {
                assert(gids[j as int] == self.universe.member_of[k as int].1[j as int].deep_view());
                let rendered = self.universe.member_of[k].1[j].render();
                let head = joined3(root.as_str(), "_", self.universe.member_of[k].0.as_str());
                let view_name = joined(head.as_str(), rendered.as_str());
                let ghost g_before = self@.graph;
                match self.get_view(view_name.as_str()) {
                    Err(e) => {
                        self.rollback(start, Ghost(pre));
                        return Err(e);
                    },
                    Ok(v) => {
                        views.push(v);
                        proof {
                            lemma_grown_push(g_before, self@.graph.last());
                            lemma_grown_trans(pre.graph, g_before, self@.graph);
                        }
                    },
                }
                j += 1;
            }
            k += 1;
        }
        Ok(views)
    }
}


/// The part of a query before its copies: the graph, the nodes made, the
/// conditions whose chains stand above the grouped operators, the ends of
/// the policy chains, the views of the groups, and the number of nodes
/// that count for the names of later nodes.
pub ghost struct Front {
    pub graph: Seq<MirNodeView>,
    pub nodes: Seq<usize>,
    pub created: Seq<ConditionView>,
    pub frontier: Seq<usize>,
    pub views: Seq<usize>,
    pub count: int,
}

/// The part of the query named `name` before its copies: the Reuse nodes
/// of the relations in the order of their names, the joins, the chains
/// above the grouped operators, the security boundary, and the views of
/// the groups of the universe. A query without joins reads exactly one
/// relation.
#[verifier::opaque]
pub open spec fn front(c: ConverterView, name: Seq<char>, qg: QueryGraphView, uformat: Seq<char>) -> Result<
    Front,
    MirError,
> {
    let qname = query_name(qg.signature_hash, uformat);
    let order = qg.sorted_relations();
    match bases_from(c, qg.relations, order, 0, Seq::empty(), Seq::empty()) {
        Err(e) => Err(e),
        Ok((g0, nfr, bases)) => match joins_from(
            g0,
            c.schema_version,
            qname,
            qg.joins,
            nfr,
            0,
            Seq::empty(),
            0,
            Seq::empty(),
        ) {
            Err(e) => Err(e),
            Ok((g1, joins)) => {
                if joins.len() == 0 && bases.len() != 1 {
                    Err(MirError::InvariantViolation)
                } else if !predicates_supported(qg.relations) {
                    Err(MirError::Unsupported)
                } else {
                    let prev = if joins.len() > 0 {
                        joins.last()
                    } else {
                        bases.last()
                    };
                    match above_grouped_from(
                        c.schema_version,
                        qname,
                        qg.relations,
                        order,
                        computed_columns(qg),
                        0,
                        joins.len() as usize,
                        AboveGrouped {
                            graph: g1,
                            nodes: Seq::empty(),
                            created: Seq::empty(),
                            prev,
                        },
                    ) {
                        Err(e) => Err(e),
                        Ok(above) => match security_boundary(
                            above.graph,
                            c.schema_version,
                            qname,
                            c.universe.row_policies,
                            nfr,
                            above.prev,
                        ) {
                            Err(e) => Err(e),
                            Ok(b) => match group_views(c.with_graph(b.graph), name, uformat) {
                                Err(e) => Err(e),
                                Ok((g2, views)) => Ok(
                                    Front {
                                        graph: g2,
                                        nodes: bases + joins + above.nodes + b.nodes + views,
                                        created: above.created,
                                        frontier: b.last_nodes,
                                        views,
                                        count: (joins.len() + above.nodes.len()) as int,
                                    },
                                ),
                            },
                        },
                    }
                }
            },
        },
    }
}

/// The end of a query: where there are several copies or views, the
/// union that reconciles them; then the projection and the leaf.
#[verifier::opaque]
pub open spec fn finish(
    version: usize,
    name: Seq<char>,
    qg: QueryGraphView,
    has_leaf: bool,
    group_universe: bool,
    uformat: Seq<char>,
    cp: Copies,
) -> Result<(Seq<MirNodeView>, Seq<usize>), MirError> {
    if cp.ancestors.len() > 1 {
        match union_node(
            cp.graph,
            version,
            numbered(query_name(qg.signature_hash, uformat), cp.count as usize),
            cp.ancestors,
        ) {
            Err(e) => Err(e),
            Ok(u) => match output_nodes(
                cp.graph.push(u),
                version,
                name,
                qg,
                has_leaf,
                group_universe,
                uformat,
                cp.count + 1,
                cp.graph.len() as usize,
            ) {
                Err(e) => Err(e),
                Ok((g, out)) => Ok((g, cp.nodes_added.push(cp.graph.len() as usize) + out)),
            },
        }
    } else if cp.ancestors.len() == 1 {
        match output_nodes(
            cp.graph,
            version,
            name,
            qg,
            has_leaf,
            group_universe,
            uformat,
            cp.count,
            cp.ancestors[0],
        ) {
            Err(e) => Err(e),
            Ok((g, out)) => Ok((g, cp.nodes_added + out)),
        }
    } else {
        Err(MirError::InvariantViolation)
    }
}

/// The nodes of the query named `name`, and the graph with them, in
/// canonical order: base tables, joins, predicates above the grouped
/// operators, policies, views of the groups; per copy the grouped
/// operators with the TopK and then the predicates; the reconciling
/// union, the projection, the leaf.
pub open spec fn selection(
    c: ConverterView,
    name: Seq<char>,
    order_by: Option<Seq<(ColumnView, OrderType)>>,
    limit: Option<LimitClause>,
    qg: QueryGraphView,
    has_leaf: bool,
    universe: (DataTypeView, Option<DataTypeView>),
) -> Result<(Seq<MirNodeView>, Seq<usize>), MirError> {
    let uformat = universe_suffix(universe.0);
    match front(c, name, qg, uformat) {
        Err(e) => Err(e),
        Ok(f) => match copies_from(
            c.schema_version,
            query_name(qg.signature_hash, uformat),
            uformat,
            qg,
            qg.sorted_relations(),
            f.created,
            order_by,
            limit,
            f.frontier,
            0,
            Copies { graph: f.graph, count: f.count, nodes_added: f.nodes, ancestors: f.views },
        ) {
            Err(e) => Err(e),
            Ok(cp) => finish(c.schema_version, name, qg, has_leaf, universe.1 is Some, uformat, cp),
        },
    }
}

/// Whether every node from position `start` on but the last is read by
/// some node.
pub open spec fn all_feed(g: Seq<MirNodeView>, start: int) -> bool {
    forall|i: int| start <= i < g.len() - 1 ==> #[trigger] has_child(g, i as usize)
}

/// The state after each of `nodes` from position `i` on was registered
/// under its name at the current schema version, unless that name was
/// registered there before.
pub open spec fn remember_all(c: ConverterView, nodes: Seq<usize>, i: int) -> ConverterView
    decreases nodes.len() - i,
{
    if i < 0 || i >= nodes.len() {
        c
    } else {
        remember_all(c.remember(c.graph[nodes[i] as int].name, nodes[i]), nodes, i + 1)
    }
}

/// `acc` and then those of `nodes` from position `i` on that read no
/// node.
pub open spec fn roots_among(g: Seq<MirNodeView>, nodes: Seq<usize>, i: int, acc: Seq<usize>) -> Seq<
    usize,
>
    decreases nodes.len() - i,
{
    if i < 0 || i >= nodes.len() {
        acc
    } else if g[nodes[i] as int].ancestors.len() == 0 {
        roots_among(g, nodes, i + 1, acc.push(nodes[i]))
    } else {
        roots_among(g, nodes, i + 1, acc)
    }
}

impl ConverterView {
    /// The state and the query after `named_query_to_mir`. Every node of
    /// the query is registered under its name; the roots of the query are
    /// its nodes without ancestors; its leaf is its last node, and every
    /// other node of the query must be read by some node; the name of the
    /// leaf gets the current schema version as its latest.
    pub open spec fn named_query(
        self,
        name: Seq<char>,
        order_by: Option<Seq<(ColumnView, OrderType)>>,
        limit: Option<LimitClause>,
        qg: QueryGraphView,
        has_leaf: bool,
        universe: (DataTypeView, Option<DataTypeView>),
    ) -> Result<(ConverterView, MirQueryView), MirError> {
        match selection(self, name, order_by, limit, qg, has_leaf, universe) {
            Err(e) => Err(e),
            Ok((g, nodes)) => {
                if g.len() == 0 || !all_feed(g, self.graph.len() as int) {
                    Err(MirError::InvariantViolation)
                } else {
                    let leaf = (g.len() - 1) as usize;
                    Ok(
                        (
                            remember_all(self.with_graph(g), nodes, 0).register(
                                g[leaf as int].name,
                                leaf,
                            ),
                            MirQueryView {
                                name,
                                roots: roots_among(g, nodes, 0, Seq::empty()),
                                leaf,
                            },
                        ),
                    )
                }
            },
        }
    }
}

/// What the part of a query before its copies hands back.
pub struct FrontNodes {
    pub nodes: Vec<MirNodeRef>,
    pub created: Vec<ConditionExpression>,
    pub frontier: Vec<MirNodeRef>,
    pub views: Vec<MirNodeRef>,
    pub count: usize,
}

impl SqlToMirConverter {
    /// The part of the query named `name` before its copies.
    fn make_front(&mut self, name: &str, qg: &QueryGraph, uformat: &str, order: &Vec<usize>) -> (r:
        Result<FrontNodes, MirError>)
        requires
            old(self)@.wf(),
            order@ == qg.deep_view().sorted_relations(),
            all_below(order@, qg.relations.len() as int),
        ensures
            final(self)@.wf(),
            grown(old(self)@.graph, final(self)@.graph),
            match front(old(self)@, name@, qg.deep_view(), uformat@) {
                Ok(f) => {
                    &&& r is Ok
                    &&& final(self)@ == old(self)@.with_graph(f.graph)
                    &&& r->Ok_0.nodes@ == f.nodes
                    &&& r->Ok_0.created.deep_view() == f.created
                    &&& r->Ok_0.frontier@ == f.frontier
                    &&& r->Ok_0.views@ == f.views
                    &&& r->Ok_0.count == f.count
                    &&& all_new(old(self)@.graph, f.graph, f.nodes)
                    &&& old(self)@.graph.len() + f.nodes.len() == f.graph.len()
                    &&& f.count <= f.graph.len()
                    &&& f.frontier.len() > 0
                },
                Err(e) => r is Err && r->Err_0 == e && final(self)@ == old(self)@,
            },
    {
        let ghost pre = self@;
        let start = self.graph.len();
        proof {
            reveal(front);
            lemma_grown_push(pre.graph, arbitrary());
        }
        let qname = query_name_string(qg.signature_hash, uformat);
        let (node_for_rel, mut nodes) = match self.make_base_reuses(qg, order) {
            Ok(b) => b,
            Err(e) => {
                return Err(e);
            },
        };
        let ghost g0 = self@.graph;
        let ghost bases = nodes@;
        let base_count = nodes.len();
        let join_nodes = match self.make_joins(qname.as_str(), &qg.joins, &node_for_rel, 0) {
            Ok(j) => j,
            Err(e) => {
                self.rollback(start, Ghost(pre));
                return Err(e);
            },
        };
        let ghost g1 = self@.graph;
        proof {
            lemma_grown_trans(pre.graph, g0, g1);
        }
        if join_nodes.len() == 0 && base_count != 1 {
            self.rollback(start, Ghost(pre));
            return Err(MirError::InvariantViolation);
        }
        if !self.predicates_are_supported(qg) {
            self.rollback(start, Ghost(pre));
            return Err(MirError::Unsupported);
        }
        let mut prev_node = if join_nodes.len() > 0 {
            join_nodes[join_nodes.len() - 1]
        } else {
            nodes[base_count - 1]
        };
        let mut count = join_nodes.len();
        extend_refs(&mut nodes, &join_nodes);
        proof {
            lemma_all_new_concat(pre.graph, g0, g1, bases, join_nodes@);
        }
        let (created, above_nodes) = match self.make_predicates_above_grouped(
            qname.as_str(),
            qg,
            count,
            &mut prev_node,
        ) {
            Ok(a) => a,
            Err(e) => {
                self.rollback(start, Ghost(pre));
                return Err(e);
            },
        };
        let ghost g2 = self@.graph;
        let ghost nodes1 = nodes@;
        let total = self.graph.len();
        assert(count + above_nodes.len() <= total);
        count = count + above_nodes.len();
        extend_refs(&mut nodes, &above_nodes);
        proof {
            lemma_grown_trans(pre.graph, g1, g2);
            lemma_all_new_concat(pre.graph, g1, g2, nodes1, above_nodes@);
        }
        let boundary = match self.make_security_boundary(qname.as_str(), &node_for_rel, prev_node) {
            Ok(b) => b,
            Err(e) => {
                self.rollback(start, Ghost(pre));
                return Err(e);
            },
        };
        let ghost g3 = self@.graph;
        let ghost nodes2 = nodes@;
        extend_refs(&mut nodes, &boundary.policy_nodes);
        proof {
            lemma_grown_trans(pre.graph, g2, g3);
            lemma_all_new_concat(pre.graph, g2, g3, nodes2, boundary.policy_nodes@);
        }
        let views = match self.make_group_views(name, uformat) {
            Ok(v) => v,
            Err(e) => {
                self.rollback(start, Ghost(pre));
                return Err(e);
            },
        };
        let ghost g4 = self@.graph;
        let ghost nodes3 = nodes@;
        extend_refs(&mut nodes, &views);
        proof {
            lemma_grown_trans(pre.graph, g3, g4);
            lemma_all_new_concat(pre.graph, g3, g4, nodes3, views@);
        }
        Ok(FrontNodes { nodes, created, frontier: boundary.last_policy_nodes, views, count })
    }

    /// The end of the query named `name`: the reconciling union where
    /// there are several ancestors, the projection and the leaf.
    fn make_finish(
        &mut self,
        name: &str,
        qg: &QueryGraph,
        has_leaf: bool,
        group_universe: bool,
        uformat: &str,
        count: usize,
        ancestors: &Vec<MirNodeRef>,
    ) -> (r: Result<Vec<MirNodeRef>, MirError>)
        requires
            old(self)@.wf(),
            count <= old(self)@.graph.len(),
        ensures
            final(self)@.wf(),
            grown(old(self)@.graph, final(self)@.graph),
            match finish(
                old(self)@.schema_version,
                name@,
                qg.deep_view(),
                has_leaf,
                group_universe,
                uformat@,
                Copies {
                    graph: old(self)@.graph,
                    count: count as int,
                    nodes_added: Seq::empty(),
                    ancestors: ancestors@,
                },
            ) {
                Ok((g, nodes)) => {
                    &&& r is Ok
                    &&& r->Ok_0@ == nodes
                    &&& final(self)@ == old(self)@.with_graph(g)
                    &&& all_new(old(self)@.graph, g, nodes)
                    &&& old(self)@.graph.len() + nodes.len() == g.len()
                    &&& nodes.len() > 0
                },
                Err(e) => r is Err && r->Err_0 == e && final(self)@ == old(self)@,
            },
    {
        let ghost pre = self@;
        let start = self.graph.len();
        proof {
            reveal(finish);
            lemma_grown_push(pre.graph, arbitrary());
        }
        let mut nodes: Vec<MirNodeRef> = Vec::new();
        if ancestors.len() > 1 {
            let qname = query_name_string(qg.signature_hash, uformat);
            let union = match self.reconcile(qname.as_str(), ancestors, count) {
                Ok(u) => u,
                Err(e) => {
                    return Err(e);
                },
            };
            let ghost g1 = self@.graph;
            proof {
                lemma_grown_push(pre.graph, g1.last());
            }
            nodes.push(union);
            assert(nodes@ =~= Seq::<usize>::empty().push(union));
            let total = self.graph.len();
            assert(count + 1 <= total);
            let out = match self.make_output_nodes(
                name,
                qg,
                has_leaf,
                group_universe,
                uformat,
                count + 1,
                union,
            ) {
                Ok(o) => o,
                Err(e) => {
                    self.rollback(start, Ghost(pre));
                    return Err(e);
                },
            };
            let ghost before = nodes@;
            extend_refs(&mut nodes, &out);
            proof {
                lemma_grown_trans(pre.graph, g1, self@.graph);
                assert(all_new(pre.graph, g1, before));
                lemma_all_new_concat(pre.graph, g1, self@.graph, before, out@);
            }
            Ok(nodes)
        } else if ancestors.len() == 1 {
            match self.make_output_nodes(
                name,
                qg,
                has_leaf,
                group_universe,
                uformat,
                count,
                ancestors[0],
            ) {
                Ok(o) => {
                    assert(Seq::<usize>::empty() + o@ =~= o@);
                    Ok(o)
                },
                Err(e) => Err(e),
            }
        } else {
            Err(MirError::InvariantViolation)
        }
    }
}


/// The end of a query lists the nodes that were made before it and then
/// its own.
pub proof fn lemma_finish_prefix(
    version: usize,
    name: Seq<char>,
    qg: QueryGraphView,
    has_leaf: bool,
    group_universe: bool,
    uformat: Seq<char>,
    cp: Copies,
)
    ensures
        match finish(
            version,
            name,
            qg,
            has_leaf,
            group_universe,
            uformat,
            Copies { nodes_added: Seq::empty(), ..cp },
        ) {
            Ok((g, out)) => finish(version, name, qg, has_leaf, group_universe, uformat, cp) == Ok::<
                (Seq<MirNodeView>, Seq<usize>),
                MirError,
            >((g, cp.nodes_added + out)),
            Err(e) => finish(version, name, qg, has_leaf, group_universe, uformat, cp) == Err::<
                (Seq<MirNodeView>, Seq<usize>),
                MirError,
            >(e),
        },
{
    reveal(finish);
    if cp.ancestors.len() > 1 {
        match union_node(
            cp.graph,
            version,
            numbered(query_name(qg.signature_hash, uformat), cp.count as usize),
            cp.ancestors,
        ) {
            Err(_) => {},
            Ok(u) => match output_nodes(
                cp.graph.push(u),
                version,
                name,
                qg,
                has_leaf,
                group_universe,
                uformat,
                cp.count + 1,
                cp.graph.len() as usize,
            ) {
                Err(_) => {},
                Ok((g, out)) => {
                    let id = cp.graph.len() as usize;
                    assert(cp.nodes_added.push(id) + out =~= cp.nodes_added + (Seq::<
                        usize,
                    >::empty().push(id) + out));
                },
            },
        }
    } else if cp.ancestors.len() == 1 {
        match output_nodes(
            cp.graph,
            version,
            name,
            qg,
            has_leaf,
            group_universe,
            uformat,
            cp.count,
            cp.ancestors[0],
        ) {
            Err(_) => {},
            Ok((g, out)) => {
                assert(Seq::<usize>::empty() + out =~= out);
            },
        }
    }
}

impl SqlToMirConverter {
    /// The nodes of the query named `name`, in canonical order. On
    /// refusal nothing is left of them.
    pub fn make_nodes_for_selection(
        &mut self,
        name: &str,
        st: &SelectStatement,
        qg: &QueryGraph,
        has_leaf: bool,
        universe: &UniverseId,
    ) -> (r: Result<Vec<MirNodeRef>, MirError>)
        requires
            old(self)@.wf(),
        ensures
            final(self)@.wf(),
            grown(old(self)@.graph, final(self)@.graph),
            crate::predicates::many_made(
                old(self)@,
                final(self)@,
                r,
                selection(
                    old(self)@,
                    name@,
                    crate::ast::order_view(st.order),
                    st.limit,
                    qg.deep_view(),
                    has_leaf,
                    universe.deep_view(),
                ),
            ),
            r is Ok ==> all_new(old(self)@.graph, final(self)@.graph, r->Ok_0@),
            r is Ok ==> old(self)@.graph.len() + r->Ok_0@.len() == final(self)@.graph.len(),
            r is Ok ==> r->Ok_0@.len() > 0,
    {
        let ghost pre = self@;
        let ghost qv = qg.deep_view();
        let ghost order_by = crate::ast::order_view(st.order);
        let start = self.graph.len();
        proof {
            lemma_grown_push(pre.graph, arbitrary());
        }
        let uformat = universe_suffix_string(&universe.0);
        let order = qg.sorted_relations();
        let qname = query_name_string(qg.signature_hash, uformat.as_str());
        let made = match self.make_front(name, qg, uformat.as_str(), &order) {
            Ok(f) => f,
            Err(e) => {
                return Err(e);
            },
        };
        let ghost f = front(pre, name@, qv, uformat@)->Ok_0;
        let mut nodes_added = made.nodes;
        let mut ancestors = made.views;
        let mut count = made.count;
        let frontier = made.frontier;
        let created = made.created;
        let mut m: usize = 0;
        while m < frontier.len()
            invariant
                m <= frontier.len(),
                qv == qg.deep_view(),
                order_by == crate::ast::order_view(st.order),
                order@ == qv.sorted_relations(),
                all_below(order@, qg.relations.len() as int),
                qname@ == query_name(qv.signature_hash, uformat@),
                uformat@ == universe_suffix(universe.deep_view().0),
                front(pre, name@, qv, uformat@) == Ok::<Front, MirError>(f),
                created.deep_view() == f.created,
                frontier@ == f.frontier,
                pre == old(self)@,
                pre.wf(),
                self@.wf(),
                self@ == pre.with_graph(self@.graph),
                grown(pre.graph, self@.graph),
                start == pre.graph.len(),
                all_new(pre.graph, self@.graph, nodes_added@),
                pre.graph.len() + nodes_added@.len() == self@.graph.len(),
                count <= self@.graph.len(),
                copies_from(
                    pre.schema_version,
                    qname@,
                    uformat@,
                    qv,
                    order@,
                    created.deep_view(),
                    order_by,
                    st.limit,
                    frontier@,
                    0,
                    Copies {
                        graph: f.graph,
                        count: f.count,
                        nodes_added: f.nodes,
                        ancestors: f.views,
                    },
                ) == copies_from(
                    pre.schema_version,
                    qname@,
                    uformat@,
                    qv,
                    order@,
                    created.deep_view(),
                    order_by,
                    st.limit,
                    frontier@,
                    m as int,
                    Copies {
                        graph: self@.graph,
                        count: count as int,
                        nodes_added: nodes_added@,
                        ancestors: ancestors@,
                    },
                ),
            decreases frontier.len() - m,
        {
            let ghost g_before = self@.graph;
            let ghost nodes_before = nodes_added@;
            match self.make_query_copy(
                qname.as_str(),
                uformat.as_str(),
                qg,
                &order,
                &created,
                st,
                count,
                frontier[m],
            ) {
                Err(e) => {
                    self.rollback(start, Ghost(pre));
                    return Err(e);
                },
                Ok(copy) => {
                    count = copy.count;
                    extend_refs(&mut nodes_added, &copy.func_nodes);
                    let ghost nodes_mid = nodes_added@;
                    extend_refs(&mut nodes_added, &copy.predicate_nodes);
                    ancestors.push(copy.final_node);
                    proof {
                        lemma_grown_trans(pre.graph, g_before, self@.graph);
                        lemma_all_new_concat(
                            pre.graph,
                            g_before,
                            self@.graph,
                            nodes_before,
                            copy.func_nodes@,
                        );
                        crate::predicates::lemma_all_new_join(
                            pre.graph,
                            g_before,
                            self@.graph,
                            nodes_mid,
                            copy.predicate_nodes@,
                        );
                    }
                },
            }
            m += 1;
        }
        let ghost cp = Copies {
            graph: self@.graph,
            count: count as int,
            nodes_added: nodes_added@,
            ancestors: ancestors@,
        };
        let ghost g_before = self@.graph;
        let ghost nodes_before = nodes_added@;
        proof {
            lemma_finish_prefix(
                pre.schema_version,
                name@,
                qv,
                has_leaf,
                universe.1.is_some(),
                uformat@,
                cp,
            );
        }
        match self.make_finish(
            name,
            qg,
            has_leaf,
            universe.1.is_some(),
            uformat.as_str(),
            count,
            &ancestors,
        ) {
            Err(e) => {
                self.rollback(start, Ghost(pre));
                Err(e)
            },
            Ok(out) => {
                extend_refs(&mut nodes_added, &out);
                proof {
                    lemma_grown_trans(pre.graph, g_before, self@.graph);
                    lemma_all_new_concat(pre.graph, g_before, self@.graph, nodes_before, out@);
                }
                Ok(nodes_added)
            },
        }
    }

    /// Lowers the SELECT query named `name` and registers its nodes. The
    /// query must end in one leaf: every node of it but the last must be
    /// read by another. On refusal the converter is left as it was.
    pub fn named_query_to_mir(
        &mut self,
        name: &str,
        sq: &SelectStatement,
        qg: &QueryGraph,
        has_leaf: bool,
        universe: UniverseId,
    ) -> (r: Result<MirQuery, MirError>)
        requires
            old(self)@.wf(),
        ensures
            final(self)@.wf(),
            match old(self)@.named_query(
                name@,
                crate::ast::order_view(sq.order),
                sq.limit,
                qg.deep_view(),
                has_leaf,
                universe.deep_view(),
            ) {
                Ok((c, q)) => r is Ok && r->Ok_0.deep_view() == q && final(self)@ == c,
                Err(e) => r is Err && r->Err_0 == e && final(self)@ == old(self)@,
            },
            r is Ok ==> r->Ok_0.deep_view().wf(final(self)@.graph),
    {
        let ghost pre = self@;
        let start = self.graph.len();
        let nodes = match self.make_nodes_for_selection(name, sq, qg, has_leaf, &universe) {
            Ok(n) => n,
            Err(e) => {
                return Err(e);
            },
        };
        let ghost g = self@.graph;
        let end = self.graph.len();
        let leaf = end - 1;
        let mut i: usize = start;
        while i < leaf
            invariant
                start <= i <= leaf,
                leaf + 1 == self@.graph.len(),
                g == self@.graph,
                selection(
                    pre,
                    name@,
                    crate::ast::order_view(sq.order),
                    sq.limit,
                    qg.deep_view(),
                    has_leaf,
                    universe.deep_view(),
                ) == Ok::<(Seq<MirNodeView>, Seq<usize>), MirError>((g, nodes@)),
                pre == old(self)@,
                pre.wf(),
                self@.wf(),
                self@ == pre.with_graph(g),
                grown(pre.graph, g),
                start == pre.graph.len(),
                forall|k: int| start <= k < i ==> #[trigger] has_child(g, k as usize),
            decreases leaf - i,
        {
            if !self.graph.has_children(i) {
                assert(!has_child(g, i as usize));
                self.rollback(start, Ghost(pre));
                return Err(MirError::InvariantViolation);
            }
            i += 1;
        }
        let ghost c1 = self@;
        assert(all_feed(g, start as int));
        let mut k: usize = 0;
        while k < nodes.len()
            invariant
                k <= nodes.len(),
                self@.wf(),
                self@.graph == g,
                all_new(pre.graph, g, nodes@),
                remember_all(c1, nodes@, 0) == remember_all(self@, nodes@, k as int),
            decreases nodes.len() - k,
        {
            assert(nodes@[k as int] < g.len());
            let node_name = self.graph.node(nodes[k]).name.clone();
            self.remember(node_name.as_str(), nodes[k]);
            k += 1;
        }
        let leaf_name = self.graph.node(leaf).name.clone();
        self.register_node(leaf_name.as_str(), leaf);
        let mut roots: Vec<MirNodeRef> = Vec::new();
        let mut k: usize = 0;
        while k < nodes.len()
            invariant
                k <= nodes.len(),
                self@.graph == g,
                all_new(pre.graph, g, nodes@),
                roots_among(g, nodes@, 0, Seq::empty()) == roots_among(g, nodes@, k as int, roots@),
                forall|j: int| 0 <= j < roots@.len() ==> pre.graph.len() <= #[trigger] roots@[j] < g.len(),
            decreases nodes.len() - k,
        {
            assert(nodes@[k as int] < g.len());
            if self.graph.node(nodes[k]).ancestors.len() == 0 {
                roots.push(nodes[k]);
            }
            k += 1;
        }
        let total = self.graph.len();
        proof {
            crate::laws::lemma_last_has_no_child(g);
            assert forall|j: int| 0 <= j < roots@.len() implies crate::laws::reaches(
                g,
                leaf,
                #[trigger] roots@[j],
            ) by {
                crate::laws::lemma_last_reaches_all(g, start as int, roots@[j] as int);
            }
        }
        Ok(MirQuery { name: name.to_owned(), roots, leaf })
    }
}

} // verus!
