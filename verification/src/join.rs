//! The joins of a query, made in the order of the query graph. Relations
//! that were joined form a chain; a join reads the ends of the chains of
//! its two relations and merges the chains.
use crate::converter::{
    assoc_get, find_name, lemma_assoc_index_sound, ConverterView, SqlToMirConverter,
};
use crate::factory::join_node;
use crate::node::{MirNodeRef, MirNodeView};
use crate::predicates::{all_new, grown, lemma_grown_push, lemma_grown_trans, many_made};
use crate::query_graph::{JoinEdge, JoinEdgeView};
use crate::text::{joined3, decimal, decimal_string, str_same};
use crate::value::MirError;
use vstd::prelude::*;

verus! {

/// Relations that were joined, and the node that holds their join.
#[derive(Debug, PartialEq, Eq)]
pub struct JoinChain {
    pub tables: Vec<String>,
    pub last_node: MirNodeRef,
}

/// A chain of joined relations as a value.
pub ghost struct JoinChainView {
    pub tables: Seq<Seq<char>>,
    pub last_node: usize,
}

impl DeepView for JoinChain {
    type V = JoinChainView;

    open spec fn deep_view(&self) -> JoinChainView {
        JoinChainView { tables: self.tables.deep_view(), last_node: self.last_node }
    }
}

/// The name of the node with number `k` of the query named `name`.
pub open spec fn numbered(name: Seq<char>, k: usize) -> Seq<char> {
    name + "_n"@ + decimal(k as nat)
}

/// The name of the node with number `k` of the query named `name`.
pub fn numbered_name(name: &str, k: usize) -> (r: String)
    ensures
        r@ == numbered(name@, k),
{
    let number = decimal_string(k as u64);
    joined3(name, "_n", number.as_str())
}

/// Position of the first chain that holds `table`.
pub open spec fn chain_with(chains: Seq<JoinChainView>, table: Seq<char>) -> Option<int>
    decreases chains.len(),
{
    if chains.len() == 0 {
        None
    } else {
        match chain_with(chains.drop_last(), table) {
            Some(i) => Some(i),
            None => if chains.last().tables.contains(table) {
                Some(chains.len() - 1)
            } else {
                None
            },
        }
    }
}

/// What a prefix of the chains finds, the chains find.
pub proof fn lemma_chain_with_found(chains: Seq<JoinChainView>, table: Seq<char>, k: int)
    requires
        0 <= k <= chains.len(),
        chain_with(chains.take(k), table) is Some,
    ensures
        chain_with(chains, table) == chain_with(chains.take(k), table),
    decreases chains.len() - k,
{
    if k < chains.len() {
        assert(chains.take(k + 1).drop_last() =~= chains.take(k));
        lemma_chain_with_found(chains, table, k + 1);
    } else {
        assert(chains.take(k) =~= chains);
    }
}

/// The chain of `table`, taken out of `chains`; for a relation that was
/// not joined yet, a chain of its own that ends at its node. A relation
/// without a node is refused.
pub open spec fn pick_chain(
    chains: Seq<JoinChainView>,
    node_for_rel: Seq<(Seq<char>, usize)>,
    table: Seq<char>,
) -> Result<(Seq<JoinChainView>, JoinChainView), MirError> {
    match chain_with(chains, table) {
        Some(i) => Ok((chains.remove(i), chains[i])),
        None => match assoc_get(node_for_rel, table) {
            Some(n) => Ok((chains, JoinChainView { tables: seq![table], last_node: n })),
            None => Err(MirError::UnknownView),
        },
    }
}

/// One join: the node for the edge `edge`, named by `number`, and the
/// chains after it. The join reads the ends of the chains of its source
/// and of its destination, in that order, and its chain holds the
/// relations of both.
pub open spec fn join_step(
    g: Seq<MirNodeView>,
    version: usize,
    name: Seq<char>,
    edge: JoinEdgeView,
    node_for_rel: Seq<(Seq<char>, usize)>,
    chains: Seq<JoinChainView>,
    number: int,
) -> Result<(MirNodeView, Seq<JoinChainView>), MirError> {
    match pick_chain(chains, node_for_rel, edge.src) {
        Err(e) => Err(e),
        Ok((c1, lc)) => match pick_chain(c1, node_for_rel, edge.dst) {
            Err(e) => Err(e),
            Ok((c2, rc)) => {
                if number > usize::MAX {
                    Err(MirError::InvariantViolation)
                } else {
                    match join_node(
                        g,
                        version,
                        numbered(name, number as usize),
                        edge.predicate,
                        lc.last_node,
                        rc.last_node,
                        edge.kind,
                    ) {
                        Err(e) => Err(e),
                        Ok(n) => Ok(
                            (
                                n,
                                c2.push(
                                    JoinChainView {
                                        tables: lc.tables + rc.tables,
                                        last_node: g.len() as usize,
                                    },
                                ),
                            ),
                        ),
                    }
                }
            },
        }
    }
}

/// The joins from position `i` on: the graph with them and all join
/// nodes. Join number `k` of the query is named by the number
/// `node_count + k`.
pub open spec fn joins_from(
    g: Seq<MirNodeView>,
    version: usize,
    name: Seq<char>,
    joins: Seq<JoinEdgeView>,
    node_for_rel: Seq<(Seq<char>, usize)>,
    i: int,
    chains: Seq<JoinChainView>,
    node_count: usize,
    acc: Seq<usize>,
) -> Result<(Seq<MirNodeView>, Seq<usize>), MirError>
    decreases joins.len() - i,
{
    if i < 0 || i >= joins.len() {
        Ok((g, acc))
    } else {
        match join_step(g, version, name, joins[i], node_for_rel, chains, node_count + acc.len()) {
            Err(e) => Err(e),
            Ok((n, c)) => joins_from(
                g.push(n),
                version,
                name,
                joins,
                node_for_rel,
                i + 1,
                c,
                node_count,
                acc.push(g.len() as usize),
            ),
        }
    }
}

/// Whether `tables` holds `table`.
pub fn has_table(tables: &Vec<String>, table: &str) -> (r: bool)
    ensures
        r == tables.deep_view().contains(table@),
{
    let mut i: usize = 0;
    while i < tables.len()
        invariant
            i <= tables.len(),
            forall|k: int| 0 <= k < i ==> tables.deep_view()[k] != table@,
        decreases tables.len() - i,
    {
        if str_same(tables[i].as_str(), table) {
            assert(tables.deep_view()[i as int] == table@);
            return true;
        }
        i += 1;
    }
    false
}

/// Takes the chain of `table` out of `chains`; for a relation that was
/// not joined yet, makes a chain of its own.
pub fn pick_join_chain(
    chains: &mut Vec<JoinChain>,
    node_for_rel: &Vec<(String, MirNodeRef)>,
    table: &str,
) -> (r: Result<JoinChain, MirError>)
    ensures
        match pick_chain(old(chains).deep_view(), node_for_rel.deep_view(), table@) {
            Ok((rest, chain)) => {
                &&& r is Ok
                &&& r->Ok_0.deep_view() == chain
                &&& final(chains).deep_view() == rest
            },
            Err(e) => {
                &&& r == Err::<JoinChain, MirError>(e)
                &&& final(chains).deep_view() == old(chains).deep_view()
            },
        },
{
    let ghost cv = chains.deep_view();
    let mut i: usize = 0;
    assert(cv.take(0) =~= Seq::empty());
    while i < chains.len()
        invariant
            i <= chains.len(),
            cv == chains.deep_view(),
            *chains == *old(chains),
            chain_with(cv.take(i as int), table@) is None,
        decreases chains.len() - i,
    {
        proof {
            let t = cv.take(i + 1);
            assert(t.drop_last() =~= cv.take(i as int));
            assert(t.last() == chains[i as int].deep_view());
        }
        if has_table(&chains[i].tables, table) {
            proof {
                lemma_chain_with_found(cv, table@, i + 1);
            }
            let chain = chains.remove(i);
            assert(chains.deep_view() =~= cv.remove(i as int));
            return Ok(chain);
        }
        i += 1;
    }
    assert(cv.take(cv.len() as int) =~= cv);
    proof {
        lemma_assoc_index_sound(node_for_rel.deep_view(), table@);
    }
    match find_name(node_for_rel, table) {
        Some(p) => {
            let mut tables: Vec<String> = Vec::new();
            tables.push(table.to_owned());
            assert(tables.deep_view() =~= seq![table@]);
            assert(node_for_rel.deep_view()[p as int].1 == node_for_rel[p as int].1);
            Ok(JoinChain { tables, last_node: node_for_rel[p].1 })
        },
        None => Err(MirError::UnknownView),
    }
}

/// The relations of two chains.
pub fn merged_tables(a: &Vec<String>, b: &Vec<String>) -> (r: Vec<String>)
    ensures
        r.deep_view() == a.deep_view() + b.deep_view(),
{
    let mut out: Vec<String> = Vec::new();
    let mut i: usize = 0;
    while i < a.len()
        invariant
            i <= a.len(),
            out.deep_view() == a.deep_view().take(i as int),
        decreases a.len() - i,
    {
        let ghost prev = out.deep_view();
        out.push(a[i].clone());
        assert(out.deep_view() =~= prev.push(a[i as int]@));
        assert(a.deep_view().take(i + 1) =~= a.deep_view().take(i as int).push(a[i as int]@));
        i += 1;
    }
    assert(a.deep_view().take(a.len() as int) =~= a.deep_view());
    let mut j: usize = 0;
    while j < b.len()
        invariant
            j <= b.len(),
            out.deep_view() == a.deep_view() + b.deep_view().take(j as int),
        decreases b.len() - j,
    {
        let ghost prev = out.deep_view();
        out.push(b[j].clone());
        assert(out.deep_view() =~= prev.push(b[j as int]@));
        assert(b.deep_view().take(j + 1) =~= b.deep_view().take(j as int).push(b[j as int]@));
        j += 1;
    }
    assert(b.deep_view().take(b.len() as int) =~= b.deep_view());
    out
}

impl SqlToMirConverter {
    /// Gives up what was built since the graph had `start` nodes.
    pub(crate) fn rollback(&mut self, start: usize, Ghost(pre): Ghost<ConverterView>)
        requires
            old(self)@.wf(),
            pre.wf(),
            old(self)@ == pre.with_graph(old(self)@.graph),
            grown(pre.graph, old(self)@.graph),
            start == pre.graph.len(),
        ensures
            final(self)@ == pre,
            grown(pre.graph, final(self)@.graph),
    {
        self.graph.truncate(start);
        proof {
            lemma_grown_push(pre.graph, arbitrary());
        }
    }

    /// One join node, for the edge `edge`; `made` joins were made before.
    fn make_join_step(
        &mut self,
        name: &str,
        edge: &JoinEdge,
        node_for_rel: &Vec<(String, MirNodeRef)>,
        chains: &mut Vec<JoinChain>,
        node_count: usize,
        made: usize,
    ) -> (r: Result<MirNodeRef, MirError>)
        requires
            old(self)@.wf(),
        ensures
            final(self)@.wf(),
            match join_step(
                old(self)@.graph,
                old(self)@.schema_version,
                name@,
                edge.deep_view(),
                node_for_rel.deep_view(),
                old(chains).deep_view(),
                node_count + made,
            ) {
                Ok((n, c)) => {
                    &&& r is Ok
                    &&& r->Ok_0 == old(self)@.graph.len()
                    &&& final(self)@ == old(self)@.with_graph(old(self)@.graph.push(n))
                    &&& final(chains).deep_view() == c
                },
                Err(e) => r == Err::<MirNodeRef, MirError>(e) && final(self)@ == old(self)@,
            },
    {
        let left_chain = match pick_join_chain(chains, node_for_rel, edge.src.as_str()) {
            Ok(c) => c,
            Err(e) => {
                return Err(e);
            },
        };
        let right_chain = match pick_join_chain(chains, node_for_rel, edge.dst.as_str()) {
            Ok(c) => c,
            Err(e) => {
                return Err(e);
            },
        };
        if made > usize::MAX - node_count {
            return Err(MirError::InvariantViolation);
        }
        let node_name = numbered_name(name, node_count + made);
        let jn = match self.make_join_node(
            node_name.as_str(),
            &edge.predicate,
            left_chain.last_node,
            right_chain.last_node,
            edge.kind,
        ) {
            Ok(n) => n,
            Err(e) => {
                return Err(e);
            },
        };
        let ghost chains_before = chains.deep_view();
        let merged = JoinChain {
            tables: merged_tables(&left_chain.tables, &right_chain.tables),
            last_node: jn,
        };
        chains.push(merged);
        assert(chains.deep_view() =~= chains_before.push(merged.deep_view()));
        Ok(jn)
    }

    /// The join nodes of a query, in the order of `joins`. `node_for_rel`
    /// gives the node of each relation; `node_count` is the number by
    /// which the first join is named.
    pub fn make_joins(
        &mut self,
        name: &str,
        joins: &Vec<JoinEdge>,
        node_for_rel: &Vec<(String, MirNodeRef)>,
        node_count: usize,
    ) -> (r: Result<Vec<MirNodeRef>, MirError>)
        requires
            old(self)@.wf(),
        ensures
            final(self)@.wf(),
            grown(old(self)@.graph, final(self)@.graph),
            many_made(
                old(self)@,
                final(self)@,
                r,
                joins_from(
                    old(self)@.graph,
                    old(self)@.schema_version,
                    name@,
                    joins.deep_view(),
                    node_for_rel.deep_view(),
                    0,
                    Seq::empty(),
                    node_count,
                    Seq::empty(),
                ),
            ),
            r is Ok ==> all_new(old(self)@.graph, final(self)@.graph, r->Ok_0@),
            r is Ok ==> r->Ok_0@.len() == joins.len(),
            r is Ok ==> old(self)@.graph.len() + r->Ok_0@.len() == final(self)@.graph.len(),
    {
        let ghost pre = self@;
        let ghost jv = joins.deep_view();
        let start = self.graph.len();
        let mut chains: Vec<JoinChain> = Vec::new();
        let mut join_nodes: Vec<MirNodeRef> = Vec::new();
        let mut i: usize = 0;
        assert(chains.deep_view() =~= Seq::empty());
        proof {
            lemma_grown_push(pre.graph, arbitrary());
        }
        while i < joins.len()
            invariant
                i <= joins.len(),
                jv == joins.deep_view(),
                pre == old(self)@,
                pre.wf(),
                self@.wf(),
                self@ == pre.with_graph(self@.graph),
                grown(pre.graph, self@.graph),
                start == pre.graph.len(),
                join_nodes@.len() == i,
                all_new(pre.graph, self@.graph, join_nodes@),
                pre.graph.len() + join_nodes@.len() == self@.graph.len(),
                joins_from(
                    pre.graph,
                    pre.schema_version,
                    name@,
                    jv,
                    node_for_rel.deep_view(),
                    0,
                    Seq::empty(),
                    node_count,
                    Seq::empty(),
                ) == joins_from(
                    self@.graph,
                    pre.schema_version,
                    name@,
                    jv,
                    node_for_rel.deep_view(),
                    i as int,
                    chains.deep_view(),
                    node_count,
                    join_nodes@,
                ),
            decreases joins.len() - i,
        {
            assert(jv[i as int] == joins[i as int].deep_view());
            let ghost g_before = self@.graph;
            let made = join_nodes.len();
            match self.make_join_step(name, &joins[i], node_for_rel, &mut chains, node_count, made) {
                Err(e) => {
                    self.rollback(start, Ghost(pre));
                    return Err(e);
                },
                Ok(jn) => {
                    join_nodes.push(jn);
                    proof {
                        lemma_grown_push(g_before, self@.graph.last());
                        lemma_grown_trans(pre.graph, g_before, self@.graph);
                    }
                },
            }
            i += 1;
        }
        Ok(join_nodes)
    }
}

} // verus!
