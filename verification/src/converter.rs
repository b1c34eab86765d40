//! The converter: the graph of all nodes made so far, the registry that
//! finds a node by name and schema version, the schema history of the base
//! tables, the schema version, and the universe of the lowering.
use crate::ast::{ColumnSpecView, ColumnSpecification};
use crate::graph::{graph_ok, reuse_of, MirGraph};
use crate::node::{FlowNode, MirNode, MirNodeRef, MirNodeView};
use crate::universe::{Universe, UniverseView};
use crate::value::MirError;
use vstd::prelude::*;

verus! {

/// Position of the first entry of an association list with key `k`.
pub open spec fn assoc_index<K, V>(m: Seq<(K, V)>, k: K) -> Option<int>
    decreases m.len(),
{
    if m.len() == 0 {
        None
    } else {
        match assoc_index(m.drop_last(), k) {
            Some(i) => Some(i),
            None => if m.last().0 == k {
                Some(m.len() - 1)
            } else {
                None
            },
        }
    }
}

/// The value that an association list holds for key `k`.
pub open spec fn assoc_get<K, V>(m: Seq<(K, V)>, k: K) -> Option<V> {
    match assoc_index(m, k) {
        Some(i) => Some(m[i].1),
        None => None,
    }
}

/// The list with `k` bound to `v`: in place where `k` is bound, else at
/// the end.
pub open spec fn assoc_put<K, V>(m: Seq<(K, V)>, k: K, v: V) -> Seq<(K, V)> {
    match assoc_index(m, k) {
        Some(i) => m.update(i, (k, v)),
        None => m.push((k, v)),
    }
}

/// The list with `k` bound to `v` unless `k` is bound already.
pub open spec fn assoc_put_absent<K, V>(m: Seq<(K, V)>, k: K, v: V) -> Seq<(K, V)> {
    match assoc_index(m, k) {
        Some(_) => m,
        None => m.push((k, v)),
    }
}

/// What a prefix of an association list finds, the list finds.
pub proof fn lemma_assoc_index_found<K, V>(m: Seq<(K, V)>, k: K, n: int)
    requires
        0 <= n <= m.len(),
        assoc_index(m.take(n), k) is Some,
    ensures
        assoc_index(m, k) == assoc_index(m.take(n), k),
    decreases m.len() - n,
{
    if n < m.len() {
        assert(m.take(n + 1).drop_last() =~= m.take(n));
        lemma_assoc_index_found(m, k, n + 1);
    } else {
        assert(m.take(n) =~= m);
    }
}

/// A key that is found is found at a position of the list, and the entry
/// there has that key; no earlier entry has it.
pub proof fn lemma_assoc_index_sound<K, V>(m: Seq<(K, V)>, k: K)
    ensures
        match assoc_index(m, k) {
            Some(i) => 0 <= i < m.len() && m[i].0 == k && forall|j: int|
                0 <= j < i ==> (#[trigger] m[j]).0 != k,
            None => forall|j: int| 0 <= j < m.len() ==> (#[trigger] m[j]).0 != k,
        },
    decreases m.len(),
{
    if m.len() > 0 {
        lemma_assoc_index_sound(m.drop_last(), k);
        let d = m.drop_last();
        match assoc_index(d, k) {
            Some(i) => {
                assert(m[i] == d[i]);
                assert forall|j: int| 0 <= j < i implies (#[trigger] m[j]).0 != k by {
                    assert(d[j].0 != k);
                }
            },
            None => {
                assert forall|j: int| 0 <= j < m.len() - 1 implies (#[trigger] m[j]).0 != k by {
                    assert(d[j].0 != k);
                }
            },
        }
    }
}

/// The schemas that a base table has had: schema version and columns.
pub type SchemaHistory = Vec<(usize, Vec<ColumnSpecification>)>;

/// Lowers schemas and queries into one graph of operators.
#[derive(Debug)]
pub struct SqlToMirConverter {
    /// Every node made so far.
    pub graph: MirGraph,
    /// The schema history of each base table, by table name.
    pub base_schemas: Vec<(String, SchemaHistory)>,
    /// The latest schema version at which each name was registered.
    pub current: Vec<(String, usize)>,
    /// The registered nodes, by name and schema version.
    pub nodes: Vec<((String, usize), MirNodeRef)>,
    /// The schema version; it only moves forward.
    pub schema_version: usize,
    /// The universe in which the conversion happens.
    pub universe: Universe,
}

/// The state of a converter as a value: the graph, the schema histories, the
/// latest versions and the registry as association lists, the schema
/// version and the universe.
pub ghost struct ConverterView {
    pub graph: Seq<MirNodeView>,
    pub base_schemas: Seq<(Seq<char>, Seq<(usize, Seq<ColumnSpecView>)>)>,
    pub current: Seq<(Seq<char>, usize)>,
    pub nodes: Seq<((Seq<char>, usize), usize)>,
    pub schema_version: usize,
    pub universe: UniverseView,
}

impl View for SqlToMirConverter {
    type V = ConverterView;

    open spec fn view(&self) -> ConverterView {
        ConverterView {
            graph: self.graph@,
            base_schemas: self.base_schemas.deep_view(),
            current: self.current.deep_view(),
            nodes: self.nodes.deep_view(),
            schema_version: self.schema_version,
            universe: self.universe.deep_view(),
        }
    }
}

impl ConverterView {
    /// The state of a converter that has seen nothing yet.
    pub open spec fn initial() -> ConverterView {
        ConverterView {
            graph: Seq::empty(),
            base_schemas: Seq::empty(),
            current: Seq::empty(),
            nodes: Seq::empty(),
            schema_version: 0,
            universe: UniverseView::policy_free(),
        }
    }

    /// The state is valid when the graph is, every registered handle is a
    /// node of the graph, and every name with a latest version is
    /// registered at that version.
    pub open spec fn wf(self) -> bool {
        &&& graph_ok(self.graph)
        &&& forall|i: int| 0 <= i < self.nodes.len() ==> (#[trigger] self.nodes[i]).1 < self.graph.len()
        &&& forall|i: int|
            0 <= i < self.current.len() ==> assoc_index(self.nodes, #[trigger] self.current[i])
                is Some
    }

    /// The node registered under `name` at `version`.
    pub open spec fn registered(self, name: Seq<char>, version: usize) -> Option<usize> {
        assoc_get(self.nodes, (name, version))
    }

    /// The node registered under `name` at the latest version of that name.
    pub open spec fn latest(self, name: Seq<char>) -> Option<usize> {
        match assoc_get(self.current, name) {
            Some(v) => self.registered(name, v),
            None => None,
        }
    }

    /// The same state with another graph.
    pub open spec fn with_graph(self, graph: Seq<MirNodeView>) -> ConverterView {
        ConverterView { graph, ..self }
    }

    /// The state after `node` was registered under `name` at the current
    /// schema version, unless the name was registered there before.
    pub open spec fn remember(self, name: Seq<char>, node: usize) -> ConverterView {
        ConverterView {
            nodes: assoc_put_absent(self.nodes, (name, self.schema_version), node),
            ..self
        }
    }

    /// The state after `name` was given the current schema version as its
    /// latest.
    pub open spec fn mark_current(self, name: Seq<char>) -> ConverterView {
        ConverterView { current: assoc_put(self.current, name, self.schema_version), ..self }
    }

    /// The state after `register(name, node)`.
    pub open spec fn register(self, name: Seq<char>, node: usize) -> ConverterView {
        self.remember(name, node).mark_current(name)
    }

    /// The address that the physical dataflow gave to the node registered
    /// under `name` at `version`.
    pub open spec fn flow_node_address(self, name: Seq<char>, version: usize) -> Option<usize> {
        match self.registered(name, version) {
            Some(id) => match self.graph[id as int].flow_node {
                Some(f) => Some(f.spec_address()),
                None => None,
            },
            None => None,
        }
    }

    /// The address of the node registered under `name` at the latest
    /// version of that name.
    pub open spec fn leaf_address(self, name: Seq<char>) -> Option<usize> {
        match assoc_get(self.current, name) {
            Some(v) => self.flow_node_address(name, v),
            None => None,
        }
    }
}

/// Position of the first entry named `name`.
pub fn find_name<V: DeepView>(m: &Vec<(String, V)>, name: &str) -> (r: Option<usize>)
    ensures
        match r {
            Some(i) => assoc_index(m.deep_view(), name@) == Some(i as int) && i < m.len()
                && m[i as int].0@ == name@,
            None => assoc_index(m.deep_view(), name@) is None,
        },
{
    let ghost mv = m.deep_view();
    let owned = name.to_owned();
    let mut i: usize = 0;
    assert(mv.take(0) =~= Seq::empty());
    while i < m.len()
        invariant
            i <= m.len(),
            mv == m.deep_view(),
            owned@ == name@,
            assoc_index(mv.take(i as int), name@) is None,
        decreases m.len() - i,
    {
        proof {
            let t = mv.take(i + 1);
            assert(t.drop_last() =~= mv.take(i as int));
            assert(t.last() == m[i as int].deep_view());
        }
        if m[i].0 == owned {
            proof {
                lemma_assoc_index_found(mv, name@, i + 1);
            }
            return Some(i);
        }
        i += 1;
    }
    assert(mv.take(mv.len() as int) =~= mv);
    None
}

/// Position of the first entry for `name` at `version`.
pub fn find_node(m: &Vec<((String, usize), MirNodeRef)>, name: &str, version: usize) -> (r: Option<
    usize,
>)
    ensures
        match r {
            Some(i) => assoc_index(m.deep_view(), (name@, version)) == Some(i as int) && i
                < m.len() && m.deep_view()[i as int].1 == m[i as int].1,
            None => assoc_index(m.deep_view(), (name@, version)) is None,
        },
{
    let ghost mv = m.deep_view();
    let owned = name.to_owned();
    let mut i: usize = 0;
    assert(mv.take(0) =~= Seq::empty());
    while i < m.len()
        invariant
            i <= m.len(),
            mv == m.deep_view(),
            owned@ == name@,
            assoc_index(mv.take(i as int), (name@, version)) is None,
        decreases m.len() - i,
    {
        proof {
            let t = mv.take(i + 1);
            assert(t.drop_last() =~= mv.take(i as int));
            assert(t.last() == m[i as int].deep_view());
        }
        if m[i].0.0 == owned && m[i].0.1 == version {
            proof {
                lemma_assoc_index_found(mv, (name@, version), i + 1);
            }
            return Some(i);
        }
        i += 1;
    }
    assert(mv.take(mv.len() as int) =~= mv);
    None
}

impl Default for SqlToMirConverter {
    fn default() -> (r: SqlToMirConverter)
        ensures
            r@ == ConverterView::initial(),
            r@.wf(),
    {
        let r = SqlToMirConverter {
            graph: MirGraph::new(),
            base_schemas: Vec::new(),
            current: Vec::new(),
            nodes: Vec::new(),
            schema_version: 0,
            universe: Universe::default(),
        };
        assert(r.base_schemas.deep_view() =~= Seq::empty());
        assert(r.current.deep_view() =~= Seq::empty());
        assert(r.nodes.deep_view() =~= Seq::empty());
        r
    }
}

impl SqlToMirConverter {
    /// A converter that has seen nothing yet, in a policy-free universe at
    /// schema version 0.
    pub fn new() -> (r: SqlToMirConverter)
        ensures
            r@ == ConverterView::initial(),
            r@.wf(),
    {
        SqlToMirConverter::default()
    }

    /// Sets the universe in which the conversion will happen.
    pub fn set_universe(&mut self, universe: Universe)
        ensures
            final(self)@ == (ConverterView { universe: universe.deep_view(), ..old(self)@ }),
    {
        self.universe = universe;
    }

    /// Sets the universe to the policy-free universe.
    pub fn clear_universe(&mut self)
        ensures
            final(self)@ == (ConverterView {
                universe: UniverseView::policy_free(),
                ..old(self)@
            }),
    {
        self.universe = Universe::default();
    }

    /// Moves to a later schema version. A version that is not greater than
    /// the current one is refused and changes nothing.
    pub fn upgrade_schema(&mut self, new_version: usize) -> (r: Result<(), MirError>)
        ensures
            new_version > old(self)@.schema_version ==> r is Ok && final(self)@ == (ConverterView {
                schema_version: new_version,
                ..old(self)@
            }),
            new_version <= old(self)@.schema_version ==> r == Err::<(), MirError>(
                MirError::InvariantViolation,
            ) && final(self)@ == old(self)@,
            old(self)@.wf() ==> final(self)@.wf(),
    {
        if new_version > self.schema_version {
            self.schema_version = new_version;
            Ok(())
        } else {
            Err(MirError::InvariantViolation)
        }
    }

    /// The number of nodes made so far.
    pub fn node_count(&self) -> (r: usize)
        ensures
            r == self@.graph.len(),
    {
        self.graph.len()
    }

    /// The node behind a handle, if the handle is one of this converter.
    pub fn node(&self, id: MirNodeRef) -> (r: Option<&MirNode>)
        ensures
            match r {
                Some(n) => id < self@.graph.len() && n.deep_view() == self@.graph[id as int],
                None => id >= self@.graph.len(),
            },
    {
        if id < self.graph.len() {
            Some(self.graph.node(id))
        } else {
            None
        }
    }

    /// The node registered under `name` at `version`.
    pub fn registered(&self, name: &str, version: usize) -> (r: Option<MirNodeRef>)
        ensures
            r == self@.registered(name@, version),
    {
        match find_node(&self.nodes, name, version) {
            Some(i) => Some(self.nodes[i].1),
            None => None,
        }
    }

    /// The latest schema version at which `name` was registered.
    pub fn current_version(&self, name: &str) -> (r: Option<usize>)
        ensures
            r == assoc_get(self@.current, name@),
    {
        match find_name(&self.current, name) {
            Some(i) => {
                assert(self.current.deep_view()[i as int].1 == self.current[i as int].1);
                Some(self.current[i].1)
            },
            None => None,
        }
    }

    /// Registers `node` under `name` at the current schema version unless
    /// the name is registered there already.
    pub(crate) fn remember(&mut self, name: &str, node: MirNodeRef)
        requires
            old(self)@.wf(),
            node < old(self)@.graph.len(),
        ensures
            final(self)@ == old(self)@.remember(name@, node),
            final(self)@.wf(),
            final(self)@.registered(name@, old(self)@.schema_version) is Some,
    {
        let ghost pre = self@;
        proof {
            lemma_assoc_index_sound(pre.nodes, (name@, pre.schema_version));
        }
        match find_node(&self.nodes, name, self.schema_version) {
            Some(_) => {},
            None => {
                self.nodes.push(((name.to_owned(), self.schema_version), node));
                assert(self.nodes.deep_view() =~= pre.nodes.push(((name@, pre.schema_version), node)));
                proof {
                    let post = self@;
                    assert(post.nodes.take(pre.nodes.len() as int) =~= pre.nodes);
                    assert forall|i: int| 0 <= i < post.current.len() implies assoc_index(
                        post.nodes,
                        #[trigger] post.current[i],
                    ) is Some by {
                        assert(assoc_index(pre.nodes, pre.current[i]) is Some);
                        lemma_assoc_index_found(post.nodes, post.current[i], pre.nodes.len() as int);
                    }
                    assert(post.nodes.drop_last() =~= pre.nodes);
                }
            },
        }
    }

    /// Makes the current schema version the latest of `name`, which must be
    /// registered at that version.
    pub(crate) fn mark_current(&mut self, name: &str)
        requires
            old(self)@.wf(),
            old(self)@.registered(name@, old(self)@.schema_version) is Some,
        ensures
            final(self)@ == old(self)@.mark_current(name@),
            final(self)@.wf(),
    {
        let ghost pre = self@;
        match find_name(&self.current, name) {
            Some(i) => {
                self.current.remove(i);
                self.current.insert(i, (name.to_owned(), self.schema_version));
                assert(self.current.deep_view() =~= pre.current.update(
                    i as int,
                    (name@, pre.schema_version),
                ));
            },
            None => {
                self.current.push((name.to_owned(), self.schema_version));
                assert(self.current.deep_view() =~= pre.current.push((name@, pre.schema_version)));
            },
        }
        proof {
            let post = self@;
            assert forall|i: int| 0 <= i < post.current.len() implies assoc_index(
                post.nodes,
                #[trigger] post.current[i],
            ) is Some by {
                if i < pre.current.len() && post.current[i] == pre.current[i] {
                    assert(assoc_index(pre.nodes, pre.current[i]) is Some);
                }
            }
        }
    }

    /// Registers `node` under `name` at the current schema version, unless
    /// the name is registered there already, and makes that version the
    /// latest of the name.
    pub(crate) fn register_node(&mut self, name: &str, node: MirNodeRef)
        requires
            old(self)@.wf(),
            node < old(self)@.graph.len(),
        ensures
            final(self)@ == old(self)@.register(name@, node),
            final(self)@.wf(),
    {
        self.remember(name, node);
        self.mark_current(name);
    }

    /// Registers `node` under `name` at the current schema version, unless
    /// the name is registered there already, and makes that version the
    /// latest of the name. A handle that is not of this converter is
    /// refused and changes nothing.
    pub fn register(&mut self, name: &str, node: MirNodeRef) -> (r: Result<(), MirError>)
        requires
            old(self)@.wf(),
        ensures
            final(self)@.wf(),
            node < old(self)@.graph.len() ==> r is Ok && final(self)@ == old(self)@.register(
                name@,
                node,
            ),
            node >= old(self)@.graph.len() ==> r == Err::<(), MirError>(MirError::UnknownView)
                && final(self)@ == old(self)@,
    {
        if node < self.graph.len() {
            self.register_node(name, node);
            Ok(())
        } else {
            Err(MirError::UnknownView)
        }
    }

    /// A Reuse node, at the current schema version, over the node that is
    /// registered under `view_name` at the latest version of that name.
    /// A name that was never registered is refused.
    pub fn get_view(&mut self, view_name: &str) -> (r: Result<MirNodeRef, MirError>)
        requires
            old(self)@.wf(),
        ensures
            final(self)@.wf(),
            match r {
                Ok(id) => {
                    &&& old(self)@.latest(view_name@) is Some
                    &&& id == old(self)@.graph.len()
                    &&& final(self)@ == old(self)@.with_graph(
                        old(self)@.graph.push(
                            reuse_of(
                                old(self)@.graph,
                                old(self)@.latest(view_name@)->0,
                                old(self)@.schema_version,
                            ),
                        ),
                    )
                },
                Err(e) => {
                    &&& e == MirError::UnknownView
                    &&& old(self)@.latest(view_name@) is None
                    &&& final(self)@ == old(self)@
                },
            },
    {
        let ghost pre = self@;
        match self.current_version(view_name) {
            None => Err(MirError::UnknownView),
            Some(v) => {
                proof {
                    lemma_assoc_index_sound(pre.current, view_name@);
                    let i = assoc_index(pre.current, view_name@)->0;
                    assert(pre.current[i] == (view_name@, v));
                    assert(assoc_index(pre.nodes, pre.current[i]) is Some);
                    lemma_assoc_index_sound(pre.nodes, (view_name@, v));
                }
                match self.registered(view_name, v) {
                    None => Err(MirError::UnknownView),
                    Some(target) => {
                        let id = self.graph.reuse(target, self.schema_version);
                        Ok(id)
                    },
                }
            },
        }
    }

    /// The address that the physical dataflow gave to the node registered
    /// under `name` at `version`, if there is such a node and it has one.
    pub fn get_flow_node_address(&self, name: &str, version: usize) -> (r: Option<usize>)
        requires
            self@.wf(),
        ensures
            r == self@.flow_node_address(name@, version),
    {
        proof {
            lemma_assoc_index_sound(self@.nodes, (name@, version));
        }
        match self.registered(name, version) {
            None => None,
            Some(id) => match self.graph.node(id).flow_node {
                None => None,
                Some(flow_node) => Some(flow_node.address()),
            },
        }
    }

    /// The address of the node registered under `name` at the latest
    /// version of that name.
    pub fn get_leaf(&self, name: &str) -> (r: Option<usize>)
        requires
            self@.wf(),
        ensures
            r == self@.leaf_address(name@),
    {
        match self.current_version(name) {
            None => None,
            Some(v) => self.get_flow_node_address(name, v),
        }
    }

    /// Records the address that the physical dataflow gave to node `id`.
    /// A handle that is not of this converter changes nothing.
    pub fn set_flow_node(&mut self, id: MirNodeRef, flow_node: FlowNode)
        requires
            old(self)@.wf(),
        ensures
            final(self)@.wf(),
            id < old(self)@.graph.len() ==> final(self)@ == old(self)@.with_graph(
                old(self)@.graph.update(
                    id as int,
                    MirNodeView { flow_node: Some(flow_node), ..old(self)@.graph[id as int] },
                ),
            ),
            id >= old(self)@.graph.len() ==> final(self)@ == old(self)@,
    {
        if id < self.graph.len() {
            self.graph.set_flow_node(id, flow_node);
        }
    }
}

} // verus!
