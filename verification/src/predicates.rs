//! From boolean condition trees to chains of Filter nodes. A conjunction
//! stacks the chain of its right side on that of its left side; a
//! disjunction builds both chains on one parent and joins their ends by a
//! Union.
use crate::ast::{
    columns_contain, condition_same, contains_column, Column, ColumnView, ConditionBase,
    ConditionBaseView, ConditionExpression, ConditionTreeView, ConditionView, Operator,
};
use crate::converter::{ConverterView, SqlToMirConverter};
use crate::factory::{filter_node, same_base_union_node};
use crate::graph::clone_columns;
use crate::node::{MirNodeRef, MirNodeView};
use crate::text::{joined, joined3, decimal, decimal_string};
use crate::value::MirError;
use vstd::prelude::*;

verus! {

/// What a constructor of several nodes owes: on success the handles of the
/// new nodes and the new graph, while the rest of the state stays; on
/// refusal the error, with the state unchanged.
pub open spec fn many_made(
    pre: ConverterView,
    post: ConverterView,
    r: Result<Vec<MirNodeRef>, MirError>,
    model: Result<(Seq<MirNodeView>, Seq<usize>), MirError>,
) -> bool {
    match model {
        Ok((g, nodes)) => r is Ok && r->Ok_0@ == nodes && post == pre.with_graph(g),
        Err(e) => r == Err::<Vec<MirNodeRef>, MirError>(e) && post == pre,
    }
}

/// The graph `post` is the graph `pre` with nodes appended.
pub open spec fn grown(pre: Seq<MirNodeView>, post: Seq<MirNodeView>) -> bool {
    pre.len() <= post.len() && post.take(pre.len() as int) == pre
}

/// Every handle of `nodes` is a node that `post` has and `pre` has not.
pub open spec fn all_new(pre: Seq<MirNodeView>, post: Seq<MirNodeView>, nodes: Seq<usize>) -> bool {
    forall|k: int| 0 <= k < nodes.len() ==> pre.len() <= #[trigger] nodes[k] < post.len()
}

/// The name of the filter with number `nc` in the chain named `name`.
pub open spec fn filter_name(name: Seq<char>, nc: usize) -> Seq<char> {
    name + "_f"@ + decimal(nc as nat)
}

/// The name of the union in the chain named `name`.
pub open spec fn union_name(name: Seq<char>) -> Seq<char> {
    name + "_un"@
}

/// The nodes for the condition `ce` over `parent`, and the graph with
/// them: the graph after, and the handles of the new nodes in the order
/// of their creation; the last of them is the end of the chain.
///
/// A comparison gives one filter, numbered `nc`. A conjunction gives the
/// nodes of its left side over `parent`, then those of its right side
/// over the end of the left chain, numbered on from where the left side
/// stopped. A disjunction gives both chains over `parent` and then a
/// union of their ends that shows the columns of `parent`. Negations,
/// bare operands and logical operators other than AND and OR are refused.
pub open spec fn predicate_nodes(
    g: Seq<MirNodeView>,
    version: usize,
    name: Seq<char>,
    parent: usize,
    ce: ConditionView,
    nc: usize,
) -> Result<(Seq<MirNodeView>, Seq<usize>), MirError>
    decreases ce,
{
    if parent >= g.len() {
        Err(MirError::UnknownView)
    } else {
        match ce {
            ConditionView::LogicalOp(ct) => logical_nodes(g, version, name, parent, ct, nc),
            ConditionView::ComparisonOp(ct) => match filter_node(
                g,
                version,
                filter_name(name, nc),
                parent,
                ct,
            ) {
                Err(e) => Err(e),
                Ok(f) => Ok((g.push(f), seq![g.len() as usize])),
            },
            ConditionView::NegationOp(_) => Err(MirError::Unsupported),
            ConditionView::Base(_) => Err(MirError::Unsupported),
        }
    }
}

/// The nodes for the conjunction or disjunction `ct` over `parent`; see
/// `predicate_nodes`.
pub open spec fn logical_nodes(
    g: Seq<MirNodeView>,
    version: usize,
    name: Seq<char>,
    parent: usize,
    ct: ConditionTreeView,
    nc: usize,
) -> Result<(Seq<MirNodeView>, Seq<usize>), MirError>
    decreases ct,
{
    if ct.operator != Operator::And && ct.operator != Operator::Or {
        Err(MirError::Unsupported)
    } else {
        match predicate_nodes(g, version, name, parent, *ct.left, nc) {
            Err(e) => Err(e),
            Ok((g1, left)) => {
                if nc + left.len() > usize::MAX {
                    Err(MirError::InvariantViolation)
                } else {
                    let next = (nc + left.len()) as usize;
                    let over = if ct.operator == Operator::And {
                        left.last()
                    } else {
                        parent
                    };
                    match predicate_nodes(g1, version, name, over, *ct.right, next) {
                        Err(e) => Err(e),
                        Ok((g2, right)) => {
                            if ct.operator == Operator::And {
                                Ok((g2, left + right))
                            } else {
                                match same_base_union_node(
                                    g2,
                                    version,
                                    union_name(name),
                                    seq![left.last(), right.last()],
                                    g[parent as int].columns,
                                ) {
                                    Err(e) => Err(e),
                                    Ok(u) => Ok(
                                        (g2.push(u), (left + right).push(g2.len() as usize)),
                                    ),
                                }
                            }
                        },
                    }
                }
            },
        }
    }
}

/// Appending to a grown graph grows the graph.
pub proof fn lemma_grown_trans(a: Seq<MirNodeView>, b: Seq<MirNodeView>, c: Seq<MirNodeView>)
    requires
        grown(a, b),
        grown(b, c),
    ensures
        grown(a, c),
{
    assert(c.take(a.len() as int) =~= b.take(a.len() as int));
}

/// A graph with one more node has grown.
pub proof fn lemma_grown_push(a: Seq<MirNodeView>, n: MirNodeView)
    ensures
        grown(a, a.push(n)),
        grown(a, a),
{
    assert(a.push(n).take(a.len() as int) =~= a);
    assert(a.take(a.len() as int) =~= a);
}

/// New nodes of two steps in a row are new nodes of both steps together.
pub proof fn lemma_all_new_concat(
    a: Seq<MirNodeView>,
    b: Seq<MirNodeView>,
    c: Seq<MirNodeView>,
    first: Seq<usize>,
    second: Seq<usize>,
)
    requires
        a.len() <= b.len() <= c.len(),
        all_new(a, b, first),
        all_new(b, c, second),
    ensures
        all_new(a, c, first + second),
{
    assert forall|k: int| 0 <= k < (first + second).len() implies a.len() <= #[trigger] (first
        + second)[k] < c.len() by {
        if k < first.len() {
            assert((first + second)[k] == first[k]);
        } else {
            assert((first + second)[k] == second[k - first.len()]);
        }
    }
}

/// New nodes of a step are new nodes of a longer step that ends where it
/// ends, and two lists of such nodes make one.
pub proof fn lemma_all_new_join(
    a: Seq<MirNodeView>,
    b: Seq<MirNodeView>,
    c: Seq<MirNodeView>,
    first: Seq<usize>,
    second: Seq<usize>,
)
    requires
        a.len() <= b.len() <= c.len(),
        all_new(a, c, first),
        all_new(b, c, second),
    ensures
        all_new(a, c, first + second),
{
    assert forall|k: int| 0 <= k < (first + second).len() implies a.len() <= #[trigger] (first
        + second)[k] < c.len() by {
        if k < first.len() {
            assert((first + second)[k] == first[k]);
        } else {
            assert((first + second)[k] == second[k - first.len()]);
        }
    }
}

/// `cols` with `c` added unless it holds the same column already.
pub open spec fn with_column(cols: Seq<ColumnView>, c: ColumnView) -> Seq<ColumnView> {
    if columns_contain(cols, c) {
        cols
    } else {
        cols.push(c)
    }
}

/// `acc` with the columns that the condition `ce` mentions, each once, in
/// the order in which the condition first mentions them. A negation is
/// refused.
pub open spec fn collect_columns(acc: Seq<ColumnView>, ce: ConditionView) -> Result<
    Seq<ColumnView>,
    MirError,
>
    decreases ce,
{
    match ce {
        ConditionView::LogicalOp(ct) => match collect_columns(acc, *ct.left) {
            Err(e) => Err(e),
            Ok(a) => collect_columns(a, *ct.right),
        },
        ConditionView::ComparisonOp(ct) => match collect_columns(acc, *ct.left) {
            Err(e) => Err(e),
            Ok(a) => collect_columns(a, *ct.right),
        },
        ConditionView::Base(ConditionBaseView::Field(c)) => Ok(with_column(acc, c)),
        ConditionView::NegationOp(_) => Err(MirError::Unsupported),
        _ => Ok(acc),
    }
}

/// The columns that the condition `ce` mentions.
pub open spec fn predicate_columns(ce: ConditionView) -> Result<Seq<ColumnView>, MirError> {
    collect_columns(Seq::empty(), ce)
}

/// Whether `list` holds a condition equal to `ce`.
pub open spec fn conditions_contain(list: Seq<ConditionView>, ce: ConditionView) -> bool {
    exists|i: int| 0 <= i < list.len() && condition_same(#[trigger] list[i], ce)
}

/// The name of the chain with number `count` among the chains that are
/// built above a grouped operator for the node named `name`.
pub open spec fn above_group_name(name: Seq<char>, count: usize) -> Seq<char> {
    name + "_mp"@ + decimal(count as nat)
}

/// The chains for the conditions `ces` from position `i` on, each over the
/// end of the one before, the first over `prev`. A condition that
/// `created` holds is passed over; each other one is added to `created`.
/// `acc` holds the nodes made so far. The result is the graph, all nodes
/// and the conditions created.
pub open spec fn above_group_by(
    g: Seq<MirNodeView>,
    version: usize,
    name: Seq<char>,
    ces: Seq<ConditionView>,
    i: int,
    prev: usize,
    created: Seq<ConditionView>,
    acc: Seq<usize>,
) -> Result<(Seq<MirNodeView>, Seq<usize>, Seq<ConditionView>), MirError>
    decreases ces.len() - i,
{
    if i < 0 || i >= ces.len() {
        Ok((g, acc, created))
    } else if conditions_contain(created, ces[i]) {
        above_group_by(g, version, name, ces, i + 1, prev, created, acc)
    } else {
        match predicate_nodes(
            g,
            version,
            above_group_name(name, acc.len() as usize),
            prev,
            ces[i],
            0,
        ) {
            Err(e) => Err(e),
            Ok((g1, ns)) => above_group_by(
                g1,
                version,
                name,
                ces,
                i + 1,
                ns.last(),
                created.push(ces[i]),
                acc + ns,
            ),
        }
    }
}

/// Whether `list` holds a condition equal to `ce`.
pub fn contains_condition(list: &Vec<ConditionExpression>, ce: &ConditionExpression) -> (r: bool)
    ensures
        r == conditions_contain(list.deep_view(), ce.deep_view()),
{
    let mut i: usize = 0;
    while i < list.len()
        invariant
            i <= list.len(),
            forall|k: int|
                0 <= k < i ==> !condition_same(#[trigger] list.deep_view()[k], ce.deep_view()),
        decreases list.len() - i,
    {
        if list[i].same_as(ce) {
            assert(condition_same(list.deep_view()[i as int], ce.deep_view()));
            return true;
        }
        i += 1;
    }
    false
}

/// Appends `more` to `nodes`.
pub fn extend_refs(nodes: &mut Vec<MirNodeRef>, more: &Vec<MirNodeRef>)
    ensures
        final(nodes)@ == old(nodes)@ + more@,
{
    let mut i: usize = 0;
    while i < more.len()
        invariant
            i <= more.len(),
            nodes@ == old(nodes)@ + more@.take(i as int),
        decreases more.len() - i,
    {
        nodes.push(more[i]);
        assert(more@.take(i + 1) =~= more@.take(i as int).push(more[i as int]));
        assert(nodes@ =~= old(nodes)@ + more@.take(i + 1));
        i += 1;
    }
    assert(more@.take(more.len() as int) =~= more@);
}

/// Adds to `cols` the columns that `ce` mentions and that it does not
/// hold yet.
fn collect_predicate_columns(cols: &mut Vec<Column>, ce: &ConditionExpression) -> (r: Result<
    (),
    MirError,
>)
    ensures
        match collect_columns(old(cols).deep_view(), ce.deep_view()) {
            Ok(all) => r is Ok && final(cols).deep_view() == all,
            Err(e) => r == Err::<(), MirError>(e),
        },
    decreases ce,
{
    match ce {
        ConditionExpression::LogicalOp(ct) => {
            assert(ce.deep_view() == ConditionView::LogicalOp(ct.deep_view()));
            assert(*ct.deep_view().left == ct.left.deep_view());
            assert(*ct.deep_view().right == ct.right.deep_view());
            match collect_predicate_columns(cols, &*ct.left) {
                Err(e) => Err(e),
                Ok(()) => collect_predicate_columns(cols, &*ct.right),
            }
        },
        ConditionExpression::ComparisonOp(ct) => {
            assert(ce.deep_view() == ConditionView::ComparisonOp(ct.deep_view()));
            assert(*ct.deep_view().left == ct.left.deep_view());
            assert(*ct.deep_view().right == ct.right.deep_view());
            match collect_predicate_columns(cols, &*ct.left) {
                Err(e) => Err(e),
                Ok(()) => collect_predicate_columns(cols, &*ct.right),
            }
        },
        ConditionExpression::Base(ConditionBase::Field(c)) => {
            if !contains_column(cols, c) {
                let ghost prev = cols.deep_view();
                cols.push(c.clone());
                assert(cols.deep_view() =~= prev.push(c.deep_view()));
            }
            Ok(())
        },
        ConditionExpression::NegationOp(_) => Err(MirError::Unsupported),
        _ => Ok(()),
    }
}

impl SqlToMirConverter {
    /// The chain of nodes for the condition `ce` over `parent`. `nc` is
    /// the number of the first filter of the chain.
    pub fn make_predicate_nodes(
        &mut self,
        name: &str,
        parent: MirNodeRef,
        ce: &ConditionExpression,
        nc: usize,
    ) -> (r: Result<Vec<MirNodeRef>, MirError>)
        requires
            old(self)@.wf(),
        ensures
            final(self)@.wf(),
            many_made(
                old(self)@,
                final(self)@,
                r,
                predicate_nodes(
                    old(self)@.graph,
                    old(self)@.schema_version,
                    name@,
                    parent,
                    ce.deep_view(),
                    nc,
                ),
            ),
            grown(old(self)@.graph, final(self)@.graph),
            r is Ok ==> r->Ok_0@.len() > 0 && all_new(
                old(self)@.graph,
                final(self)@.graph,
                r->Ok_0@,
            ),
            r is Ok ==> old(self)@.graph.len() + r->Ok_0@.len() == final(self)@.graph.len(),
        decreases ce, 1nat,
    {
        let ghost pre = self@;
        proof {
            lemma_grown_push(pre.graph, arbitrary());
        }
        if parent >= self.graph.len() {
            return Err(MirError::UnknownView);
        }
        match ce {
            ConditionExpression::LogicalOp(ct) => {
                assert(ce.deep_view() == ConditionView::LogicalOp(ct.deep_view()));
                self.make_logical_nodes(name, parent, ct, nc)
            },
            ConditionExpression::ComparisonOp(ct) => {
                assert(ce.deep_view() == ConditionView::ComparisonOp(ct.deep_view()));
                let number = decimal_string(nc as u64);
                let filter_name = joined3(name, "_f", number.as_str());
                match self.make_filter_node(filter_name.as_str(), parent, ct) {
                    Err(e) => Err(e),
                    Ok(f) => {
                        let mut pred_nodes: Vec<MirNodeRef> = Vec::new();
                        pred_nodes.push(f);
                        assert(pred_nodes@ =~= seq![f]);
                        proof {
                            lemma_grown_push(pre.graph, self@.graph.last());
                        }
                        Ok(pred_nodes)
                    },
                }
            },
            ConditionExpression::NegationOp(_) => Err(MirError::Unsupported),
            ConditionExpression::Base(_) => Err(MirError::Unsupported),
        }
    }

    /// The chain of nodes for the conjunction or disjunction `ct` over
    /// `parent`.
    fn make_logical_nodes(
        &mut self,
        name: &str,
        parent: MirNodeRef,
        ct: &crate::ast::ConditionTree,
        nc: usize,
    ) -> (r: Result<Vec<MirNodeRef>, MirError>)
        requires
            old(self)@.wf(),
            parent < old(self)@.graph.len(),
        ensures
            final(self)@.wf(),
            many_made(
                old(self)@,
                final(self)@,
                r,
                logical_nodes(
                    old(self)@.graph,
                    old(self)@.schema_version,
                    name@,
                    parent,
                    ct.deep_view(),
                    nc,
                ),
            ),
            grown(old(self)@.graph, final(self)@.graph),
            r is Ok ==> r->Ok_0@.len() > 0 && all_new(
                old(self)@.graph,
                final(self)@.graph,
                r->Ok_0@,
            ),
            r is Ok ==> old(self)@.graph.len() + r->Ok_0@.len() == final(self)@.graph.len(),
        decreases ct, 0nat,
    {
        let ghost pre = self@;
        let start = self.graph.len();
        proof {
            lemma_grown_push(pre.graph, arbitrary());
            assert(*ct.deep_view().left == ct.left.deep_view());
            assert(*ct.deep_view().right == ct.right.deep_view());
        }
        let and = ct.operator == Operator::And;
        if !and && ct.operator != Operator::Or {
            return Err(MirError::Unsupported);
        }
        let output_cols = clone_columns(&self.graph.node(parent).columns);
        let mut left = match self.make_predicate_nodes(name, parent, &*ct.left, nc) {
            Ok(l) => l,
            Err(e) => {
                return Err(e);
            },
        };
        let ghost g1 = self@.graph;
        if left.len() > usize::MAX - nc {
            self.graph.truncate(start);
            return Err(MirError::InvariantViolation);
        }
        let last_left = left[left.len() - 1];
        let over = if and {
            last_left
        } else {
            parent
        };
        let right = match self.make_predicate_nodes(name, over, &*ct.right, nc + left.len()) {
            Ok(r) => r,
            Err(e) => {
                self.graph.truncate(start);
                return Err(e);
            },
        };
        let ghost g2 = self@.graph;
        let last_right = right[right.len() - 1];
        let ghost left_nodes = left@;
        extend_refs(&mut left, &right);
        proof {
            lemma_grown_trans(pre.graph, g1, g2);
            lemma_all_new_concat(pre.graph, g1, g2, left_nodes, right@);
        }
        if and {
            Ok(left)
        } else {
            let mut ends: Vec<MirNodeRef> = Vec::new();
            ends.push(last_left);
            ends.push(last_right);
            assert(ends@ =~= seq![last_left, last_right]);
            let union_name = joined(name, "_un");
            match self.make_union_from_same_base(union_name.as_str(), ends, output_cols) {
                Err(e) => {
                    self.graph.truncate(start);
                    Err(e)
                },
                Ok(u) => {
                    let ghost both = left@;
                    left.push(u);
                    proof {
                        lemma_grown_push(g2, self@.graph.last());
                        lemma_grown_trans(pre.graph, g2, self@.graph);
                        assert(all_new(g2, self@.graph, seq![u]));
                        lemma_all_new_concat(pre.graph, g2, self@.graph, both, seq![u]);
                        assert(left@ =~= both + seq![u]);
                    }
                    Ok(left)
                },
            }
        }
    }

    /// The columns that the condition `ce` mentions, each once, in the
    /// order in which the condition first mentions them.
    pub fn predicate_columns(&self, ce: &ConditionExpression) -> (r: Result<Vec<Column>, MirError>)
        ensures
            match predicate_columns(ce.deep_view()) {
                Ok(all) => r is Ok && r->Ok_0.deep_view() == all,
                Err(e) => r == Err::<Vec<Column>, MirError>(e),
            },
    {
        let mut cols: Vec<Column> = Vec::new();
        assert(cols.deep_view() =~= Seq::empty());
        match collect_predicate_columns(&mut cols, ce) {
            Ok(()) => Ok(cols),
            Err(e) => Err(e),
        }
    }

    /// The chains for the conditions `ces` that `created_predicates` does
    /// not hold yet, stacked on `parent` one after the other. Each
    /// condition for which a chain is made is added to
    /// `created_predicates`; on refusal it is left as it was.
    pub fn predicates_above_group_by(
        &mut self,
        name: &str,
        ces: &Vec<ConditionExpression>,
        parent: MirNodeRef,
        created_predicates: &mut Vec<ConditionExpression>,
    ) -> (r: Result<Vec<MirNodeRef>, MirError>)
        requires
            old(self)@.wf(),
        ensures
            final(self)@.wf(),
            grown(old(self)@.graph, final(self)@.graph),
            match above_group_by(
                old(self)@.graph,
                old(self)@.schema_version,
                name@,
                ces.deep_view(),
                0,
                parent,
                old(created_predicates).deep_view(),
                Seq::empty(),
            ) {
                Ok((g, nodes, created)) => {
                    &&& r is Ok
                    &&& r->Ok_0@ == nodes
                    &&& final(self)@ == old(self)@.with_graph(g)
                    &&& final(created_predicates).deep_view() == created
                    &&& all_new(old(self)@.graph, g, nodes)
                    &&& old(self)@.graph.len() + nodes.len() == g.len()
                },
                Err(e) => {
                    &&& r == Err::<Vec<MirNodeRef>, MirError>(e)
                    &&& final(self)@ == old(self)@
                    &&& final(created_predicates).deep_view() == old(
                        created_predicates,
                    ).deep_view()
                },
            },
    {
        let ghost pre = self@;
        let ghost created0 = created_predicates.deep_view();
        let ghost cv = ces.deep_view();
        let start = self.graph.len();
        let created_start = created_predicates.len();
        let mut nodes: Vec<MirNodeRef> = Vec::new();
        let mut prev_node = parent;
        let mut i: usize = 0;
        assert(pre.graph.take(start as int) =~= pre.graph);
        assert(created0.take(created_start as int) =~= created0);
        while i < ces.len()
            invariant
                i <= ces.len(),
                cv == ces.deep_view(),
                pre == old(self)@,
                created0 == old(created_predicates).deep_view(),
                pre.wf(),
                self@.wf(),
                self@ == pre.with_graph(self@.graph),
                grown(pre.graph, self@.graph),
                start == pre.graph.len(),
                created_start == created0.len(),
                created_start <= created_predicates.len(),
                created_predicates.deep_view().take(created_start as int) == created0,
                all_new(pre.graph, self@.graph, nodes@),
                pre.graph.len() + nodes@.len() == self@.graph.len(),
                above_group_by(
                    pre.graph,
                    pre.schema_version,
                    name@,
                    cv,
                    0,
                    parent,
                    created0,
                    Seq::empty(),
                ) == above_group_by(
                    self@.graph,
                    pre.schema_version,
                    name@,
                    cv,
                    i as int,
                    prev_node,
                    created_predicates.deep_view(),
                    nodes@,
                ),
            decreases ces.len() - i,
        {
            let ce = &ces[i];
            assert(cv[i as int] == ce.deep_view());
            if !contains_condition(created_predicates, ce) {
                let number = decimal_string(nodes.len() as u64);
                let chain_name = joined3(name, "_mp", number.as_str());
                let ghost g_before = self@.graph;
                match self.make_predicate_nodes(chain_name.as_str(), prev_node, ce, 0) {
                    Err(e) => {
                        self.graph.truncate(start);
                        created_predicates.truncate(created_start);
                        assert(created_predicates.deep_view() =~= created0);
                        proof {
                            lemma_grown_push(pre.graph, arbitrary());
                        }
                        return Err(e);
                    },
                    Ok(mpns) => {
                        prev_node = mpns[mpns.len() - 1];
                        let ghost nodes_before = nodes@;
                        extend_refs(&mut nodes, &mpns);
                        let ghost created_before = created_predicates.deep_view();
                        created_predicates.push(ce.clone());
                        proof {
                            assert(created_predicates.deep_view() =~= created_before.push(
                                ce.deep_view(),
                            ));
                            assert(created_predicates.deep_view().take(created_start as int)
                                =~= created_before.take(created_start as int));
                            assert(self@.graph.take(start as int) =~= g_before.take(start as int));
                            assert forall|k: int| 0 <= k < nodes@.len() implies pre.graph.len()
                                <= #[trigger] nodes@[k] < self@.graph.len() by {
                                if k < nodes_before.len() {
                                    assert(nodes@[k] == nodes_before[k]);
                                } else {
                                    assert(nodes@[k] == mpns@[k - nodes_before.len()]);
                                }
                            }
                        }
                    },
                }
            }
            i += 1;
        }
        Ok(nodes)
    }
}

} // verus!
