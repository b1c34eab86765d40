//! The query graph: what an earlier pass has gathered of a SELECT, by
//! relation. The lowering reads the relations with their predicates, the
//! joins in their order, the GROUP BY columns, the output columns and the
//! signature hash that names the query's nodes.
use crate::ast::{
    ArithmeticExpression, ArithmeticView, Column, ColumnView, ConditionExpression, ConditionTree,
    ConditionTreeView, ConditionView, Literal, LiteralView,
};
use crate::node::JoinType;
use crate::text::{str_less, text_less};
use vstd::prelude::*;

verus! {

/// One relation of a query with what the query asks of it.
#[derive(Debug, PartialEq, Eq)]
pub struct QueryGraphNode {
    pub rel_name: String,
    pub predicates: Vec<ConditionExpression>,
    pub columns: Vec<Column>,
    pub parameters: Vec<Column>,
}

/// A relation of a query as a value.
pub ghost struct QueryGraphNodeView {
    pub rel_name: Seq<char>,
    pub predicates: Seq<ConditionView>,
    pub columns: Seq<ColumnView>,
    pub parameters: Seq<ColumnView>,
}

impl DeepView for QueryGraphNode {
    type V = QueryGraphNodeView;

    open spec fn deep_view(&self) -> QueryGraphNodeView {
        QueryGraphNodeView {
            rel_name: self.rel_name@,
            predicates: self.predicates.deep_view(),
            columns: self.columns.deep_view(),
            parameters: self.parameters.deep_view(),
        }
    }
}

/// A join of two relations on one pair of columns.
#[derive(Debug, PartialEq, Eq)]
pub struct JoinEdge {
    pub src: String,
    pub dst: String,
    pub kind: JoinType,
    pub predicate: ConditionTree,
}

/// A join of two relations as a value.
pub ghost struct JoinEdgeView {
    pub src: Seq<char>,
    pub dst: Seq<char>,
    pub kind: JoinType,
    pub predicate: ConditionTreeView,
}

impl DeepView for JoinEdge {
    type V = JoinEdgeView;

    open spec fn deep_view(&self) -> JoinEdgeView {
        JoinEdgeView {
            src: self.src@,
            dst: self.dst@,
            kind: self.kind,
            predicate: self.predicate.deep_view(),
        }
    }
}

/// An output column computed by arithmetic.
#[derive(Debug, PartialEq, Eq)]
pub struct ArithmeticColumn {
    pub name: String,
    pub table: Option<String>,
    pub expression: ArithmeticExpression,
}

/// An output column that holds a literal.
#[derive(Debug, PartialEq, Eq)]
pub struct LiteralColumn {
    pub name: String,
    pub table: Option<String>,
    pub value: Literal,
}

/// A column of the query's result.
#[derive(Debug, PartialEq, Eq)]
pub enum OutputColumn {
    Arithmetic(ArithmeticColumn),
    Data(Column),
    Literal(LiteralColumn),
}

/// A column of the result of a query as a value.
pub ghost enum OutputColumnView {
    Arithmetic { name: Seq<char>, table: Option<Seq<char>>, expression: ArithmeticView },
    Data(ColumnView),
    Literal { name: Seq<char>, table: Option<Seq<char>>, value: LiteralView },
}

impl DeepView for OutputColumn {
    type V = OutputColumnView;

    open spec fn deep_view(&self) -> OutputColumnView {
        match self {
            OutputColumn::Arithmetic(a) => OutputColumnView::Arithmetic {
                name: a.name@,
                table: a.table.deep_view(),
                expression: a.expression.deep_view(),
            },
            OutputColumn::Data(c) => OutputColumnView::Data(c.deep_view()),
            OutputColumn::Literal(l) => OutputColumnView::Literal {
                name: l.name@,
                table: l.table.deep_view(),
                value: l.value.deep_view(),
            },
        }
    }
}

/// The query graph of one SELECT.
#[derive(Debug, PartialEq, Eq)]
pub struct QueryGraph {
    /// The relations. The one named `computed_columns`, if present, holds
    /// the aggregate columns and stands for no table.
    pub relations: Vec<QueryGraphNode>,
    /// The joins, in the order in which they are to be made.
    pub joins: Vec<JoinEdge>,
    /// The GROUP BY columns.
    pub group_by: Vec<Column>,
    /// The columns of the result.
    pub columns: Vec<OutputColumn>,
    /// The hash of the query's signature.
    pub signature_hash: u64,
}

/// A query graph as a value.
pub ghost struct QueryGraphView {
    pub relations: Seq<QueryGraphNodeView>,
    pub joins: Seq<JoinEdgeView>,
    pub group_by: Seq<ColumnView>,
    pub columns: Seq<OutputColumnView>,
    pub signature_hash: u64,
}

impl DeepView for QueryGraph {
    type V = QueryGraphView;

    open spec fn deep_view(&self) -> QueryGraphView {
        QueryGraphView {
            relations: self.relations.deep_view(),
            joins: self.joins.deep_view(),
            group_by: self.group_by.deep_view(),
            columns: self.columns.deep_view(),
            signature_hash: self.signature_hash,
        }
    }
}

/// The name of the relation that holds the computed columns.
pub open spec fn computed_columns_name() -> Seq<char> {
    "computed_columns"@
}

/// The parameters of the first `n` relations, relation by relation.
pub open spec fn parameters_among(rels: Seq<QueryGraphNodeView>, n: int) -> Seq<ColumnView>
    decreases n,
{
    if n <= 0 {
        Seq::empty()
    } else {
        parameters_among(rels, n - 1) + rels[n - 1].parameters
    }
}

/// Position of the first relation named `name`.
pub open spec fn relation_index(rels: Seq<QueryGraphNodeView>, name: Seq<char>) -> Option<usize>
    decreases rels.len(),
{
    if rels.len() == 0 {
        None
    } else {
        match relation_index(rels.drop_last(), name) {
            Some(i) => Some(i),
            None => if rels.last().rel_name == name {
                Some((rels.len() - 1) as usize)
            } else {
                None
            },
        }
    }
}

/// What a prefix of the relations finds, the whole finds.
pub proof fn lemma_relation_index_found(rels: Seq<QueryGraphNodeView>, name: Seq<char>, k: int)
    requires
        0 <= k <= rels.len(),
        relation_index(rels.take(k), name) is Some,
    ensures
        relation_index(rels, name) == relation_index(rels.take(k), name),
    decreases rels.len() - k,
{
    if k < rels.len() {
        assert(rels.take(k + 1).drop_last() =~= rels.take(k));
        lemma_relation_index_found(rels, name, k + 1);
    } else {
        assert(rels.take(k) =~= rels);
    }
}

/// `order` with `idx` put behind the last position whose relation name is
/// not greater than that of `idx`.
pub open spec fn insert_by_name(rels: Seq<QueryGraphNodeView>, order: Seq<usize>, idx: usize) -> Seq<
    usize,
>
    decreases order.len(),
{
    if order.len() == 0 {
        seq![idx]
    } else if text_less(rels[idx as int].rel_name, rels[order.last() as int].rel_name) {
        insert_by_name(rels, order.drop_last(), idx).push(order.last())
    } else {
        order.push(idx)
    }
}

/// The positions of the first `n` relations, sorted by relation name;
/// relations of one name keep their order.
pub open spec fn order_by_name(rels: Seq<QueryGraphNodeView>, n: int) -> Seq<usize>
    decreases n,
{
    if n <= 0 {
        Seq::empty()
    } else {
        insert_by_name(rels, order_by_name(rels, n - 1), (n - 1) as usize)
    }
}

impl QueryGraphView {
    /// The parameters of the query: those of its relations, relation by
    /// relation.
    pub open spec fn parameters(self) -> Seq<ColumnView> {
        parameters_among(self.relations, self.relations.len() as int)
    }

    /// The positions of the relations, sorted by relation name.
    pub open spec fn sorted_relations(self) -> Seq<usize> {
        order_by_name(self.relations, self.relations.len() as int)
    }

    /// The relation that holds the computed columns, if the query has any.
    pub open spec fn computed(self) -> Option<QueryGraphNodeView> {
        match relation_index(self.relations, computed_columns_name()) {
            Some(i) => Some(self.relations[i as int]),
            None => None,
        }
    }
}

/// Every position of `order` is below `n`.
pub open spec fn all_below(order: Seq<usize>, n: int) -> bool {
    forall|k: int| 0 <= k < order.len() ==> #[trigger] order[k] < n
}

/// Sorting by name yields positions of relations.
pub proof fn lemma_order_by_name_below(rels: Seq<QueryGraphNodeView>, n: int)
    requires
        0 <= n <= rels.len(),
    ensures
        all_below(order_by_name(rels, n), n),
        order_by_name(rels, n).len() == n,
    decreases n,
{
    if n > 0 {
        lemma_order_by_name_below(rels, n - 1);
        lemma_insert_by_name_below(rels, order_by_name(rels, n - 1), (n - 1) as usize, n);
    }
}

/// Inserting a position below `n` among positions below `n` yields
/// positions below `n`, one more than before.
pub proof fn lemma_insert_by_name_below(
    rels: Seq<QueryGraphNodeView>,
    order: Seq<usize>,
    idx: usize,
    n: int,
)
    requires
        all_below(order, n),
        idx < n,
    ensures
        all_below(insert_by_name(rels, order, idx), n),
        insert_by_name(rels, order, idx).len() == order.len() + 1,
    decreases order.len(),
{
    if order.len() > 0 && text_less(rels[idx as int].rel_name, rels[order.last() as int].rel_name) {
        assert(all_below(order.drop_last(), n)) by {
            assert forall|k: int| 0 <= k < order.drop_last().len() implies #[trigger] order.drop_last()[k]
                < n by {
                assert(order[k] < n);
            }
        }
        lemma_insert_by_name_below(rels, order.drop_last(), idx, n);
    }
}

/// Whether the relations at the positions `order` come in the order of
/// their names: none is behind a later one.
pub open spec fn sorted_by_name(rels: Seq<QueryGraphNodeView>, order: Seq<usize>) -> bool {
    forall|i: int, j: int|
        0 <= i < j < order.len() ==> !text_less(
            rels[(#[trigger] order[j]) as int].rel_name,
            rels[(#[trigger] order[i]) as int].rel_name,
        )
}

/// Inserting a position adds that position and no other.
pub proof fn lemma_insert_by_name_contains(
    rels: Seq<QueryGraphNodeView>,
    order: Seq<usize>,
    idx: usize,
    x: usize,
)
    ensures
        insert_by_name(rels, order, idx).contains(x) <==> (order.contains(x) || x == idx),
    decreases order.len(),
{
    let r = insert_by_name(rels, order, idx);
    if order.len() == 0 {
        assert(r[0] == idx);
    } else if text_less(rels[idx as int].rel_name, rels[order.last() as int].rel_name) {
        let inner = insert_by_name(rels, order.drop_last(), idx);
        lemma_insert_by_name_contains(rels, order.drop_last(), idx, x);
        if r.contains(x) {
            let i = choose|i: int| 0 <= i < r.len() && r[i] == x;
            if i < inner.len() {
                assert(inner[i] == x);
                if order.drop_last().contains(x) {
                    let j = choose|j: int| 0 <= j < order.drop_last().len() && order.drop_last()[j]
                        == x;
                    assert(order[j] == x);
                }
            } else {
                assert(order[order.len() - 1] == x);
            }
        }
        if order.contains(x) || x == idx {
            if x == idx || order.drop_last().contains(x) {
                assert(inner.contains(x));
                let i = choose|i: int| 0 <= i < inner.len() && inner[i] == x;
                assert(r[i] == x);
            } else {
                let j = choose|j: int| 0 <= j < order.len() && order[j] == x;
                if j < order.len() - 1 {
                    assert(order.drop_last()[j] == x);
                }
                assert(r[r.len() - 1] == x);
            }
        }
    } else {
        if r.contains(x) {
            let i = choose|i: int| 0 <= i < r.len() && r[i] == x;
            if i < order.len() {
                assert(order[i] == x);
            }
        }
        if order.contains(x) {
            let j = choose|j: int| 0 <= j < order.len() && order[j] == x;
            assert(r[j] == x);
        }
        if x == idx {
            assert(r[r.len() - 1] == x);
        }
    }
}

/// Inserting a position into sorted positions leaves them sorted.
pub proof fn lemma_insert_by_name_sorted(
    rels: Seq<QueryGraphNodeView>,
    order: Seq<usize>,
    idx: usize,
)
    requires
        sorted_by_name(rels, order),
    ensures
        sorted_by_name(rels, insert_by_name(rels, order, idx)),
    decreases order.len(),
{
    let r = insert_by_name(rels, order, idx);
    let name = rels[idx as int].rel_name;
    if order.len() == 0 {
    } else if text_less(name, rels[order.last() as int].rel_name) {
        let inner = insert_by_name(rels, order.drop_last(), idx);
        let last = order.last();
        assert(sorted_by_name(rels, order.drop_last())) by {
            assert forall|i: int, j: int| 0 <= i < j < order.drop_last().len() implies !text_less(
                rels[(#[trigger] order.drop_last()[j]) as int].rel_name,
                rels[(#[trigger] order.drop_last()[i]) as int].rel_name,
            ) by {
                assert(order[i] == order.drop_last()[i] && order[j] == order.drop_last()[j]);
            }
        }
        lemma_insert_by_name_sorted(rels, order.drop_last(), idx);
        assert forall|i: int, j: int| 0 <= i < j < r.len() implies !text_less(
            rels[(#[trigger] r[j]) as int].rel_name,
            rels[(#[trigger] r[i]) as int].rel_name,
        ) by {
            if j < inner.len() {
                assert(r[i] == inner[i] && r[j] == inner[j]);
            } else {
                assert(r[j] == last);
                assert(r[i] == inner[i]);
                lemma_insert_by_name_contains(rels, order.drop_last(), idx, inner[i]);
                assert(inner.contains(inner[i]));
                if inner[i] == idx {
                    crate::text::lemma_text_less_irreflexive(name);
                    if text_less(rels[last as int].rel_name, name) {
                        crate::text::lemma_text_less_transitive(
                            name,
                            rels[last as int].rel_name,
                            name,
                        );
                    }
                } else {
                    let k = choose|k: int| 0 <= k < order.drop_last().len() && order.drop_last()[k]
                        == inner[i];
                    assert(order[k] == inner[i]);
                    assert(order[order.len() - 1] == last);
                }
            }
        }
    } else {
        assert forall|i: int, j: int| 0 <= i < j < r.len() implies !text_less(
            rels[(#[trigger] r[j]) as int].rel_name,
            rels[(#[trigger] r[i]) as int].rel_name,
        ) by {
            if j < order.len() {
                assert(r[i] == order[i] && r[j] == order[j]);
            } else {
                assert(r[j] == idx);
                assert(r[i] == order[i]);
                if i < order.len() - 1 {
                    assert(!text_less(
                        rels[order[order.len() - 1] as int].rel_name,
                        rels[order[i] as int].rel_name,
                    ));
                    crate::text::lemma_text_order_transitive(
                        rels[order[i] as int].rel_name,
                        rels[order.last() as int].rel_name,
                        name,
                    );
                }
            }
        }
    }
}

/// Inserting a position that is not there yet leaves every position there
/// once.
pub proof fn lemma_insert_by_name_once(
    rels: Seq<QueryGraphNodeView>,
    order: Seq<usize>,
    idx: usize,
)
    requires
        order.no_duplicates(),
        !order.contains(idx),
    ensures
        insert_by_name(rels, order, idx).no_duplicates(),
    decreases order.len(),
{
    let r = insert_by_name(rels, order, idx);
    if order.len() == 0 {
    } else if text_less(rels[idx as int].rel_name, rels[order.last() as int].rel_name) {
        let inner = insert_by_name(rels, order.drop_last(), idx);
        let last = order.last();
        assert(order.drop_last().no_duplicates()) by {
            assert forall|i: int, j: int|
                0 <= i < order.drop_last().len() && 0 <= j < order.drop_last().len() && i
                    != j implies order.drop_last()[i] != order.drop_last()[j] by {
                assert(order[i] != order[j]);
            }
        }
        if order.drop_last().contains(idx) {
            let k = choose|k: int| 0 <= k < order.drop_last().len() && order.drop_last()[k] == idx;
            assert(order[k] == idx);
        }
        lemma_insert_by_name_once(rels, order.drop_last(), idx);
        assert forall|i: int, j: int| 0 <= i < r.len() && 0 <= j < r.len() && i != j implies r[i]
            != r[j] by {
            if i < inner.len() && j < inner.len() {
                assert(inner[i] != inner[j]);
            } else {
                let other = if i < inner.len() {
                    i
                } else {
                    j
                };
                lemma_insert_by_name_contains(rels, order.drop_last(), idx, inner[other]);
                assert(inner.contains(inner[other]));
                if inner[other] == last {
                    assert(last != idx) by {
                        assert(order[order.len() - 1] == last);
                    }
                    let k = choose|k: int| 0 <= k < order.drop_last().len() && order.drop_last()[k]
                        == last;
                    assert(order[k] == order[order.len() - 1]);
                }
            }
        }
    } else {
        assert forall|i: int, j: int| 0 <= i < r.len() && 0 <= j < r.len() && i != j implies r[i]
            != r[j] by {
            if i < order.len() && j < order.len() {
                assert(order[i] != order[j]);
            } else if i < order.len() {
                assert(order[i] != idx);
            } else {
                assert(order[j] != idx);
            }
        }
    }
}

/// Sorting by name sorts: the positions come in the order of the names of
/// their relations, and each position of a relation is there once.
pub proof fn lemma_order_by_name_sorts(rels: Seq<QueryGraphNodeView>, n: int)
    requires
        0 <= n <= rels.len(),
        n <= usize::MAX,
    ensures
        sorted_by_name(rels, order_by_name(rels, n)),
        order_by_name(rels, n).no_duplicates(),
        forall|x: usize| order_by_name(rels, n).contains(x) <==> x < n,
    decreases n,
{
    if n > 0 {
        let before = order_by_name(rels, n - 1);
        let idx = (n - 1) as usize;
        lemma_order_by_name_sorts(rels, n - 1);
        lemma_insert_by_name_sorted(rels, before, idx);
        assert(!before.contains(idx));
        lemma_insert_by_name_once(rels, before, idx);
        assert forall|x: usize| order_by_name(rels, n).contains(x) <==> x < n by {
            lemma_insert_by_name_contains(rels, before, idx, x);
        }
    } else {
        assert forall|x: usize| !order_by_name(rels, n).contains(x) by {}
    }
}

impl QueryGraph {
    /// The parameters of the query: those of its relations, relation by
    /// relation.
    pub fn parameters(&self) -> (r: Vec<Column>)
        ensures
            r.deep_view() == self.deep_view().parameters(),
    {
        let mut out: Vec<Column> = Vec::new();
        let mut i: usize = 0;
        assert(out.deep_view() =~= Seq::empty());
        while i < self.relations.len()
            invariant
                i <= self.relations.len(),
                out.deep_view() == parameters_among(self.relations.deep_view(), i as int),
            decreases self.relations.len() - i,
        {
            let ghost before = out.deep_view();
            let params = &self.relations[i].parameters;
            let mut j: usize = 0;
            while j < params.len()
                invariant
                    j <= params.len(),
                    out.deep_view() == before + params.deep_view().take(j as int),
                decreases params.len() - j,
            {
                let ghost prev = out.deep_view();
                out.push(params[j].clone());
                assert(out.deep_view() =~= prev.push(params[j as int].deep_view()));
                assert(params.deep_view().take(j + 1) =~= params.deep_view().take(j as int).push(
                    params[j as int].deep_view(),
                ));
                j += 1;
            }
            assert(params.deep_view().take(params.len() as int) =~= params.deep_view());
            assert(self.relations.deep_view()[i as int].parameters == params.deep_view());
            i += 1;
        }
        out
    }

    /// Position of the first relation named `name`.
    pub fn relation_position(&self, name: &str) -> (r: Option<usize>)
        ensures
            r == relation_index(self.deep_view().relations, name@),
            r is Some ==> r->0 < self.relations.len() && self.relations[r->0 as int].rel_name@
                == name@,
    {
        let mut i: usize = 0;
        let ghost rels = self.relations.deep_view();
        assert(rels.take(0) =~= Seq::empty());
        while i < self.relations.len()
            invariant
                i <= self.relations.len(),
                rels == self.relations.deep_view(),
                relation_index(rels.take(i as int), name@) is None,
            decreases self.relations.len() - i,
        {
            proof {
                let t = rels.take(i + 1);
                assert(t.drop_last() =~= rels.take(i as int));
                assert(t.last() == self.relations[i as int].deep_view());
            }
            if crate::text::str_same(self.relations[i].rel_name.as_str(), name) {
                proof {
                    lemma_relation_index_found(rels, name@, i + 1);
                }
                return Some(i);
            }
            i += 1;
        }
        assert(rels.take(rels.len() as int) =~= rels);
        None
    }

    /// The positions of the relations, sorted by relation name; relations
    /// of one name keep their order.
    pub fn sorted_relations(&self) -> (r: Vec<usize>)
        ensures
            r@ == self.deep_view().sorted_relations(),
            all_below(r@, self.relations.len() as int),
            r@.len() == self.relations.len(),
    {
        let ghost rels = self.relations.deep_view();
        let mut order: Vec<usize> = Vec::new();
        let mut i: usize = 0;
        while i < self.relations.len()
            invariant
                i <= self.relations.len(),
                rels == self.relations.deep_view(),
                order@ == order_by_name(rels, i as int),
                all_below(order@, i as int),
                order@.len() == i,
            decreases self.relations.len() - i,
        {
            let ghost before = order@;
            let mut p: usize = order.len();
            assert(before.take(p as int) =~= before);
            assert(before.skip(p as int) =~= Seq::<usize>::empty());
            while p > 0 && str_less(
                self.relations[i].rel_name.as_str(),
                self.relations[order[p - 1]].rel_name.as_str(),
            )
                invariant
                    p <= order.len(),
                    i < self.relations.len(),
                    rels == self.relations.deep_view(),
                    order@ == before,
                    all_below(before, i as int),
                    insert_by_name(rels, before, i) == insert_by_name(rels, before.take(p as int), i)
                        + before.skip(p as int),
                decreases p,
            {
                proof {
                    let t = before.take(p as int);
                    assert(t.last() == before[p - 1]);
                    assert(t.drop_last() =~= before.take(p - 1));
                    assert(rels[i as int].rel_name == self.relations[i as int].rel_name@);
                    assert(rels[before[p - 1] as int].rel_name == self.relations[before[p
                        - 1] as int].rel_name@);
                    assert(insert_by_name(rels, t, i) == insert_by_name(rels, t.drop_last(), i).push(
                        t.last(),
                    ));
                    assert(insert_by_name(rels, t.drop_last(), i).push(t.last()) + before.skip(
                        p as int,
                    ) =~= insert_by_name(rels, before.take(p - 1), i) + before.skip(p - 1));
                }
                p -= 1;
            }
            proof {
                let t = before.take(p as int);
                if p > 0 {
                    assert(t.last() == before[p - 1]);
                    assert(rels[i as int].rel_name == self.relations[i as int].rel_name@);
                    assert(rels[before[p - 1] as int].rel_name == self.relations[before[p
                        - 1] as int].rel_name@);
                }
                assert(insert_by_name(rels, t, i) =~= t.push(i));
                lemma_insert_by_name_below(rels, before, i, i + 1);
            }
            order.insert(p, i);
            assert(order@ =~= before.take(p as int).push(i) + before.skip(p as int));
            i += 1;
        }
        order
    }
}

} // verus!
