//! Grouped operators: the nodes for the aggregate columns of a query, and
//! the predicates that have to be applied before their rows are grouped.
use crate::ast::{
    columns_contain, contains_column, Column, ColumnView, ConditionExpression, ConditionView,
    FunctionExpression, FunctionView,
};
use crate::converter::SqlToMirConverter;
use crate::factory::one_made;
use crate::graph::clone_columns;
use crate::join::{numbered, numbered_name};
use crate::node::{
    Aggregation, Extremum, GroupedNodeType, MirNodeRef, MirNodeType, MirNodeTypeView, MirNodeView,
};
use crate::predicates::{
    above_group_by, all_new, extend_refs, grown, lemma_all_new_concat, lemma_grown_push,
    lemma_grown_trans, predicate_columns,
};
use crate::project::{group_literal, project_node};
use crate::query_graph::{
    all_below, computed_columns_name, QueryGraph, QueryGraphNodeView, QueryGraphView,
};
use crate::text::{joined, str_same};
use crate::value::MirError;
use vstd::prelude::*;

verus! {

/// The kind of a grouped operator as a value.
pub ghost enum GroupedKindView {
    Aggregation(Aggregation),
    Extremum(Extremum),
    GroupConcat(Seq<char>),
}

impl DeepView for GroupedNodeType {
    type V = GroupedKindView;

    open spec fn deep_view(&self) -> GroupedKindView {
        match self {
            GroupedNodeType::Aggregation(a) => GroupedKindView::Aggregation(*a),
            GroupedNodeType::Extremum(e) => GroupedKindView::Extremum(*e),
            GroupedNodeType::GroupConcat(s) => GroupedKindView::GroupConcat(s@),
        }
    }
}

/// The computed column as a grouped node shows it: an alias becomes the
/// name.
pub open spec fn promoted(c: ColumnView) -> ColumnView {
    match c.alias {
        None => c,
        Some(a) => ColumnView { name: a, alias: None, table: c.table, function: c.function },
    }
}

/// The grouped node over `parent` that computes `computed_col` from
/// `over_col` per group of `group_by`. It shows the group columns and then
/// the computed column.
pub open spec fn grouped_node(
    g: Seq<MirNodeView>,
    version: usize,
    name: Seq<char>,
    computed_col: ColumnView,
    parent: usize,
    over_col: ColumnView,
    group_by: Seq<ColumnView>,
    kind: GroupedKindView,
) -> Result<MirNodeView, MirError> {
    if parent >= g.len() {
        Err(MirError::UnknownView)
    } else {
        Ok(
            MirNodeView::fresh(
                name,
                version,
                group_by.push(promoted(computed_col)),
                match kind {
                    GroupedKindView::Aggregation(k) => MirNodeTypeView::Aggregation {
                        on: over_col,
                        group_by,
                        kind: k,
                    },
                    GroupedKindView::Extremum(k) => MirNodeTypeView::Extremum {
                        on: over_col,
                        group_by,
                        kind: k,
                    },
                    GroupedKindView::GroupConcat(sep) => MirNodeTypeView::GroupConcat {
                        on: over_col,
                        separator: sep,
                    },
                },
                seq![parent],
            ),
        )
    }
}

/// The column that a computed column aggregates, and the kind of grouped
/// operator that computes it. A column without a function, `COUNT(*)` and
/// `AVG` are refused.
pub open spec fn function_parts(func_col: ColumnView) -> Result<
    (ColumnView, GroupedKindView),
    MirError,
> {
    match func_col.function {
        None => Err(MirError::Unsupported),
        Some(f) => match *f {
            FunctionView::Sum(col, _) => Ok((col, GroupedKindView::Aggregation(Aggregation::SUM))),
            FunctionView::Count(col, _) => Ok(
                (col, GroupedKindView::Aggregation(Aggregation::COUNT)),
            ),
            FunctionView::CountStar => Err(MirError::Unsupported),
            FunctionView::Max(col) => Ok((col, GroupedKindView::Extremum(Extremum::MAX))),
            FunctionView::Min(col) => Ok((col, GroupedKindView::Extremum(Extremum::MIN))),
            FunctionView::GroupConcat(col, sep) => Ok((col, GroupedKindView::GroupConcat(sep))),
            FunctionView::Avg(_, _) => Err(MirError::Unsupported),
        },
    }
}

/// The grouped node over `parent` for the computed column `func_col`.
pub open spec fn function_node(
    g: Seq<MirNodeView>,
    version: usize,
    name: Seq<char>,
    func_col: ColumnView,
    group_cols: Seq<ColumnView>,
    parent: usize,
) -> Result<MirNodeView, MirError> {
    match function_parts(func_col) {
        Err(e) => Err(e),
        Ok((over, kind)) => grouped_node(
            g,
            version,
            name,
            func_col,
            parent,
            over,
            group_cols,
            kind,
        ),
    }
}

/// Whether the condition `ce` mentions the column `col`.
pub open spec fn mentions(ce: ConditionView, col: ColumnView) -> bool {
    match predicate_columns(ce) {
        Ok(cols) => columns_contain(cols, col),
        Err(_) => false,
    }
}

/// `acc` and then those of `preds`, from position `j` on, that mention
/// `col`.
pub open spec fn mentioning_in(
    preds: Seq<ConditionView>,
    j: int,
    col: ColumnView,
    acc: Seq<ConditionView>,
) -> Seq<ConditionView>
    decreases preds.len() - j,
{
    if j < 0 || j >= preds.len() {
        acc
    } else if mentions(preds[j], col) {
        mentioning_in(preds, j + 1, col, acc.push(preds[j]))
    } else {
        mentioning_in(preds, j + 1, col, acc)
    }
}

/// `acc` and then the predicates that mention `col`, of the relations at
/// the positions `order` from `k` on. The relation of the computed
/// columns has no predicates of its own.
pub open spec fn mentioning(
    rels: Seq<QueryGraphNodeView>,
    order: Seq<usize>,
    k: int,
    col: ColumnView,
    acc: Seq<ConditionView>,
) -> Seq<ConditionView>
    decreases order.len() - k,
{
    if k < 0 || k >= order.len() {
        acc
    } else if rels[order[k] as int].rel_name == computed_columns_name() {
        mentioning(rels, order, k + 1, col, acc)
    } else {
        mentioning(
            rels,
            order,
            k + 1,
            col,
            mentioning_in(rels[order[k] as int].predicates, 0, col, acc),
        )
    }
}

/// The computed columns of a query.
pub open spec fn computed_columns(qg: QueryGraphView) -> Seq<ColumnView> {
    match qg.computed() {
        Some(rel) => rel.columns,
        None => Seq::empty(),
    }
}

/// What `above_grouped_from` yields: the graph, the nodes made, the
/// conditions for which chains were made, and the end of the last chain.
pub ghost struct AboveGrouped {
    pub graph: Seq<MirNodeView>,
    pub nodes: Seq<usize>,
    pub created: Seq<ConditionView>,
    pub prev: usize,
}

/// The chains that are built above the grouped operators, for the
/// computed columns `ccols` from position `i` on. For each computed column
/// the predicates that mention the column it aggregates get their chains,
/// stacked on `prev`; the chains of one column are named by the number of
/// nodes made before.
pub open spec fn above_grouped_from(
    version: usize,
    name: Seq<char>,
    rels: Seq<QueryGraphNodeView>,
    order: Seq<usize>,
    ccols: Seq<ColumnView>,
    i: int,
    node_count: usize,
    st: AboveGrouped,
) -> Result<AboveGrouped, MirError>
    decreases ccols.len() - i,
{
    if i < 0 || i >= ccols.len() {
        Ok(st)
    } else {
        match function_parts(ccols[i]) {
            Err(e) => Err(e),
            Ok((over, _)) => {
                let ces = mentioning(rels, order, 0, over, Seq::empty());
                if ces.len() == 0 {
                    above_grouped_from(version, name, rels, order, ccols, i + 1, node_count, st)
                } else if node_count + st.nodes.len() > usize::MAX {
                    Err(MirError::InvariantViolation)
                } else {
                    match above_group_by(
                        st.graph,
                        version,
                        numbered(name, (node_count + st.nodes.len()) as usize),
                        ces,
                        0,
                        st.prev,
                        st.created,
                        Seq::empty(),
                    ) {
                        Err(e) => Err(e),
                        Ok((g1, ns, cr)) => above_grouped_from(
                            version,
                            name,
                            rels,
                            order,
                            ccols,
                            i + 1,
                            node_count,
                            AboveGrouped {
                                graph: g1,
                                nodes: st.nodes + ns,
                                created: cr,
                                prev: if ns.len() > 0 {
                                    ns.last()
                                } else {
                                    st.prev
                                },
                            },
                        ),
                    }
                }
            },
        }
    }
}

/// Those of `params` from position `j` on that `group_by` does not hold,
/// behind `acc`.
pub open spec fn extra_parameters(
    params: Seq<ColumnView>,
    j: int,
    group_by: Seq<ColumnView>,
    acc: Seq<ColumnView>,
) -> Seq<ColumnView>
    decreases params.len() - j,
{
    if j < 0 || j >= params.len() {
        acc
    } else if columns_contain(group_by, params[j]) {
        extra_parameters(params, j + 1, group_by, acc)
    } else {
        extra_parameters(params, j + 1, group_by, acc.push(params[j]))
    }
}

/// The columns by which the rows of a query with GROUP BY are grouped: the
/// GROUP BY columns and then the parameters that are not among them.
pub open spec fn group_columns(qg: QueryGraphView) -> Seq<ColumnView> {
    extra_parameters(qg.parameters(), 0, qg.group_by, qg.group_by)
}

/// The name of the projection that makes one group of all rows for the
/// query named `name`.
pub open spec fn helper_name(name: Seq<char>) -> Seq<char> {
    name + "_prj_hlpr"@
}

/// The nodes for one computed column over `prev`, and the graph with
/// them; the last node is the grouped node. With GROUP BY columns there is
/// only the grouped node. Without, a projection of the aggregated column
/// and of the literal `grp` comes first, and the grouped node groups its
/// rows by that literal.
pub open spec fn grouped_step(
    g: Seq<MirNodeView>,
    version: usize,
    name: Seq<char>,
    qg: QueryGraphView,
    ccol: ColumnView,
    number: int,
    prev: usize,
) -> Result<(Seq<MirNodeView>, Seq<usize>), MirError> {
    match function_parts(ccol) {
        Err(e) => Err(e),
        Ok((over, _)) => {
            if number > usize::MAX {
                Err(MirError::InvariantViolation)
            } else if qg.group_by.len() == 0 {
                match project_node(
                    g,
                    version,
                    helper_name(name),
                    prev,
                    seq![over],
                    Seq::empty(),
                    seq![group_literal()],
                    false,
                ) {
                    Err(e) => Err(e),
                    Ok(helper) => match function_node(
                        g.push(helper),
                        version,
                        numbered(name, number as usize),
                        ccol,
                        seq![ColumnView::plain("grp"@, helper_name(name))],
                        g.len() as usize,
                    ) {
                        Err(e) => Err(e),
                        Ok(f) => Ok(
                            (
                                g.push(helper).push(f),
                                seq![g.len() as usize, (g.len() + 1) as usize],
                            ),
                        ),
                    },
                }
            } else {
                match function_node(
                    g,
                    version,
                    numbered(name, number as usize),
                    ccol,
                    group_columns(qg),
                    prev,
                ) {
                    Err(e) => Err(e),
                    Ok(f) => Ok((g.push(f), seq![g.len() as usize])),
                }
            }
        },
    }
}

/// The nodes for the computed columns `ccols` from position `i` on, each
/// over the grouped node before it, the first over `prev`: the graph, all
/// nodes, and the last grouped node (or `prev`). The grouped node of
/// computed column `k` is named by the number `node_count + k`.
pub open spec fn grouped_from(
    g: Seq<MirNodeView>,
    version: usize,
    name: Seq<char>,
    qg: QueryGraphView,
    ccols: Seq<ColumnView>,
    i: int,
    node_count: usize,
    prev: usize,
    acc: Seq<usize>,
) -> Result<(Seq<MirNodeView>, Seq<usize>, usize), MirError>
    decreases ccols.len() - i,
{
    if i < 0 || i >= ccols.len() {
        Ok((g, acc, prev))
    } else {
        match grouped_step(g, version, name, qg, ccols[i], node_count + i, prev) {
            Err(e) => Err(e),
            Ok((g1, ns)) => grouped_from(
                g1,
                version,
                name,
                qg,
                ccols,
                i + 1,
                node_count,
                ns.last(),
                acc + ns,
            ),
        }
    }
}

/// The column that a computed column aggregates, and the kind of grouped
/// operator that computes it.
pub fn function_parts_of(func_col: &Column) -> (r: Result<(Column, GroupedNodeType), MirError>)
    ensures
        match function_parts(func_col.deep_view()) {
            Ok((over, kind)) => r is Ok && r->Ok_0.0.deep_view() == over && r->Ok_0.1.deep_view()
                == kind,
            Err(e) => r == Err::<(Column, GroupedNodeType), MirError>(e),
        },
{
    match &func_col.function {
        None => Err(MirError::Unsupported),
        Some(f) => match &**f {
            FunctionExpression::Sum(col, _) => Ok(
                (col.clone(), GroupedNodeType::Aggregation(Aggregation::SUM)),
            ),
            FunctionExpression::Count(col, _) => Ok(
                (col.clone(), GroupedNodeType::Aggregation(Aggregation::COUNT)),
            ),
            FunctionExpression::CountStar => Err(MirError::Unsupported),
            FunctionExpression::Max(col) => Ok(
                (col.clone(), GroupedNodeType::Extremum(Extremum::MAX)),
            ),
            FunctionExpression::Min(col) => Ok(
                (col.clone(), GroupedNodeType::Extremum(Extremum::MIN)),
            ),
            FunctionExpression::GroupConcat(col, sep) => Ok(
                (col.clone(), GroupedNodeType::GroupConcat(sep.clone())),
            ),
            FunctionExpression::Avg(_, _) => Err(MirError::Unsupported),
        },
    }
}

/// A copy of a list of conditions.
pub fn clone_conditions(v: &Vec<ConditionExpression>) -> (r: Vec<ConditionExpression>)
    ensures
        r.deep_view() == v.deep_view(),
{
    let r = v.clone();
    assert(r.deep_view() =~= v.deep_view());
    r
}

impl QueryGraph {
    /// The computed columns of the query.
    pub fn computed_columns(&self) -> (r: Vec<Column>)
        ensures
            r.deep_view() == computed_columns(self.deep_view()),
    {
        proof {
            reveal_strlit("computed_columns");
        }
        match self.relation_position("computed_columns") {
            Some(i) => {
                assert(self.deep_view().relations[i as int] == self.relations[i as int].deep_view());
                clone_columns(&self.relations[i].columns)
            },
            None => {
                let out: Vec<Column> = Vec::new();
                assert(out.deep_view() =~= Seq::empty());
                out
            },
        }
    }

    /// The columns by which the rows of a query with GROUP BY are grouped.
    pub fn group_columns(&self) -> (r: Vec<Column>)
        ensures
            r.deep_view() == group_columns(self.deep_view()),
    {
        let params = self.parameters();
        let mut out = clone_columns(&self.group_by);
        let mut j: usize = 0;
        while j < params.len()
            invariant
                j <= params.len(),
                extra_parameters(
                    params.deep_view(),
                    0,
                    self.group_by.deep_view(),
                    self.group_by.deep_view(),
                ) == extra_parameters(
                    params.deep_view(),
                    j as int,
                    self.group_by.deep_view(),
                    out.deep_view(),
                ),
            decreases params.len() - j,
        {
            assert(params.deep_view()[j as int] == params[j as int].deep_view());
            if !contains_column(&self.group_by, &params[j]) {
                let ghost prev = out.deep_view();
                out.push(params[j].clone());
                assert(out.deep_view() =~= prev.push(params[j as int].deep_view()));
            }
            j += 1;
        }
        out
    }
}

impl SqlToMirConverter {
    /// A grouped node over `parent` that computes `computed_col` from
    /// `over_col` per group of `group_by`.
    pub fn make_grouped_node(
        &mut self,
        name: &str,
        computed_col: &Column,
        parent: MirNodeRef,
        over_col: &Column,
        group_by: Vec<Column>,
        node_type: GroupedNodeType,
    ) -> (r: Result<MirNodeRef, MirError>)
        requires
            old(self)@.wf(),
        ensures
            final(self)@.wf(),
            one_made(
                old(self)@,
                final(self)@,
                r,
                grouped_node(
                    old(self)@.graph,
                    old(self)@.schema_version,
                    name@,
                    computed_col.deep_view(),
                    parent,
                    over_col.deep_view(),
                    group_by.deep_view(),
                    node_type.deep_view(),
                ),
            ),
    {
        if parent >= self.graph.len() {
            return Err(MirError::UnknownView);
        }
        let computed = match &computed_col.alias {
            None => computed_col.clone(),
            Some(a) => Column {
                name: a.clone(),
                alias: None,
                table: computed_col.table.clone(),
                function: computed_col.clone().function,
            },
        };
        let mut combined_columns = clone_columns(&group_by);
        combined_columns.push(computed);
        assert(combined_columns.deep_view() =~= group_by.deep_view().push(computed.deep_view()));
        let inner = match node_type {
            GroupedNodeType::Aggregation(agg) => MirNodeType::Aggregation {
                on: over_col.clone(),
                group_by,
                kind: agg,
            },
            GroupedNodeType::Extremum(extr) => MirNodeType::Extremum {
                on: over_col.clone(),
                group_by,
                kind: extr,
            },
            GroupedNodeType::GroupConcat(sep) => MirNodeType::GroupConcat {
                on: over_col.clone(),
                separator: sep,
            },
        };
        let mut ancestors: Vec<MirNodeRef> = Vec::new();
        ancestors.push(parent);
        assert(ancestors@ =~= seq![parent]);
        Ok(self.new_node(name.to_owned(), combined_columns, inner, ancestors))
    }

    /// A grouped node over `parent` for the computed column `func_col`.
    pub fn make_function_node(
        &mut self,
        name: &str,
        func_col: &Column,
        group_cols: Vec<Column>,
        parent: MirNodeRef,
    ) -> (r: Result<MirNodeRef, MirError>)
        requires
            old(self)@.wf(),
        ensures
            final(self)@.wf(),
            one_made(
                old(self)@,
                final(self)@,
                r,
                function_node(
                    old(self)@.graph,
                    old(self)@.schema_version,
                    name@,
                    func_col.deep_view(),
                    group_cols.deep_view(),
                    parent,
                ),
            ),
    {
        match function_parts_of(func_col) {
            Err(e) => Err(e),
            Ok((over, kind)) => self.make_grouped_node(
                name,
                func_col,
                parent,
                &over,
                group_cols,
                kind,
            ),
        }
    }

    /// Whether the condition `ce` mentions the column `col`.
    pub fn predicate_mentions(&self, ce: &ConditionExpression, col: &Column) -> (r: bool)
        ensures
            r == mentions(ce.deep_view(), col.deep_view()),
    {
        match self.predicate_columns(ce) {
            Ok(cols) => contains_column(&cols, col),
            Err(_) => false,
        }
    }

    /// The predicates that mention `col`, of the relations of `qg` in the
    /// order `order`.
    pub(crate) fn predicates_mentioning(&self, qg: &QueryGraph, order: &Vec<usize>, col: &Column) -> (r:
        Vec<ConditionExpression>)
        requires
            all_below(order@, qg.relations.len() as int),
        ensures
            r.deep_view() == mentioning(
                qg.deep_view().relations,
                order@,
                0,
                col.deep_view(),
                Seq::empty(),
            ),
    {
        let ghost rels = qg.deep_view().relations;
        let mut out: Vec<ConditionExpression> = Vec::new();
        assert(out.deep_view() =~= Seq::empty());
        proof {
            reveal_strlit("computed_columns");
        }
        let mut k: usize = 0;
        while k < order.len()
            invariant
                k <= order.len(),
                rels == qg.deep_view().relations,
                all_below(order@, qg.relations.len() as int),
                mentioning(rels, order@, 0, col.deep_view(), Seq::empty()) == mentioning(
                    rels,
                    order@,
                    k as int,
                    col.deep_view(),
                    out.deep_view(),
                ),
            decreases order.len() - k,
        {
            assert(order@[k as int] < qg.relations.len());
            let rel = &qg.relations[order[k]];
            assert(rels[order@[k as int] as int] == rel.deep_view());
            if !str_same(rel.rel_name.as_str(), "computed_columns") {
                let ghost before = out.deep_view();
                let ghost preds = rel.predicates.deep_view();
                let mut j: usize = 0;
                while j < rel.predicates.len()
                    invariant
                        j <= rel.predicates.len(),
                        preds == rel.predicates.deep_view(),
                        mentioning_in(preds, 0, col.deep_view(), before) == mentioning_in(
                            preds,
                            j as int,
                            col.deep_view(),
                            out.deep_view(),
                        ),
                    decreases rel.predicates.len() - j,
                {
                    assert(preds[j as int] == rel.predicates[j as int].deep_view());
                    if self.predicate_mentions(&rel.predicates[j], col) {
                        let ghost prev = out.deep_view();
                        out.push(rel.predicates[j].clone());
                        assert(out.deep_view() =~= prev.push(rel.predicates[j as int].deep_view()));
                    }
                    j += 1;
                }
            }
            k += 1;
        }
        out
    }

    /// The chains that have to be built above the grouped operators of the
    /// query: for each computed column, those of the predicates that
    /// mention the column it aggregates. They are stacked on `prev_node`,
    /// which afterwards is the end of the last chain. The result holds the
    /// conditions for which chains were made, and the nodes.
    pub fn make_predicates_above_grouped(
        &mut self,
        name: &str,
        qg: &QueryGraph,
        node_count: usize,
        prev_node: &mut MirNodeRef,
    ) -> (r: Result<(Vec<ConditionExpression>, Vec<MirNodeRef>), MirError>)
        requires
            old(self)@.wf(),
        ensures
            final(self)@.wf(),
            grown(old(self)@.graph, final(self)@.graph),
            match above_grouped_from(
                old(self)@.schema_version,
                name@,
                qg.deep_view().relations,
                qg.deep_view().sorted_relations(),
                computed_columns(qg.deep_view()),
                0,
                node_count,
                AboveGrouped {
                    graph: old(self)@.graph,
                    nodes: Seq::empty(),
                    created: Seq::empty(),
                    prev: *old(prev_node),
                },
            ) {
                Ok(st) => {
                    &&& r is Ok
                    &&& r->Ok_0.0.deep_view() == st.created
                    &&& r->Ok_0.1@ == st.nodes
                    &&& *final(prev_node) == st.prev
                    &&& final(self)@ == old(self)@.with_graph(st.graph)
                    &&& all_new(old(self)@.graph, st.graph, st.nodes)
                    &&& old(self)@.graph.len() + st.nodes.len() == st.graph.len()
                },
                Err(e) => {
                    &&& r == Err::<(Vec<ConditionExpression>, Vec<MirNodeRef>), MirError>(e)
                    &&& final(self)@ == old(self)@
                    &&& *final(prev_node) == *old(prev_node)
                },
            },
    {
        let ghost pre = self@;
        let ghost rels = qg.deep_view().relations;
        let start = self.graph.len();
        let first_prev = *prev_node;
        let order = qg.sorted_relations();
        let ccols = qg.computed_columns();
        let ghost cc = ccols.deep_view();
        let mut created: Vec<ConditionExpression> = Vec::new();
        let mut nodes: Vec<MirNodeRef> = Vec::new();
        assert(created.deep_view() =~= Seq::empty());
        proof {
            lemma_grown_push(pre.graph, arbitrary());
        }
        let mut i: usize = 0;
        while i < ccols.len()
            invariant
                i <= ccols.len(),
                cc == ccols.deep_view(),
                cc == computed_columns(qg.deep_view()),
                rels == qg.deep_view().relations,
                order@ == qg.deep_view().sorted_relations(),
                all_below(order@, qg.relations.len() as int),
                pre == old(self)@,
                first_prev == *old(prev_node),
                pre.wf(),
                self@.wf(),
                self@ == pre.with_graph(self@.graph),
                grown(pre.graph, self@.graph),
                start == pre.graph.len(),
                all_new(pre.graph, self@.graph, nodes@),
                pre.graph.len() + nodes@.len() == self@.graph.len(),
                above_grouped_from(
                    pre.schema_version,
                    name@,
                    rels,
                    order@,
                    cc,
                    0,
                    node_count,
                    AboveGrouped {
                        graph: pre.graph,
                        nodes: Seq::empty(),
                        created: Seq::empty(),
                        prev: first_prev,
                    },
                ) == above_grouped_from(
                    pre.schema_version,
                    name@,
                    rels,
                    order@,
                    cc,
                    i as int,
                    node_count,
                    AboveGrouped {
                        graph: self@.graph,
                        nodes: nodes@,
                        created: created.deep_view(),
                        prev: *prev_node,
                    },
                ),
            decreases ccols.len() - i,
        {
            assert(cc[i as int] == ccols[i as int].deep_view());
            let over = match function_parts_of(&ccols[i]) {
                Ok((over, _)) => over,
                Err(e) => {
                    self.rollback(start, Ghost(pre));
                    *prev_node = first_prev;
                    return Err(e);
                },
            };
            let ces = self.predicates_mentioning(qg, &order, &over);
            if ces.len() > 0 {
                if nodes.len() > usize::MAX - node_count {
                    self.rollback(start, Ghost(pre));
                    *prev_node = first_prev;
                    return Err(MirError::InvariantViolation);
                }
                let chain_name = numbered_name(name, node_count + nodes.len());
                let ghost g_before = self@.graph;
                let ghost nodes_before = nodes@;
                match self.predicates_above_group_by(
                    chain_name.as_str(),
                    &ces,
                    *prev_node,
                    &mut created,
                ) {
                    Err(e) => {
                        self.rollback(start, Ghost(pre));
                        *prev_node = first_prev;
                        return Err(e);
                    },
                    Ok(new_mpns) => {
                        if new_mpns.len() > 0 {
                            *prev_node = new_mpns[new_mpns.len() - 1];
                        }
                        extend_refs(&mut nodes, &new_mpns);
                        proof {
                            lemma_grown_trans(pre.graph, g_before, self@.graph);
                            lemma_all_new_concat(
                                pre.graph,
                                g_before,
                                self@.graph,
                                nodes_before,
                                new_mpns@,
                            );
                        }
                    },
                }
            }
            i += 1;
        }
        Ok((created, nodes))
    }

    /// The nodes for one computed column over `prev`; the last of them is
    /// the grouped node.
    fn make_grouped_step(
        &mut self,
        name: &str,
        qg: &QueryGraph,
        ccol: &Column,
        node_count: usize,
        i: usize,
        prev: MirNodeRef,
    ) -> (r: Result<Vec<MirNodeRef>, MirError>)
        requires
            old(self)@.wf(),
        ensures
            final(self)@.wf(),
            grown(old(self)@.graph, final(self)@.graph),
            crate::predicates::many_made(
                old(self)@,
                final(self)@,
                r,
                grouped_step(
                    old(self)@.graph,
                    old(self)@.schema_version,
                    name@,
                    qg.deep_view(),
                    ccol.deep_view(),
                    node_count + i,
                    prev,
                ),
            ),
            r is Ok ==> r->Ok_0@.len() > 0 && all_new(
                old(self)@.graph,
                final(self)@.graph,
                r->Ok_0@,
            ),
            r is Ok ==> old(self)@.graph.len() + r->Ok_0@.len() == final(self)@.graph.len(),
    {
        let ghost pre = self@;
        let start = self.graph.len();
        proof {
            lemma_grown_push(pre.graph, arbitrary());
        }
        let over = match function_parts_of(ccol) {
            Ok((over, _)) => over,
            Err(e) => {
                return Err(e);
            },
        };
        if i > usize::MAX - node_count {
            return Err(MirError::InvariantViolation);
        }
        let node_name = numbered_name(name, node_count + i);
        let mut out: Vec<MirNodeRef> = Vec::new();
        if qg.group_by.len() == 0 {
            let proj_name = joined(name, "_prj_hlpr");
            let helper = match self.make_projection_helper(proj_name.as_str(), prev, &over) {
                Ok(h) => h,
                Err(e) => {
                    return Err(e);
                },
            };
            let ghost g1 = self@.graph;
            let mut group_cols: Vec<Column> = Vec::new();
            proof {
                reveal_strlit("grp");
            }
            group_cols.push(Column::new("grp", proj_name.as_str()));
            assert(group_cols.deep_view() =~= seq![
                ColumnView::plain("grp"@, helper_name(name@)),
            ]);
            match self.make_function_node(node_name.as_str(), ccol, group_cols, helper) {
                Err(e) => {
                    proof {
                        lemma_grown_push(pre.graph, g1.last());
                    }
                    self.rollback(start, Ghost(pre));
                    Err(e)
                },
                Ok(f) => {
                    out.push(helper);
                    out.push(f);
                    assert(out@ =~= seq![helper, f]);
                    proof {
                        lemma_grown_push(pre.graph, g1.last());
                        lemma_grown_push(g1, self@.graph.last());
                        lemma_grown_trans(pre.graph, g1, self@.graph);
                    }
                    Ok(out)
                },
            }
        } else {
            let group_cols = qg.group_columns();
            match self.make_function_node(node_name.as_str(), ccol, group_cols, prev) {
                Err(e) => Err(e),
                Ok(f) => {
                    out.push(f);
                    assert(out@ =~= seq![f]);
                    proof {
                        lemma_grown_push(pre.graph, self@.graph.last());
                    }
                    Ok(out)
                },
            }
        }
    }

    /// The nodes for the computed columns of the query, each over the
    /// grouped node before it, the first over `prev_node`, which
    /// afterwards is the last grouped node.
    pub fn make_grouped(
        &mut self,
        name: &str,
        qg: &QueryGraph,
        node_count: usize,
        prev_node: &mut MirNodeRef,
    ) -> (r: Result<Vec<MirNodeRef>, MirError>)
        requires
            old(self)@.wf(),
        ensures
            final(self)@.wf(),
            grown(old(self)@.graph, final(self)@.graph),
            match grouped_from(
                old(self)@.graph,
                old(self)@.schema_version,
                name@,
                qg.deep_view(),
                computed_columns(qg.deep_view()),
                0,
                node_count,
                *old(prev_node),
                Seq::empty(),
            ) {
                Ok((g, nodes, prev)) => {
                    &&& r is Ok
                    &&& r->Ok_0@ == nodes
                    &&& *final(prev_node) == prev
                    &&& final(self)@ == old(self)@.with_graph(g)
                    &&& all_new(old(self)@.graph, g, nodes)
                    &&& old(self)@.graph.len() + nodes.len() == g.len()
                },
                Err(e) => {
                    &&& r == Err::<Vec<MirNodeRef>, MirError>(e)
                    &&& final(self)@ == old(self)@
                    &&& *final(prev_node) == *old(prev_node)
                },
            },
    {
        let ghost pre = self@;
        let start = self.graph.len();
        let first_prev = *prev_node;
        let ccols = qg.computed_columns();
        let ghost cc = ccols.deep_view();
        let mut func_nodes: Vec<MirNodeRef> = Vec::new();
        proof {
            lemma_grown_push(pre.graph, arbitrary());
        }
        let mut i: usize = 0;
        while i < ccols.len()
            invariant
                i <= ccols.len(),
                cc == ccols.deep_view(),
                cc == computed_columns(qg.deep_view()),
                pre == old(self)@,
                first_prev == *old(prev_node),
                pre.wf(),
                self@.wf(),
                self@ == pre.with_graph(self@.graph),
                grown(pre.graph, self@.graph),
                start == pre.graph.len(),
                all_new(pre.graph, self@.graph, func_nodes@),
                pre.graph.len() + func_nodes@.len() == self@.graph.len(),
                grouped_from(
                    pre.graph,
                    pre.schema_version,
                    name@,
                    qg.deep_view(),
                    cc,
                    0,
                    node_count,
                    first_prev,
                    Seq::empty(),
                ) == grouped_from(
                    self@.graph,
                    pre.schema_version,
                    name@,
                    qg.deep_view(),
                    cc,
                    i as int,
                    node_count,
                    *prev_node,
                    func_nodes@,
                ),
            decreases ccols.len() - i,
        {
            assert(cc[i as int] == ccols[i as int].deep_view());
            let ghost g_before = self@.graph;
            let ghost nodes_before = func_nodes@;
            match self.make_grouped_step(name, qg, &ccols[i], node_count, i, *prev_node) {
                Err(e) => {
                    self.rollback(start, Ghost(pre));
                    *prev_node = first_prev;
                    return Err(e);
                },
                Ok(ns) => {
                    *prev_node = ns[ns.len() - 1];
                    extend_refs(&mut func_nodes, &ns);
                    proof {
                        lemma_grown_trans(pre.graph, g_before, self@.graph);
                        lemma_all_new_concat(pre.graph, g_before, self@.graph, nodes_before, ns@);
                    }
                },
            }
            i += 1;
        }
        Ok(func_nodes)
    }
}

} // verus!
