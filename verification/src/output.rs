//! The end of a query: the projection of its output columns and, for a
//! query that is read from outside, the leaf above it.
use crate::ast::{
    columns_contain, contains_column, ArithmeticExpression, ArithmeticView, Column, ColumnView,
};
use crate::converter::SqlToMirConverter;
use crate::factory::{sanitize_leaf_columns, sanitized_all};
use crate::graph::clone_columns;
use crate::node::{MirNodeRef, MirNodeView};
use crate::predicates::{all_new, grown, lemma_grown_push, lemma_grown_trans, many_made};
use crate::project::{leaf_node, project_node};
use crate::query_graph::{OutputColumn, OutputColumnView, QueryGraph, QueryGraphView};
use crate::selection::{numbered_query_name, numbered_query_name_string};
use crate::value::{DataType, DataTypeView, MirError};
use vstd::prelude::*;

verus! {

/// `acc` and then the data columns among `cols` from position `j` on.
pub open spec fn data_columns(cols: Seq<OutputColumnView>, j: int, acc: Seq<ColumnView>) -> Seq<
    ColumnView,
>
    decreases cols.len() - j,
{
    if j < 0 || j >= cols.len() {
        acc
    } else {
        match cols[j] {
            OutputColumnView::Data(c) => data_columns(cols, j + 1, acc.push(c)),
            _ => data_columns(cols, j + 1, acc),
        }
    }
}

/// `acc` and then the arithmetic columns among `cols` from position `j`
/// on, each with its name.
pub open spec fn arithmetic_columns(
    cols: Seq<OutputColumnView>,
    j: int,
    acc: Seq<(Seq<char>, ArithmeticView)>,
) -> Seq<(Seq<char>, ArithmeticView)>
    decreases cols.len() - j,
{
    if j < 0 || j >= cols.len() {
        acc
    } else {
        match cols[j] {
            OutputColumnView::Arithmetic { name, expression, .. } => arithmetic_columns(
                cols,
                j + 1,
                acc.push((name, expression)),
            ),
            _ => arithmetic_columns(cols, j + 1, acc),
        }
    }
}

/// `acc` and then the literal columns among `cols` from position `j` on,
/// each with its name and its value. A literal without a value is
/// refused.
pub open spec fn literal_columns(
    cols: Seq<OutputColumnView>,
    j: int,
    acc: Seq<(Seq<char>, DataTypeView)>,
) -> Result<Seq<(Seq<char>, DataTypeView)>, MirError>
    decreases cols.len() - j,
{
    if j < 0 || j >= cols.len() {
        Ok(acc)
    } else {
        match cols[j] {
            OutputColumnView::Literal { name, value, .. } => match DataTypeView::of_literal(value) {
                Some(v) => literal_columns(cols, j + 1, acc.push((name, v))),
                None => Err(MirError::Unsupported),
            },
            _ => literal_columns(cols, j + 1, acc),
        }
    }
}

/// `projected` and then those of `params` from position `j` on that are
/// not projected yet.
pub open spec fn with_parameters(projected: Seq<ColumnView>, params: Seq<ColumnView>, j: int) -> Seq<
    ColumnView,
>
    decreases params.len() - j,
{
    if j < 0 || j >= params.len() {
        projected
    } else if columns_contain(projected, params[j]) {
        with_parameters(projected, params, j + 1)
    } else {
        with_parameters(projected.push(params[j]), params, j + 1)
    }
}

/// The literal column that gives a leaf without parameters its key.
pub open spec fn bogokey_literal() -> (Seq<char>, DataTypeView) {
    ("bogokey"@, DataTypeView::Int(0))
}

/// The last nodes of a query over `final_node`: the projection and, with
/// `has_leaf`, the leaf; `count` nodes of the query were made before.
///
/// The projection shows the data columns of the query, or for a query of
/// a group universe all columns of `final_node`, then the parameters that
/// are not among them, the literals and the arithmetic columns. A query
/// with a leaf and without parameters gets the literal `bogokey`, and the
/// leaf is keyed on it; else the leaf is keyed on the parameters. With a
/// leaf the projection is named by `count` and the leaf has the name of
/// the query; without, the projection has the name of the query and its
/// columns belong to the view.
#[verifier::opaque]
pub open spec fn output_nodes(
    g: Seq<MirNodeView>,
    version: usize,
    name: Seq<char>,
    qg: QueryGraphView,
    has_leaf: bool,
    group_universe: bool,
    uformat: Seq<char>,
    count: int,
    final_node: usize,
) -> Result<(Seq<MirNodeView>, Seq<usize>), MirError> {
    if final_node >= g.len() {
        Err(MirError::UnknownView)
    } else {
        let shown = if group_universe {
            g[final_node as int].columns
        } else {
            data_columns(qg.columns, 0, Seq::empty())
        };
        let projected = with_parameters(shown, qg.parameters(), 0);
        let arithmetic = arithmetic_columns(qg.columns, 0, Seq::empty());
        match literal_columns(qg.columns, 0, Seq::empty()) {
            Err(e) => Err(e),
            Ok(lits) => {
                let has_bogokey = has_leaf && qg.parameters().len() == 0;
                let literals = if has_bogokey {
                    lits.push(bogokey_literal())
                } else {
                    lits
                };
                let ident = if has_leaf {
                    numbered_query_name(qg.signature_hash, count as usize, uformat)
                } else {
                    name
                };
                match project_node(
                    g,
                    version,
                    ident,
                    final_node,
                    projected,
                    arithmetic,
                    literals,
                    !has_leaf,
                ) {
                    Err(e) => Err(e),
                    Ok(p) => {
                        if !has_leaf {
                            Ok((g.push(p), seq![g.len() as usize]))
                        } else {
                            let keys = if has_bogokey {
                                seq![ColumnView::plain("bogokey"@, ident)]
                            } else {
                                qg.parameters()
                            };
                            match leaf_node(
                                g.push(p),
                                version,
                                name,
                                g.len() as usize,
                                g.len() as usize,
                                sanitized_all(p.columns, name),
                                keys,
                            ) {
                                Err(e) => Err(e),
                                Ok(l) => Ok(
                                    (
                                        g.push(p).push(l),
                                        seq![g.len() as usize, (g.len() + 1) as usize],
                                    ),
                                ),
                            }
                        }
                    },
                }
            },
        }
    }
}

impl QueryGraph {
    /// The data columns among the output columns.
    pub fn data_columns(&self) -> (r: Vec<Column>)
        ensures
            r.deep_view() == data_columns(self.deep_view().columns, 0, Seq::empty()),
    {
        let ghost cv = self.columns.deep_view();
        let mut out: Vec<Column> = Vec::new();
        assert(out.deep_view() =~= Seq::empty());
        let mut j: usize = 0;
        while j < self.columns.len()
            invariant
                j <= self.columns.len(),
                cv == self.columns.deep_view(),
                data_columns(cv, 0, Seq::empty()) == data_columns(cv, j as int, out.deep_view()),
            decreases self.columns.len() - j,
        {
            assert(cv[j as int] == self.columns[j as int].deep_view());
            match &self.columns[j] {
                OutputColumn::Data(c) => {
                    let ghost prev = out.deep_view();
                    out.push(c.clone());
                    assert(out.deep_view() =~= prev.push(c.deep_view()));
                },
                _ => {},
            }
            j += 1;
        }
        out
    }

    /// The arithmetic columns among the output columns, each with its
    /// name.
    pub fn arithmetic_columns(&self) -> (r: Vec<(String, ArithmeticExpression)>)
        ensures
            r.deep_view() == arithmetic_columns(self.deep_view().columns, 0, Seq::empty()),
    {
        let ghost cv = self.columns.deep_view();
        let mut out: Vec<(String, ArithmeticExpression)> = Vec::new();
        assert(out.deep_view() =~= Seq::empty());
        let mut j: usize = 0;
        while j < self.columns.len()
            invariant
                j <= self.columns.len(),
                cv == self.columns.deep_view(),
                arithmetic_columns(cv, 0, Seq::empty()) == arithmetic_columns(
                    cv,
                    j as int,
                    out.deep_view(),
                ),
            decreases self.columns.len() - j,
        {
            assert(cv[j as int] == self.columns[j as int].deep_view());
            match &self.columns[j] {
                OutputColumn::Arithmetic(ac) => {
                    let ghost prev = out.deep_view();
                    let entry = (ac.name.clone(), ac.expression.clone());
                    out.push(entry);
                    assert(out.deep_view() =~= prev.push((ac.name@, ac.expression.deep_view())));
                },
                _ => {},
            }
            j += 1;
        }
        out
    }

    /// The literal columns among the output columns, each with its name
    /// and its value.
    pub fn literal_columns(&self) -> (r: Result<Vec<(String, DataType)>, MirError>)
        ensures
            match literal_columns(self.deep_view().columns, 0, Seq::empty()) {
                Ok(l) => r is Ok && r->Ok_0.deep_view() == l,
                Err(e) => r is Err && r->Err_0 == e,
            },
    {
        let ghost cv = self.columns.deep_view();
        let mut out: Vec<(String, DataType)> = Vec::new();
        assert(out.deep_view() =~= Seq::empty());
        let mut j: usize = 0;
        while j < self.columns.len()
            invariant
                j <= self.columns.len(),
                cv == self.columns.deep_view(),
                literal_columns(cv, 0, Seq::empty()) == literal_columns(
                    cv,
                    j as int,
                    out.deep_view(),
                ),
            decreases self.columns.len() - j,
        {
            assert(cv[j as int] == self.columns[j as int].deep_view());
            match &self.columns[j] {
                OutputColumn::Literal(lc) => {
                    match DataType::from_literal(&lc.value) {
                        Some(v) => {
                            let ghost prev = out.deep_view();
                            let entry = (lc.name.clone(), v);
                            out.push(entry);
                            assert(out.deep_view() =~= prev.push((lc.name@, v.deep_view())));
                        },
                        None => {
                            return Err(MirError::Unsupported);
                        },
                    }
                },
                _ => {},
            }
            j += 1;
        }
        Ok(out)
    }
}

/// Adds to `projected` those of `params` that it does not hold yet.
pub fn add_parameters(projected: &mut Vec<Column>, params: &Vec<Column>)
    ensures
        final(projected).deep_view() == with_parameters(
            old(projected).deep_view(),
            params.deep_view(),
            0,
        ),
{
    let mut j: usize = 0;
    while j < params.len()
        invariant
            j <= params.len(),
            with_parameters(old(projected).deep_view(), params.deep_view(), 0) == with_parameters(
                projected.deep_view(),
                params.deep_view(),
                j as int,
            ),
        decreases params.len() - j,
    {
        assert(params.deep_view()[j as int] == params[j as int].deep_view());
        if !contains_column(projected, &params[j]) {
            let ghost prev = projected.deep_view();
            projected.push(params[j].clone());
            assert(projected.deep_view() =~= prev.push(params[j as int].deep_view()));
        }
        j += 1;
    }
}

impl SqlToMirConverter {
    /// The last nodes of the query named `name` over `final_node`: the
    /// projection and, with `has_leaf`, the leaf.
    pub fn make_output_nodes(
        &mut self,
        name: &str,
        qg: &QueryGraph,
        has_leaf: bool,
        group_universe: bool,
        uformat: &str,
        count: usize,
        final_node: MirNodeRef,
    ) -> (r: Result<Vec<MirNodeRef>, MirError>)
        requires
            old(self)@.wf(),
        ensures
            final(self)@.wf(),
            grown(old(self)@.graph, final(self)@.graph),
            many_made(
                old(self)@,
                final(self)@,
                r,
                output_nodes(
                    old(self)@.graph,
                    old(self)@.schema_version,
                    name@,
                    qg.deep_view(),
                    has_leaf,
                    group_universe,
                    uformat@,
                    count as int,
                    final_node,
                ),
            ),
            r is Ok ==> all_new(old(self)@.graph, final(self)@.graph, r->Ok_0@),
            r is Ok ==> old(self)@.graph.len() + r->Ok_0@.len() == final(self)@.graph.len(),
            r is Ok ==> r->Ok_0@.len() > 0 && r->Ok_0@.last() + 1 == final(self)@.graph.len(),
    {
        let ghost pre = self@;
        let start = self.graph.len();
        proof {
            reveal(output_nodes);
            lemma_grown_push(pre.graph, arbitrary());
        }
        if final_node >= self.graph.len() {
            return Err(MirError::UnknownView);
        }
        let params = qg.parameters();
        let mut projected_columns = if group_universe {
            clone_columns(&self.graph.node(final_node).columns)
        } else {
            qg.data_columns()
        };
        add_parameters(&mut projected_columns, &params);
        let projected_arithmetic = qg.arithmetic_columns();
        let mut projected_literals = match qg.literal_columns() {
            Ok(l) => l,
            Err(e) => {
                return Err(e);
            },
        };
        let has_bogokey = has_leaf && params.len() == 0;
        if has_bogokey {
            let ghost prev = projected_literals.deep_view();
            projected_literals.push(("bogokey".to_owned(), DataType::Int(0)));
            assert(projected_literals.deep_view() =~= prev.push(bogokey_literal()));
        }
        let ident = if has_leaf {
            numbered_query_name_string(qg.signature_hash, count, uformat)
        } else {
            name.to_owned()
        };
        let leaf_project_node = match self.make_project_node(
            ident.as_str(),
            final_node,
            projected_columns,
            projected_arithmetic,
            projected_literals,
            !has_leaf,
        ) {
            Ok(p) => p,
            Err(e) => {
                return Err(e);
            },
        };
        let ghost g1 = self@.graph;
        proof {
            lemma_grown_push(pre.graph, g1.last());
        }
        let mut nodes: Vec<MirNodeRef> = Vec::new();
        nodes.push(leaf_project_node);
        if has_leaf {
            let columns = sanitize_leaf_columns(&self.graph.node(leaf_project_node).columns, name);
            let query_params = if has_bogokey {
                let mut keys: Vec<Column> = Vec::new();
                keys.push(Column::new("bogokey", ident.as_str()));
                assert(keys.deep_view() =~= seq![ColumnView::plain("bogokey"@, ident@)]);
                keys
            } else {
                params
            };
            match self.make_leaf_node(
                name,
                leaf_project_node,
                leaf_project_node,
                columns,
                query_params,
            ) {
                Err(e) => {
                    self.rollback(start, Ghost(pre));
                    return Err(e);
                },
                Ok(leaf) => {
                    nodes.push(leaf);
                    assert(nodes@ =~= seq![leaf_project_node, leaf]);
                    proof {
                        lemma_grown_push(g1, self@.graph.last());
                        lemma_grown_trans(pre.graph, g1, self@.graph);
                    }
                },
            }
        } else {
            assert(nodes@ =~= seq![leaf_project_node]);
        }
        Ok(nodes)
    }
}

} // verus!
