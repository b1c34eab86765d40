//! The constructors of the nodes at the end of a query: projection, TopK,
//! identity and leaf.
use crate::ast::{
    ArithmeticExpression, ArithmeticView, Column, ColumnView, LimitClause, OrderClause, OrderType,
};
use crate::converter::SqlToMirConverter;
use crate::factory::{one_made, sanitize_leaf_column, sanitized};
use crate::graph::clone_columns;
use crate::node::{MirNodeRef, MirNodeType, MirNodeTypeView, MirNodeView};
use crate::value::{DataType, DataTypeView, MirError};
use vstd::prelude::*;

verus! {

/// The column that a projection named `name` shows for `c`: an alias
/// becomes the name; in a projection that ends a view the column belongs
/// to the view.
pub open spec fn projected_field(c: ColumnView, name: Seq<char>, is_leaf: bool) -> ColumnView {
    match c.alias {
        Some(a) => ColumnView {
            name: a,
            alias: None,
            table: if is_leaf {
                Some(name)
            } else {
                c.table
            },
            function: c.function,
        },
        None => if is_leaf {
            sanitized(c, name)
        } else {
            c
        },
    }
}

/// The column without its alias.
pub open spec fn without_alias(c: ColumnView) -> ColumnView {
    ColumnView { alias: None, ..c }
}

/// The columns that a projection emits of its ancestor: the projected
/// columns without their aliases.
pub open spec fn project_emit(proj_cols: Seq<ColumnView>) -> Seq<ColumnView> {
    Seq::new(proj_cols.len(), |i: int| without_alias(proj_cols[i]))
}

/// The columns that a projection named `name` shows: the projected
/// columns, then one column per literal, then one per arithmetic
/// expression.
pub open spec fn project_fields(
    name: Seq<char>,
    proj_cols: Seq<ColumnView>,
    arithmetic: Seq<(Seq<char>, ArithmeticView)>,
    literals: Seq<(Seq<char>, DataTypeView)>,
    is_leaf: bool,
) -> Seq<ColumnView> {
    Seq::new(proj_cols.len(), |i: int| projected_field(proj_cols[i], name, is_leaf)) + Seq::new(
        literals.len(),
        |i: int| ColumnView::plain(literals[i].0, name),
    ) + Seq::new(arithmetic.len(), |i: int| ColumnView::plain(arithmetic[i].0, name))
}

/// The Project node over `parent`.
pub open spec fn project_node(
    g: Seq<MirNodeView>,
    version: usize,
    name: Seq<char>,
    parent: usize,
    proj_cols: Seq<ColumnView>,
    arithmetic: Seq<(Seq<char>, ArithmeticView)>,
    literals: Seq<(Seq<char>, DataTypeView)>,
    is_leaf: bool,
) -> Result<MirNodeView, MirError> {
    if parent >= g.len() {
        Err(MirError::UnknownView)
    } else {
        Ok(
            MirNodeView::fresh(
                name,
                version,
                project_fields(name, proj_cols, arithmetic, literals, is_leaf),
                MirNodeTypeView::Project { emit: project_emit(proj_cols), arithmetic, literals },
                seq![parent],
            ),
        )
    }
}

/// The literal column by which the rows of a query without GROUP BY form
/// one group.
pub open spec fn group_literal() -> (Seq<char>, DataTypeView) {
    ("grp"@, DataTypeView::Int(0))
}

/// The TopK node over `parent`: the first `limit.limit` rows of each group
/// in the given order. An offset other than 0 is refused.
pub open spec fn topk_node(
    g: Seq<MirNodeView>,
    version: usize,
    name: Seq<char>,
    parent: usize,
    group_by: Seq<ColumnView>,
    order: Option<Seq<(ColumnView, OrderType)>>,
    limit: LimitClause,
) -> Result<MirNodeView, MirError> {
    if parent >= g.len() {
        Err(MirError::UnknownView)
    } else if limit.offset != 0 {
        Err(MirError::InvariantViolation)
    } else {
        Ok(
            MirNodeView::fresh(
                name,
                version,
                g[parent as int].columns,
                MirNodeTypeView::TopK { order, group_by, k: limit.limit, offset: 0 },
                seq![parent],
            ),
        )
    }
}

/// The Identity node over `parent` with the given columns.
pub open spec fn identity_node(
    g: Seq<MirNodeView>,
    version: usize,
    name: Seq<char>,
    parent: usize,
    columns: Seq<ColumnView>,
) -> Result<MirNodeView, MirError> {
    if parent >= g.len() {
        Err(MirError::UnknownView)
    } else {
        Ok(MirNodeView::fresh(name, version, columns, MirNodeTypeView::Identity, seq![parent]))
    }
}

/// The Leaf node that reads `parent` and is the reader of `node`, keyed
/// on `keys`.
pub open spec fn leaf_node(
    g: Seq<MirNodeView>,
    version: usize,
    name: Seq<char>,
    parent: usize,
    node: usize,
    columns: Seq<ColumnView>,
    keys: Seq<ColumnView>,
) -> Result<MirNodeView, MirError> {
    if parent >= g.len() || node >= g.len() {
        Err(MirError::UnknownView)
    } else {
        Ok(
            MirNodeView::fresh(
                name,
                version,
                columns,
                MirNodeTypeView::Leaf { node, keys },
                seq![parent],
            ),
        )
    }
}

/// The ORDER BY columns as a TopK node holds them.
pub fn order_columns(order: &Option<OrderClause>) -> (r: Option<Vec<(Column, OrderType)>>)
    ensures
        r.deep_view() == crate::ast::order_view(*order),
{
    match order {
        None => None,
        Some(oc) => {
            let mut out: Vec<(Column, OrderType)> = Vec::new();
            let mut i: usize = 0;
            while i < oc.columns.len()
                invariant
                    i <= oc.columns.len(),
                    out.len() == i,
                    forall|k: int|
                        0 <= k < i ==> out[k].deep_view() == oc.columns[k].deep_view(),
                decreases oc.columns.len() - i,
            {
                out.push((oc.columns[i].0.clone(), oc.columns[i].1));
                i += 1;
            }
            assert(out.deep_view() =~= oc.columns.deep_view());
            Some(out)
        },
    }
}

fn one_ancestor(parent: MirNodeRef) -> (r: Vec<MirNodeRef>)
    ensures
        r@ == seq![parent],
{
    let mut ancestors: Vec<MirNodeRef> = Vec::new();
    ancestors.push(parent);
    assert(ancestors@ =~= seq![parent]);
    ancestors
}

impl SqlToMirConverter {
    /// A Project node over `parent_node` that shows `proj_cols`, then the
    /// literals, then the arithmetic expressions. With `is_leaf` the node
    /// ends a view, and its columns belong to the view.
    pub fn make_project_node(
        &mut self,
        name: &str,
        parent_node: MirNodeRef,
        proj_cols: Vec<Column>,
        arithmetic: Vec<(String, ArithmeticExpression)>,
        literals: Vec<(String, DataType)>,
        is_leaf: bool,
    ) -> (r: Result<MirNodeRef, MirError>)
        requires
            old(self)@.wf(),
        ensures
            final(self)@.wf(),
            one_made(
                old(self)@,
                final(self)@,
                r,
                project_node(
                    old(self)@.graph,
                    old(self)@.schema_version,
                    name@,
                    parent_node,
                    proj_cols.deep_view(),
                    arithmetic.deep_view(),
                    literals.deep_view(),
                    is_leaf,
                ),
            ),
    {
        if parent_node >= self.graph.len() {
            return Err(MirError::UnknownView);
        }
        let mut fields: Vec<Column> = Vec::new();
        let mut emit_cols: Vec<Column> = Vec::new();
        let mut i: usize = 0;
        while i < proj_cols.len()
            invariant
                i <= proj_cols.len(),
                fields.len() == i,
                emit_cols.len() == i,
                forall|k: int|
                    0 <= k < i ==> fields[k].deep_view() == projected_field(
                        proj_cols[k].deep_view(),
                        name@,
                        is_leaf,
                    ),
                forall|k: int|
                    0 <= k < i ==> emit_cols[k].deep_view() == without_alias(
                        proj_cols[k].deep_view(),
                    ),
            decreases proj_cols.len() - i,
        {
            let c = &proj_cols[i];
            let field = match &c.alias {
                Some(a) => Column {
                    name: a.clone(),
                    alias: None,
                    table: if is_leaf {
                        Some(name.to_owned())
                    } else {
                        c.table.clone()
                    },
                    function: c.clone().function,
                },
                None => {
                    if is_leaf {
                        sanitize_leaf_column(c.clone(), name)
                    } else {
                        c.clone()
                    }
                },
            };
            fields.push(field);
            let mut e = c.clone();
            e.alias = None;
            emit_cols.push(e);
            i += 1;
        }
        let ghost first = fields.deep_view();
        assert(first =~= Seq::new(
            proj_cols.deep_view().len(),
            |k: int| projected_field(proj_cols.deep_view()[k], name@, is_leaf),
        ));
        assert(emit_cols.deep_view() =~= project_emit(proj_cols.deep_view()));
        let mut j: usize = 0;
        while j < literals.len()
            invariant
                j <= literals.len(),
                fields.deep_view() == first + Seq::new(
                    j as nat,
                    |k: int| ColumnView::plain(literals.deep_view()[k].0, name@),
                ),
            decreases literals.len() - j,
        {
            let ghost prev = fields.deep_view();
            let col = Column {
                name: literals[j].0.clone(),
                alias: None,
                table: Some(name.to_owned()),
                function: None,
            };
            fields.push(col);
            assert(fields.deep_view() =~= prev.push(col.deep_view()));
            assert(col.deep_view() == ColumnView::plain(literals.deep_view()[j as int].0, name@));
            assert(fields.deep_view() =~= first + Seq::new(
                (j + 1) as nat,
                |k: int| ColumnView::plain(literals.deep_view()[k].0, name@),
            ));
            j += 1;
        }
        let ghost second = fields.deep_view();
        let mut j: usize = 0;
        while j < arithmetic.len()
            invariant
                j <= arithmetic.len(),
                fields.deep_view() == second + Seq::new(
                    j as nat,
                    |k: int| ColumnView::plain(arithmetic.deep_view()[k].0, name@),
                ),
            decreases arithmetic.len() - j,
        {
            let ghost prev = fields.deep_view();
            let col = Column {
                name: arithmetic[j].0.clone(),
                alias: None,
                table: Some(name.to_owned()),
                function: None,
            };
            fields.push(col);
            assert(fields.deep_view() =~= prev.push(col.deep_view()));
            assert(col.deep_view() == ColumnView::plain(arithmetic.deep_view()[j as int].0, name@));
            assert(fields.deep_view() =~= second + Seq::new(
                (j + 1) as nat,
                |k: int| ColumnView::plain(arithmetic.deep_view()[k].0, name@),
            ));
            j += 1;
        }
        Ok(
            self.new_node(
                name.to_owned(),
                fields,
                MirNodeType::Project { emit: emit_cols, arithmetic, literals },
                one_ancestor(parent_node),
            ),
        )
    }

    /// A Project node over `parent` that shows `fn_col` and the literal
    /// column `grp`, by which all rows form one group.
    pub fn make_projection_helper(&mut self, name: &str, parent: MirNodeRef, fn_col: &Column) -> (r:
        Result<MirNodeRef, MirError>)
        requires
            old(self)@.wf(),
        ensures
            final(self)@.wf(),
            one_made(
                old(self)@,
                final(self)@,
                r,
                project_node(
                    old(self)@.graph,
                    old(self)@.schema_version,
                    name@,
                    parent,
                    seq![fn_col.deep_view()],
                    Seq::empty(),
                    seq![group_literal()],
                    false,
                ),
            ),
    {
        let mut cols: Vec<Column> = Vec::new();
        cols.push(fn_col.clone());
        assert(cols.deep_view() =~= seq![fn_col.deep_view()]);
        let arithmetic: Vec<(String, ArithmeticExpression)> = Vec::new();
        assert(arithmetic.deep_view() =~= Seq::empty());
        let mut literals: Vec<(String, DataType)> = Vec::new();
        literals.push(("grp".to_owned(), DataType::Int(0)));
        assert(literals.deep_view() =~= seq![group_literal()]);
        self.make_project_node(name, parent, cols, arithmetic, literals, false)
    }

    /// A TopK node over `parent`.
    pub fn make_topk_node(
        &mut self,
        name: &str,
        parent: MirNodeRef,
        group_by: Vec<Column>,
        order: &Option<OrderClause>,
        limit: &LimitClause,
    ) -> (r: Result<MirNodeRef, MirError>)
        requires
            old(self)@.wf(),
        ensures
            final(self)@.wf(),
            one_made(
                old(self)@,
                final(self)@,
                r,
                topk_node(
                    old(self)@.graph,
                    old(self)@.schema_version,
                    name@,
                    parent,
                    group_by.deep_view(),
                    crate::ast::order_view(*order),
                    *limit,
                ),
            ),
    {
        if parent >= self.graph.len() {
            return Err(MirError::UnknownView);
        }
        let combined_columns = clone_columns(&self.graph.node(parent).columns);
        let order = order_columns(order);
        if limit.offset != 0 {
            return Err(MirError::InvariantViolation);
        }
        Ok(
            self.new_node(
                name.to_owned(),
                combined_columns,
                MirNodeType::TopK { order, group_by, k: limit.limit, offset: 0 },
                one_ancestor(parent),
            ),
        )
    }

    /// An Identity node over `parent` with the given columns.
    pub fn make_identity_node(&mut self, name: &str, parent: MirNodeRef, columns: Vec<Column>) -> (r:
        Result<MirNodeRef, MirError>)
        requires
            old(self)@.wf(),
        ensures
            final(self)@.wf(),
            one_made(
                old(self)@,
                final(self)@,
                r,
                identity_node(
                    old(self)@.graph,
                    old(self)@.schema_version,
                    name@,
                    parent,
                    columns.deep_view(),
                ),
            ),
    {
        if parent >= self.graph.len() {
            return Err(MirError::UnknownView);
        }
        Ok(self.new_node(name.to_owned(), columns, MirNodeType::Identity, one_ancestor(parent)))
    }

    /// A Leaf node that reads `parent` and is the reader of `node`.
    pub fn make_leaf_node(
        &mut self,
        name: &str,
        parent: MirNodeRef,
        node: MirNodeRef,
        columns: Vec<Column>,
        keys: Vec<Column>,
    ) -> (r: Result<MirNodeRef, MirError>)
        requires
            old(self)@.wf(),
        ensures
            final(self)@.wf(),
            one_made(
                old(self)@,
                final(self)@,
                r,
                leaf_node(
                    old(self)@.graph,
                    old(self)@.schema_version,
                    name@,
                    parent,
                    node,
                    columns.deep_view(),
                    keys.deep_view(),
                ),
            ),
    {
        if parent >= self.graph.len() || node >= self.graph.len() {
            return Err(MirError::UnknownView);
        }
        Ok(
            self.new_node(
                name.to_owned(),
                columns,
                MirNodeType::Leaf { node, keys },
                one_ancestor(parent),
            ),
        )
    }
}

} // verus!
