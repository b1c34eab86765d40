//! The constructors of nodes: one per kind of operator. Each records the
//! name, the current schema version, the output columns, the payload and
//! the ancestors of the node, refuses what breaks the rules of the kind,
//! and appends the node to the graph.
use crate::ast::{Column, ColumnView, ConditionBase, ConditionBaseView, ConditionExpression,
    ConditionTree, ConditionTreeView, ConditionView, Operator};
use crate::conditions::conditions_for;
use crate::converter::{ConverterView, SqlToMirConverter};
use crate::graph::clone_columns;
use crate::node::{JoinType, MirNode, MirNodeRef, MirNodeType, MirNodeTypeView, MirNodeView};
use crate::value::MirError;
use vstd::prelude::*;

verus! {

/// What a constructor of one node owes: on success the handle of the new
/// node, which is appended to the graph while the rest of the state stays;
/// on refusal the error, with the state unchanged.
pub open spec fn one_made(
    pre: ConverterView,
    post: ConverterView,
    r: Result<MirNodeRef, MirError>,
    model: Result<MirNodeView, MirError>,
) -> bool {
    match model {
        Ok(node) => {
            &&& r is Ok
            &&& r->Ok_0 == pre.graph.len()
            &&& post == pre.with_graph(pre.graph.push(node))
        },
        Err(e) => r == Err::<MirNodeRef, MirError>(e) && post == pre,
    }
}

/// Every handle of `refs` is a node of the graph.
pub open spec fn refs_valid(g: Seq<MirNodeView>, refs: Seq<usize>) -> bool {
    forall|k: int| 0 <= k < refs.len() ==> #[trigger] refs[k] < g.len()
}

/// The column as a leaf shows it: it belongs to the view, it is no
/// function any more, and an alias that repeats the name is dropped.
pub open spec fn sanitized(c: ColumnView, view_name: Seq<char>) -> ColumnView {
    ColumnView {
        name: c.name,
        alias: if c.alias == Some(c.name) {
            None
        } else {
            c.alias
        },
        table: Some(view_name),
        function: None,
    }
}

/// The columns as a leaf shows them.
pub open spec fn sanitized_all(cols: Seq<ColumnView>, view_name: Seq<char>) -> Seq<ColumnView> {
    Seq::new(cols.len(), |i: int| sanitized(cols[i], view_name))
}

/// The column as a leaf shows it.
pub fn sanitize_leaf_column(c: Column, view_name: &str) -> (r: Column)
    ensures
        r.deep_view() == sanitized(c.deep_view(), view_name@),
{
    let repeats = match &c.alias {
        Some(a) => *a == c.name,
        None => false,
    };
    Column {
        name: c.name,
        alias: if repeats {
            None
        } else {
            c.alias
        },
        table: Some(view_name.to_owned()),
        function: None,
    }
}

/// The columns as a leaf shows them.
pub fn sanitize_leaf_columns(cols: &Vec<Column>, view_name: &str) -> (r: Vec<Column>)
    ensures
        r.deep_view() == sanitized_all(cols.deep_view(), view_name@),
{
    let mut out: Vec<Column> = Vec::new();
    let mut i: usize = 0;
    while i < cols.len()
        invariant
            i <= cols.len(),
            out.len() == i,
            forall|k: int|
                0 <= k < i ==> out[k].deep_view() == sanitized(cols[k].deep_view(), view_name@),
        decreases cols.len() - i,
    {
        out.push(sanitize_leaf_column(cols[i].clone(), view_name));
        i += 1;
    }
    assert(out.deep_view() =~= sanitized_all(cols.deep_view(), view_name@));
    out
}

/// The Filter node over `parent` for the comparison `ct`.
pub open spec fn filter_node(
    g: Seq<MirNodeView>,
    version: usize,
    name: Seq<char>,
    parent: usize,
    ct: ConditionTreeView,
) -> Result<MirNodeView, MirError> {
    if parent >= g.len() {
        Err(MirError::UnknownView)
    } else {
        match conditions_for(g, parent, g[parent as int].columns, ct) {
            Err(e) => Err(e),
            Ok((cols, slots)) => Ok(
                MirNodeView::fresh(
                    name,
                    version,
                    cols,
                    MirNodeTypeView::Filter { conditions: slots },
                    seq![parent],
                ),
            ),
        }
    }
}

/// The Union node over nodes that all have the columns `columns`: every
/// ancestor emits those columns. A union has at least two ancestors.
pub open spec fn same_base_union_node(
    g: Seq<MirNodeView>,
    version: usize,
    name: Seq<char>,
    ancestors: Seq<usize>,
    columns: Seq<ColumnView>,
) -> Result<MirNodeView, MirError> {
    if ancestors.len() < 2 {
        Err(MirError::InvariantViolation)
    } else if !refs_valid(g, ancestors) {
        Err(MirError::UnknownView)
    } else {
        Ok(
            MirNodeView::fresh(
                name,
                version,
                columns,
                MirNodeTypeView::Union { emit: Seq::new(ancestors.len(), |k: int| columns) },
                ancestors,
            ),
        )
    }
}

/// Whether one of `cols` is named `name`.
pub open spec fn has_name(cols: Seq<ColumnView>, name: Seq<char>) -> bool {
    exists|i: int| 0 <= i < cols.len() && (#[trigger] cols[i]).name == name
}

/// Whether every one of `ancestors` has a column named `name`.
pub open spec fn in_every(g: Seq<MirNodeView>, ancestors: Seq<usize>, name: Seq<char>) -> bool {
    forall|k: int|
        0 <= k < ancestors.len() ==> has_name(g[(#[trigger] ancestors[k]) as int].columns, name)
}

/// What a union takes of the columns `cols` of one ancestor: the first
/// column of each name that every ancestor has.
pub open spec fn union_pick(g: Seq<MirNodeView>, ancestors: Seq<usize>, cols: Seq<ColumnView>) -> Seq<
    ColumnView,
>
    decreases cols.len(),
{
    if cols.len() == 0 {
        Seq::empty()
    } else {
        let acc = union_pick(g, ancestors, cols.drop_last());
        let c = cols.last();
        if in_every(g, ancestors, c.name) && !has_name(acc, c.name) {
            acc.push(c)
        } else {
            acc
        }
    }
}

/// What a union takes of each ancestor.
pub open spec fn union_emit(g: Seq<MirNodeView>, ancestors: Seq<usize>) -> Seq<Seq<ColumnView>> {
    Seq::new(
        ancestors.len(),
        |k: int| union_pick(g, ancestors, g[ancestors[k] as int].columns),
    )
}

/// Whether all lists are as long as the first.
pub open spec fn equal_lengths(emit: Seq<Seq<ColumnView>>) -> bool {
    forall|k: int| 0 <= k < emit.len() ==> (#[trigger] emit[k]).len() == emit[0].len()
}

/// The Union node over `ancestors`: each ancestor emits the columns whose
/// names all ancestors share, and the node shows those of the first
/// ancestor. A union has at least two ancestors.
pub open spec fn union_node(
    g: Seq<MirNodeView>,
    version: usize,
    name: Seq<char>,
    ancestors: Seq<usize>,
) -> Result<MirNodeView, MirError> {
    if ancestors.len() < 2 {
        Err(MirError::InvariantViolation)
    } else if !refs_valid(g, ancestors) {
        Err(MirError::UnknownView)
    } else {
        let emit = union_emit(g, ancestors);
        Ok(MirNodeView::fresh(name, version, emit[0], MirNodeTypeView::Union { emit }, ancestors))
    }
}

/// The names of columns.
pub open spec fn names_of(cols: Seq<ColumnView>) -> Seq<Seq<char>> {
    Seq::new(cols.len(), |i: int| cols[i].name)
}

/// What a union takes of the columns of one ancestor holds no name twice,
/// and it holds a name exactly when every ancestor has a column of that
/// name and the columns do.
pub proof fn lemma_union_pick_names(
    g: Seq<MirNodeView>,
    ancestors: Seq<usize>,
    cols: Seq<ColumnView>,
)
    ensures
        names_of(union_pick(g, ancestors, cols)).no_duplicates(),
        forall|n: Seq<char>|
            #![trigger has_name(union_pick(g, ancestors, cols), n)]
            has_name(union_pick(g, ancestors, cols), n) <==> (in_every(g, ancestors, n) && has_name(
                cols,
                n,
            )),
    decreases cols.len(),
{
    let pick = union_pick(g, ancestors, cols);
    if cols.len() == 0 {
        assert forall|n: Seq<char>| #![trigger has_name(pick, n)] !has_name(pick, n) by {}
        assert forall|n: Seq<char>| !has_name(cols, n) by {}
    } else {
        let rest = cols.drop_last();
        let acc = union_pick(g, ancestors, rest);
        let c = cols.last();
        lemma_union_pick_names(g, ancestors, rest);
        let taken = in_every(g, ancestors, c.name) && !has_name(acc, c.name);
        if taken {
            assert(pick == acc.push(c));
            assert(names_of(pick) =~= names_of(acc).push(c.name));
            assert forall|i: int, j: int|
                0 <= i < names_of(pick).len() && 0 <= j < names_of(pick).len() && i
                    != j implies names_of(pick)[i] != names_of(pick)[j] by {
                if i < acc.len() && j < acc.len() {
                    assert(names_of(acc)[i] != names_of(acc)[j]);
                } else if i < acc.len() {
                    assert(acc[i].name != c.name);
                } else {
                    assert(acc[j].name != c.name);
                }
            }
        }
        assert forall|n: Seq<char>| #![trigger has_name(pick, n)] has_name(pick, n) <==> (in_every(
            g,
            ancestors,
            n,
        ) && has_name(cols, n)) by {
            if has_name(pick, n) {
                let i = choose|i: int| 0 <= i < pick.len() && (#[trigger] pick[i]).name == n;
                if taken && i == acc.len() {
                    assert(cols[cols.len() - 1].name == n);
                } else {
                    assert(acc[i].name == n);
                    assert(has_name(acc, n));
                    let j = choose|j: int| 0 <= j < rest.len() && (#[trigger] rest[j]).name == n;
                    assert(cols[j].name == n);
                }
            }
            if in_every(g, ancestors, n) && has_name(cols, n) {
                let j = choose|j: int| 0 <= j < cols.len() && (#[trigger] cols[j]).name == n;
                if j < rest.len() {
                    assert(rest[j].name == n);
                    assert(has_name(rest, n));
                    assert(has_name(acc, n));
                    let i = choose|i: int| 0 <= i < acc.len() && (#[trigger] acc[i]).name == n;
                    assert(pick[i].name == n);
                } else if taken {
                    assert(pick[acc.len() as int].name == n);
                } else {
                    assert(has_name(acc, n));
                    let i = choose|i: int| 0 <= i < acc.len() && (#[trigger] acc[i]).name == n;
                    assert(pick[i].name == n);
                }
            }
        }
    }
}

/// A union takes equally many columns of each of its ancestors: one per
/// name that all of them share.
pub proof fn lemma_union_emit_lengths(g: Seq<MirNodeView>, ancestors: Seq<usize>)
    requires
        ancestors.len() >= 1,
        refs_valid(g, ancestors),
    ensures
        equal_lengths(union_emit(g, ancestors)),
{
    let emit = union_emit(g, ancestors);
    let first = names_of(emit[0]);
    lemma_union_pick_names(g, ancestors, g[ancestors[0] as int].columns);
    first.unique_seq_to_set();
    assert forall|k: int| 0 <= k < emit.len() implies (#[trigger] emit[k]).len() == emit[0].len() by {
        let mine = names_of(emit[k]);
        lemma_union_pick_names(g, ancestors, g[ancestors[k] as int].columns);
        mine.unique_seq_to_set();
        assert forall|n: Seq<char>| mine.to_set().contains(n) <==> first.to_set().contains(n) by {
            if mine.contains(n) {
                let i = choose|i: int| 0 <= i < mine.len() && mine[i] == n;
                assert(emit[k][i].name == n);
                assert(has_name(emit[k], n));
                assert(in_every(g, ancestors, n));
                assert(has_name(g[ancestors[0] as int].columns, n));
                assert(has_name(emit[0], n));
                let j = choose|j: int| 0 <= j < emit[0].len() && (#[trigger] emit[0][j]).name == n;
                assert(first[j] == n);
            }
            if first.contains(n) {
                let i = choose|i: int| 0 <= i < first.len() && first[i] == n;
                assert(emit[0][i].name == n);
                assert(has_name(emit[0], n));
                assert(in_every(g, ancestors, n));
                assert(has_name(g[ancestors[k] as int].columns, n));
                assert(has_name(emit[k], n));
                let j = choose|j: int| 0 <= j < emit[k].len() && (#[trigger] emit[k][j]).name == n;
                assert(mine[j] == n);
            }
        }
        assert(mine.to_set() =~= first.to_set());
    }
}

/// The Join or LeftJoin node of `left` and `right` on the predicate `jp`,
/// which must compare two columns by `=` or `IN`. The node shows the
/// columns of `left` followed by those of `right`.
pub open spec fn join_node(
    g: Seq<MirNodeView>,
    version: usize,
    name: Seq<char>,
    jp: ConditionTreeView,
    left: usize,
    right: usize,
    kind: JoinType,
) -> Result<MirNodeView, MirError> {
    if left >= g.len() || right >= g.len() {
        Err(MirError::UnknownView)
    } else if jp.operator != Operator::Equal && jp.operator != Operator::In {
        Err(MirError::Unsupported)
    } else {
        match (*jp.left, *jp.right) {
            (
                ConditionView::Base(ConditionBaseView::Field(l)),
                ConditionView::Base(ConditionBaseView::Field(r)),
            ) => {
                let fields = g[left as int].columns + g[right as int].columns;
                Ok(
                    MirNodeView::fresh(
                        name,
                        version,
                        fields,
                        match kind {
                            JoinType::Inner => MirNodeTypeView::Join {
                                on_left: seq![l],
                                on_right: seq![r],
                                project: fields,
                            },
                            JoinType::Left => MirNodeTypeView::LeftJoin {
                                on_left: seq![l],
                                on_right: seq![r],
                                project: fields,
                            },
                        },
                        seq![left, right],
                    ),
                )
            },
            _ => Err(MirError::Unsupported),
        }
    }
}

/// Whether one of `cols` is named `name`.
pub fn has_column_named(cols: &Vec<Column>, name: &String) -> (r: bool)
    ensures
        r == has_name(cols.deep_view(), name@),
{
    let mut i: usize = 0;
    while i < cols.len()
        invariant
            i <= cols.len(),
            forall|k: int| 0 <= k < i ==> (#[trigger] cols.deep_view()[k]).name != name@,
        decreases cols.len() - i,
    {
        if cols[i].name == *name {
            assert(cols.deep_view()[i as int].name == name@);
            return true;
        }
        i += 1;
    }
    false
}

/// The columns of `a` followed by those of `b`.
pub fn concat_columns(a: &Vec<Column>, b: &Vec<Column>) -> (r: Vec<Column>)
    ensures
        r.deep_view() == a.deep_view() + b.deep_view(),
{
    let mut out = clone_columns(a);
    let mut i: usize = 0;
    while i < b.len()
        invariant
            i <= b.len(),
            out.deep_view() == a.deep_view() + b.deep_view().take(i as int),
        decreases b.len() - i,
    {
        let ghost prev = out.deep_view();
        out.push(b[i].clone());
        assert(out.deep_view() =~= prev.push(b[i as int].deep_view()));
        assert(b.deep_view().take(i + 1) =~= b.deep_view().take(i as int).push(b[i as int].deep_view()));
        i += 1;
    }
    assert(b.deep_view().take(b.len() as int) =~= b.deep_view());
    out
}

impl SqlToMirConverter {
    /// Appends a node without an address to the graph. The node is made
    /// at the current schema version.
    pub(crate) fn new_node(
        &mut self,
        name: String,
        columns: Vec<Column>,
        inner: MirNodeType,
        ancestors: Vec<MirNodeRef>,
    ) -> (id: MirNodeRef)
        requires
            old(self)@.wf(),
            MirNodeView::fresh(
                name@,
                old(self)@.schema_version,
                columns.deep_view(),
                inner.deep_view(),
                ancestors@,
            ).refers_below(old(self)@.graph.len() as int),
            MirNodeView::fresh(
                name@,
                old(self)@.schema_version,
                columns.deep_view(),
                inner.deep_view(),
                ancestors@,
            ).well_shaped(),
            !(inner.deep_view() is Reuse),
        ensures
            id == old(self)@.graph.len(),
            final(self)@ == old(self)@.with_graph(
                old(self)@.graph.push(
                    MirNodeView::fresh(
                        name@,
                        old(self)@.schema_version,
                        columns.deep_view(),
                        inner.deep_view(),
                        ancestors@,
                    ),
                ),
            ),
            final(self)@.wf(),
    {
        let node = MirNode {
            name,
            from_version: self.schema_version,
            columns,
            inner,
            ancestors,
            flow_node: None,
        };
        self.graph.add_node(node)
    }

    /// Whether every handle of `refs` is a node of the graph.
    pub fn handles_valid(&self, refs: &Vec<MirNodeRef>) -> (r: bool)
        ensures
            r == refs_valid(self@.graph, refs@),
    {
        let mut i: usize = 0;
        while i < refs.len()
            invariant
                i <= refs.len(),
                forall|k: int| 0 <= k < i ==> #[trigger] refs@[k] < self@.graph.len(),
            decreases refs.len() - i,
        {
            if refs[i] >= self.graph.len() {
                return false;
            }
            i += 1;
        }
        true
    }

    /// A Filter node over `parent` for the comparison `cond`.
    pub fn make_filter_node(&mut self, name: &str, parent: MirNodeRef, cond: &ConditionTree) -> (r:
        Result<MirNodeRef, MirError>)
        requires
            old(self)@.wf(),
        ensures
            final(self)@.wf(),
            one_made(
                old(self)@,
                final(self)@,
                r,
                filter_node(
                    old(self)@.graph,
                    old(self)@.schema_version,
                    name@,
                    parent,
                    cond.deep_view(),
                ),
            ),
    {
        if parent >= self.graph.len() {
            return Err(MirError::UnknownView);
        }
        let mut fields = clone_columns(&self.graph.node(parent).columns);
        let filter = match self.to_conditions(cond, &mut fields, parent) {
            Ok(f) => f,
            Err(e) => {
                return Err(e);
            },
        };
        proof {
            crate::conditions::lemma_conditions_fit(
                self@.graph,
                parent,
                self@.graph[parent as int].columns,
                cond.deep_view(),
            );
        }
        let mut ancestors: Vec<MirNodeRef> = Vec::new();
        ancestors.push(parent);
        assert(ancestors@ =~= seq![parent]);
        Ok(
            self.new_node(
                name.to_owned(),
                fields,
                MirNodeType::Filter { conditions: filter },
                ancestors,
            ),
        )
    }

    /// A Union node over nodes that all have the columns `columns`.
    pub fn make_union_from_same_base(
        &mut self,
        name: &str,
        ancestors: Vec<MirNodeRef>,
        columns: Vec<Column>,
    ) -> (r: Result<MirNodeRef, MirError>)
        requires
            old(self)@.wf(),
        ensures
            final(self)@.wf(),
            one_made(
                old(self)@,
                final(self)@,
                r,
                same_base_union_node(
                    old(self)@.graph,
                    old(self)@.schema_version,
                    name@,
                    ancestors@,
                    columns.deep_view(),
                ),
            ),
    {
        if ancestors.len() < 2 {
            return Err(MirError::InvariantViolation);
        }
        if !self.handles_valid(&ancestors) {
            return Err(MirError::UnknownView);
        }
        let mut emit: Vec<Vec<Column>> = Vec::new();
        let mut i: usize = 0;
        while i < ancestors.len()
            invariant
                i <= ancestors.len(),
                emit.len() == i,
                forall|k: int| 0 <= k < i ==> emit[k].deep_view() == columns.deep_view(),
            decreases ancestors.len() - i,
        {
            emit.push(clone_columns(&columns));
            i += 1;
        }
        assert(emit.deep_view() =~= Seq::new(ancestors@.len(), |k: int| columns.deep_view()));
        Ok(self.new_node(name.to_owned(), columns, MirNodeType::Union { emit }, ancestors))
    }

    /// Whether every one of `ancestors` has a column named `name`.
    pub(crate) fn named_in_every(&self, ancestors: &Vec<MirNodeRef>, name: &String) -> (r: bool)
        requires
            refs_valid(self@.graph, ancestors@),
        ensures
            r == in_every(self@.graph, ancestors@, name@),
    {
        let mut k: usize = 0;
        while k < ancestors.len()
            invariant
                k <= ancestors.len(),
                refs_valid(self@.graph, ancestors@),
                forall|j: int|
                    0 <= j < k ==> has_name(
                        self@.graph[(#[trigger] ancestors@[j]) as int].columns,
                        name@,
                    ),
            decreases ancestors.len() - k,
        {
            assert(ancestors@[k as int] < self@.graph.len());
            if !has_column_named(&self.graph.node(ancestors[k]).columns, name) {
                return false;
            }
            k += 1;
        }
        true
    }

    /// What a union over `ancestors` takes of the columns `cols`.
    pub(crate) fn pick_union_columns(&self, ancestors: &Vec<MirNodeRef>, cols: &Vec<Column>) -> (r: Vec<
        Column,
    >)
        requires
            refs_valid(self@.graph, ancestors@),
        ensures
            r.deep_view() == union_pick(self@.graph, ancestors@, cols.deep_view()),
    {
        let mut acols: Vec<Column> = Vec::new();
        let mut i: usize = 0;
        assert(cols.deep_view().take(0) =~= Seq::empty());
        assert(acols.deep_view() =~= Seq::empty());
        while i < cols.len()
            invariant
                i <= cols.len(),
                refs_valid(self@.graph, ancestors@),
                acols.deep_view() == union_pick(
                    self@.graph,
                    ancestors@,
                    cols.deep_view().take(i as int),
                ),
            decreases cols.len() - i,
        {
            proof {
                let t = cols.deep_view().take(i + 1);
                assert(t.drop_last() =~= cols.deep_view().take(i as int));
                assert(t.last() == cols[i as int].deep_view());
            }
            let ac = &cols[i];
            if self.named_in_every(ancestors, &ac.name) && !has_column_named(&acols, &ac.name) {
                let ghost prev = acols.deep_view();
                acols.push(ac.clone());
                assert(acols.deep_view() =~= prev.push(ac.deep_view()));
            }
            i += 1;
        }
        assert(cols.deep_view().take(cols.len() as int) =~= cols.deep_view());
        acols
    }

    /// A Union node over `ancestors` that emits, of each, the columns
    /// whose names all of them share.
    pub fn make_union_node(&mut self, name: &str, ancestors: &Vec<MirNodeRef>) -> (r: Result<
        MirNodeRef,
        MirError,
    >)
        requires
            old(self)@.wf(),
        ensures
            final(self)@.wf(),
            one_made(
                old(self)@,
                final(self)@,
                r,
                union_node(old(self)@.graph, old(self)@.schema_version, name@, ancestors@),
            ),
    {
        if ancestors.len() < 2 {
            return Err(MirError::InvariantViolation);
        }
        if !self.handles_valid(ancestors) {
            return Err(MirError::UnknownView);
        }
        let ghost g = self@.graph;
        let mut emit: Vec<Vec<Column>> = Vec::new();
        let mut k: usize = 0;
        while k < ancestors.len()
            invariant
                k <= ancestors.len(),
                g == self@.graph,
                refs_valid(g, ancestors@),
                emit.len() == k,
                forall|j: int|
                    0 <= j < k ==> (#[trigger] emit[j]).deep_view() == union_pick(
                        g,
                        ancestors@,
                        g[ancestors@[j] as int].columns,
                    ),
            decreases ancestors.len() - k,
        {
            assert(ancestors@[k as int] < g.len());
            let acols = self.pick_union_columns(ancestors, &self.graph.node(ancestors[k]).columns);
            emit.push(acols);
            k += 1;
        }
        assert(emit.deep_view() =~= union_emit(g, ancestors@));
        proof {
            lemma_union_emit_lengths(g, ancestors@);
        }
        let columns = clone_columns(&emit[0]);
        let refs = ancestors.clone();
        assert(refs@ =~= ancestors@);
        Ok(self.new_node(name.to_owned(), columns, MirNodeType::Union { emit }, refs))
    }

    /// A Join or LeftJoin node of `left_node` and `right_node` on the
    /// predicate `jp`.
    pub fn make_join_node(
        &mut self,
        name: &str,
        jp: &ConditionTree,
        left_node: MirNodeRef,
        right_node: MirNodeRef,
        kind: JoinType,
    ) -> (r: Result<MirNodeRef, MirError>)
        requires
            old(self)@.wf(),
        ensures
            final(self)@.wf(),
            one_made(
                old(self)@,
                final(self)@,
                r,
                join_node(
                    old(self)@.graph,
                    old(self)@.schema_version,
                    name@,
                    jp.deep_view(),
                    left_node,
                    right_node,
                    kind,
                ),
            ),
    {
        if left_node >= self.graph.len() || right_node >= self.graph.len() {
            return Err(MirError::UnknownView);
        }
        let fields = concat_columns(
            &self.graph.node(left_node).columns,
            &self.graph.node(right_node).columns,
        );
        if jp.operator != Operator::Equal && jp.operator != Operator::In {
            return Err(MirError::Unsupported);
        }
        let l_col = match &*jp.left {
            ConditionExpression::Base(ConditionBase::Field(f)) => f.clone(),
            _ => {
                return Err(MirError::Unsupported);
            },
        };
        let r_col = match &*jp.right {
            ConditionExpression::Base(ConditionBase::Field(f)) => f.clone(),
            _ => {
                return Err(MirError::Unsupported);
            },
        };
        let mut left_join_columns: Vec<Column> = Vec::new();
        let mut right_join_columns: Vec<Column> = Vec::new();
        left_join_columns.push(l_col);
        right_join_columns.push(r_col);
        assert(left_join_columns.deep_view() =~= seq![l_col.deep_view()]);
        assert(right_join_columns.deep_view() =~= seq![r_col.deep_view()]);
        let project = clone_columns(&fields);
        let inner = match kind {
            JoinType::Inner => MirNodeType::Join {
                on_left: left_join_columns,
                on_right: right_join_columns,
                project,
            },
            JoinType::Left => MirNodeType::LeftJoin {
                on_left: left_join_columns,
                on_right: right_join_columns,
                project,
            },
        };
        let mut ancestors: Vec<MirNodeRef> = Vec::new();
        ancestors.push(left_node);
        ancestors.push(right_node);
        assert(ancestors@ =~= seq![left_node, right_node]);
        Ok(self.new_node(name.to_owned(), fields, inner, ancestors))
    }
}

} // verus!
