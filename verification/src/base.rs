//! Base tables. A table that is declared again with the columns of its
//! newest schema is reused; one that is declared with some columns added
//! or removed is adapted from the node of its newest schema; any other
//! declaration gives a new Base node.
use crate::ast::{
    specs_contain, contains_spec, same_schema, schemas_same, Column, ColumnSpecView,
    ColumnSpecification, ColumnView, SqlQuery, TableKey, TableKeyView,
};
use crate::converter::{
    assoc_get, assoc_put, find_name, lemma_assoc_index_sound, ConverterView, SchemaHistory,
    SqlToMirConverter,
};
use crate::graph::{clone_columns, reuse_of};
use crate::node::{
    declared_columns, AdaptationView, BaseNodeAdaptation, MirNodeRef, MirNodeType,
    MirNodeTypeView, MirNodeView,
};
use crate::query::{MirQuery, MirQueryView};
use crate::value::MirError;
use vstd::prelude::*;

verus! {

/// Position of the newest schema of a history: that of the greatest
/// version, the last one among equal versions; -1 for an empty history.
pub open spec fn newest_schema(h: Seq<(usize, Seq<ColumnSpecView>)>) -> int
    decreases h.len(),
{
    if h.len() == 0 {
        -1
    } else {
        let r = newest_schema(h.drop_last());
        if r < 0 || h.last().0 >= h[r].0 {
            h.len() - 1
        } else {
            r
        }
    }
}

/// The newest schema lies in the history.
pub proof fn lemma_newest_schema_bound(h: Seq<(usize, Seq<ColumnSpecView>)>)
    ensures
        -1 <= newest_schema(h) < h.len(),
        h.len() > 0 ==> 0 <= newest_schema(h),
    decreases h.len(),
{
    if h.len() > 0 {
        lemma_newest_schema_bound(h.drop_last());
    }
}

/// The declarations of `cols` that `schema` does not hold, in the order
/// of `cols`.
pub open spec fn missing_from(cols: Seq<ColumnSpecView>, schema: Seq<ColumnSpecView>) -> Seq<
    ColumnSpecView,
>
    decreases cols.len(),
{
    if cols.len() == 0 {
        Seq::empty()
    } else if specs_contain(schema, cols.last()) {
        missing_from(cols.drop_last(), schema)
    } else {
        missing_from(cols.drop_last(), schema).push(cols.last())
    }
}

/// No more declarations are missing than there are.
pub proof fn lemma_missing_from_len(cols: Seq<ColumnSpecView>, schema: Seq<ColumnSpecView>)
    ensures
        missing_from(cols, schema).len() <= cols.len(),
    decreases cols.len(),
{
    if cols.len() > 0 {
        lemma_missing_from_len(cols.drop_last(), schema);
    }
}

/// Position of the first declaration of `specs` that is the same as `c`.
pub open spec fn first_same(specs: Seq<ColumnSpecView>, c: ColumnSpecView) -> Option<int>
    decreases specs.len(),
{
    if specs.len() == 0 {
        None
    } else {
        match first_same(specs.drop_last(), c) {
            Some(p) => Some(p),
            None => if specs.last().same(c) {
                Some(specs.len() - 1)
            } else {
                None
            },
        }
    }
}

/// What a prefix of `specs` finds, `specs` finds; and it lies in the
/// prefix.
pub proof fn lemma_first_same_found(specs: Seq<ColumnSpecView>, c: ColumnSpecView, k: int)
    requires
        0 <= k <= specs.len(),
        first_same(specs.take(k), c) is Some,
    ensures
        first_same(specs, c) == first_same(specs.take(k), c),
    decreases specs.len() - k,
{
    if k < specs.len() {
        assert(specs.take(k + 1).drop_last() =~= specs.take(k));
        lemma_first_same_found(specs, c, k + 1);
    } else {
        assert(specs.take(k) =~= specs);
    }
}

/// `specs` without the first occurrence of each of `removed` from position
/// `k` on. A declaration that is to be removed must be there.
pub open spec fn remove_each(specs: Seq<ColumnSpecView>, removed: Seq<ColumnSpecView>, k: int) -> Option<
    Seq<ColumnSpecView>,
>
    decreases removed.len() - k,
{
    if k < 0 || k >= removed.len() {
        Some(specs)
    } else {
        match first_same(specs, removed[k]) {
            None => None,
            Some(p) => remove_each(specs.remove(p), removed, k + 1),
        }
    }
}

/// A declaration that is found is found at a position of the list.
pub proof fn lemma_first_same_bound(specs: Seq<ColumnSpecView>, c: ColumnSpecView)
    ensures
        match first_same(specs, c) {
            Some(p) => 0 <= p < specs.len() && specs[p].same(c),
            None => true,
        },
    decreases specs.len(),
{
    if specs.len() > 0 {
        lemma_first_same_bound(specs.drop_last(), c);
        match first_same(specs.drop_last(), c) {
            Some(p) => {
                assert(specs.drop_last()[p] == specs[p]);
            },
            None => {},
        }
    }
}

/// Each declaration that is removed makes the schema shorter by one.
pub proof fn lemma_remove_each_len(specs: Seq<ColumnSpecView>, removed: Seq<ColumnSpecView>, k: int)
    requires
        0 <= k <= removed.len(),
        remove_each(specs, removed, k) is Some,
    ensures
        remove_each(specs, removed, k)->0.len() == specs.len() - (removed.len() - k),
    decreases removed.len() - k,
{
    if k < removed.len() {
        lemma_first_same_bound(specs, removed[k]);
        let p = first_same(specs, removed[k])->0;
        lemma_remove_each_len(specs.remove(p), removed, k + 1);
    }
}

/// Whether every declared column names `name` as its table.
pub open spec fn tables_match(cols: Seq<ColumnSpecView>, name: Seq<char>) -> bool {
    forall|i: int| 0 <= i < cols.len() ==> (#[trigger] cols[i]).column.table == Some(name)
}

/// The primary keys among the first `n` keys.
pub open spec fn primary_keys_among(keys: Seq<TableKeyView>, n: int) -> Seq<Seq<ColumnView>>
    decreases n,
{
    if n <= 0 {
        Seq::empty()
    } else {
        match keys[n - 1] {
            TableKeyView::PrimaryKey(cols) => primary_keys_among(keys, n - 1).push(cols),
            _ => primary_keys_among(keys, n - 1),
        }
    }
}

/// The key columns of a new base table: those of its primary key, none
/// without one. Keys of other kinds do not count. More than one primary
/// key is refused.
pub open spec fn primary_key_columns(keys: Option<Seq<TableKeyView>>) -> Result<
    Seq<ColumnView>,
    MirError,
> {
    match keys {
        None => Ok(Seq::empty()),
        Some(ks) => {
            let pks = primary_keys_among(ks, ks.len() as int);
            if pks.len() > 1 {
                Err(MirError::InvariantViolation)
            } else if pks.len() == 1 {
                Ok(pks[0])
            } else {
                Ok(Seq::empty())
            }
        },
    }
}

/// The history of `name` with one more schema.
pub open spec fn with_schema(
    base_schemas: Seq<(Seq<char>, Seq<(usize, Seq<ColumnSpecView>)>)>,
    name: Seq<char>,
    version: usize,
    schema: Seq<ColumnSpecView>,
) -> Seq<(Seq<char>, Seq<(usize, Seq<ColumnSpecView>)>)> {
    match assoc_get(base_schemas, name) {
        Some(h) => assoc_put(base_schemas, name, h.push((version, schema))),
        None => assoc_put(base_schemas, name, seq![(version, schema)]),
    }
}

impl ConverterView {
    /// The state after a new Base node for the table `name` was made: the
    /// node is appended and the schema remembered. Every column must name
    /// the table as its own.
    pub open spec fn fresh_base(
        self,
        name: Seq<char>,
        cols: Seq<ColumnSpecView>,
        keys: Option<Seq<TableKeyView>>,
        transactional: bool,
    ) -> Result<ConverterView, MirError> {
        if !tables_match(cols, name) {
            Err(MirError::InvariantViolation)
        } else {
            match primary_key_columns(keys) {
                Err(e) => Err(e),
                Ok(pk) => Ok(
                    ConverterView {
                        graph: self.graph.push(
                            MirNodeView::fresh(
                                name,
                                self.schema_version,
                                declared_columns(cols),
                                MirNodeTypeView::Base {
                                    column_specs: cols,
                                    keys: pk,
                                    transactional,
                                    adapted_over: None,
                                },
                                Seq::empty(),
                            ),
                        ),
                        base_schemas: with_schema(
                            self.base_schemas,
                            name,
                            self.schema_version,
                            cols,
                        ),
                        ..self
                    },
                ),
            }
        }
    }

    /// The state after the table `name` was adapted from the node
    /// `existing` of its newest schema: the new Base node holds the columns
    /// of `existing` and then `added`, without `removed`, and keeps the
    /// keys of `existing`.
    pub open spec fn adapted_base(
        self,
        name: Seq<char>,
        existing: usize,
        added: Seq<ColumnSpecView>,
        removed: Seq<ColumnSpecView>,
    ) -> Result<ConverterView, MirError> {
        match self.graph[existing as int].inner {
            MirNodeTypeView::Base { column_specs, keys, transactional, .. } => {
                match remove_each(column_specs + added, removed, 0) {
                    None => Err(MirError::InvariantViolation),
                    Some(columns) => Ok(
                        ConverterView {
                            graph: self.graph.push(
                                MirNodeView::fresh(
                                    self.graph[existing as int].name,
                                    self.schema_version,
                                    declared_columns(columns),
                                    MirNodeTypeView::Base {
                                        column_specs: columns,
                                        keys,
                                        transactional,
                                        adapted_over: Some(
                                            AdaptationView {
                                                over: existing,
                                                columns_added: added,
                                                columns_removed: removed,
                                            },
                                        ),
                                    },
                                    Seq::empty(),
                                ),
                            ),
                            base_schemas: with_schema(
                                self.base_schemas,
                                name,
                                self.schema_version,
                                columns,
                            ),
                            ..self
                        },
                    ),
                }
            },
            _ => Err(MirError::InvariantViolation),
        }
    }

    /// The state after the base table `name` was declared with the columns
    /// `cols`; the node for it is the last of the graph.
    ///
    /// Where the table has a history, its newest schema decides. If that
    /// schema has the same declarations in the same order, the node
    /// registered for it is reused. If some declaration is in both and some
    /// declaration is in one of them only, the table is adapted from that
    /// node. Else, and without a history, a new Base node is made.
    pub open spec fn make_base(
        self,
        name: Seq<char>,
        cols: Seq<ColumnSpecView>,
        keys: Option<Seq<TableKeyView>>,
        transactional: bool,
    ) -> Result<ConverterView, MirError> {
        match assoc_get(self.base_schemas, name) {
            None => self.fresh_base(name, cols, keys, transactional),
            Some(h) => {
                if h.len() == 0 {
                    self.fresh_base(name, cols, keys, transactional)
                } else {
                    let (sv, schema) = h[newest_schema(h)];
                    let added = missing_from(cols, schema);
                    let removed = missing_from(schema, cols);
                    if schemas_same(schema, cols) {
                        match self.registered(name, sv) {
                            None => Err(MirError::UnknownView),
                            Some(existing) => Ok(
                                self.with_graph(
                                    self.graph.push(
                                        reuse_of(self.graph, existing, self.schema_version),
                                    ),
                                ),
                            ),
                        }
                    } else if added.len() < cols.len() && (added.len() > 0 || removed.len() > 0) {
                        match self.registered(name, sv) {
                            None => Err(MirError::UnknownView),
                            Some(existing) => self.adapted_base(name, existing, added, removed),
                        }
                    } else {
                        self.fresh_base(name, cols, keys, transactional)
                    }
                }
            },
        }
    }

    /// The state after `node` was registered under `name` at the current
    /// schema version and that version made the latest of the name, unless
    /// the name was registered there before, which changes nothing.
    pub open spec fn register_absent(self, name: Seq<char>, node: usize) -> ConverterView {
        match self.registered(name, self.schema_version) {
            Some(_) => self,
            None => self.register(name, node),
        }
    }

    /// The state and the query after `named_base_to_mir`: the statement
    /// must be a CREATE TABLE for the table `name`.
    pub open spec fn named_base(self, name: Seq<char>, query: SqlQuery, transactional: bool) -> Result<
        (ConverterView, MirQueryView),
        MirError,
    > {
        match query {
            SqlQuery::CreateTable(ctq) => {
                if ctq.table.name@ != name {
                    Err(MirError::InvariantViolation)
                } else {
                    match self.make_base(
                        name,
                        ctq.fields.deep_view(),
                        ctq.keys.deep_view(),
                        transactional,
                    ) {
                        Err(e) => Err(e),
                        Ok(c) => Ok(
                            (
                                c.register_absent(name, self.graph.len() as usize),
                                MirQueryView::singleton(name, self.graph.len() as usize),
                            ),
                        ),
                    }
                }
            },
            _ => Err(MirError::Unsupported),
        }
    }
}

/// A copy of a schema.
pub fn clone_specs(v: &Vec<ColumnSpecification>) -> (r: Vec<ColumnSpecification>)
    ensures
        r.deep_view() == v.deep_view(),
{
    let r = v.clone();
    assert(r.deep_view() =~= v.deep_view());
    r
}

/// The columns that a schema declares.
pub fn columns_of(specs: &Vec<ColumnSpecification>) -> (r: Vec<Column>)
    ensures
        r.deep_view() == declared_columns(specs.deep_view()),
{
    let mut out: Vec<Column> = Vec::new();
    let mut i: usize = 0;
    while i < specs.len()
        invariant
            i <= specs.len(),
            out.len() == i,
            forall|k: int| 0 <= k < i ==> out[k].deep_view() == specs[k].column.deep_view(),
        decreases specs.len() - i,
    {
        out.push(specs[i].column.clone());
        i += 1;
    }
    assert(out.deep_view() =~= declared_columns(specs.deep_view()));
    out
}

/// Position of the newest schema of a history that is not empty.
pub(crate) fn newest_schema_of(h: &SchemaHistory) -> (r: usize)
    requires
        h.len() > 0,
    ensures
        r == newest_schema(h.deep_view()),
        r < h.len(),
{
    let ghost hv = h.deep_view();
    let mut best: usize = 0;
    let mut i: usize = 1;
    assert(hv.take(1).drop_last() =~= Seq::empty());
    assert(newest_schema(hv.take(1).drop_last()) == -1);
    while i < h.len()
        invariant
            1 <= i <= h.len(),
            hv == h.deep_view(),
            best < i,
            best == newest_schema(hv.take(i as int)),
        decreases h.len() - i,
    {
        proof {
            let t = hv.take(i + 1);
            assert(t.drop_last() =~= hv.take(i as int));
            assert(t.last() == hv[i as int]);
            assert(t[best as int] == hv[best as int]);
            assert(hv[i as int].0 == h[i as int].0);
            assert(hv[best as int].0 == h[best as int].0);
        }
        if h[i].0 >= h[best].0 {
            best = i;
        }
        i += 1;
    }
    assert(hv.take(h.len() as int) =~= hv);
    best
}

/// The declarations of `cols` that `schema` does not hold.
pub fn specs_missing_from(cols: &Vec<ColumnSpecification>, schema: &Vec<ColumnSpecification>) -> (r:
    Vec<ColumnSpecification>)
    ensures
        r.deep_view() == missing_from(cols.deep_view(), schema.deep_view()),
{
    let mut out: Vec<ColumnSpecification> = Vec::new();
    let mut i: usize = 0;
    assert(cols.deep_view().take(0) =~= Seq::empty());
    assert(out.deep_view() =~= Seq::empty());
    while i < cols.len()
        invariant
            i <= cols.len(),
            out.deep_view() == missing_from(cols.deep_view().take(i as int), schema.deep_view()),
        decreases cols.len() - i,
    {
        proof {
            let t = cols.deep_view().take(i + 1);
            assert(t.drop_last() =~= cols.deep_view().take(i as int));
            assert(t.last() == cols[i as int].deep_view());
        }
        if !contains_spec(schema, &cols[i]) {
            let ghost prev = out.deep_view();
            out.push(cols[i].clone());
            assert(out.deep_view() =~= prev.push(cols[i as int].deep_view()));
        }
        i += 1;
    }
    assert(cols.deep_view().take(cols.len() as int) =~= cols.deep_view());
    out
}

/// Position of the first declaration of `specs` that is the same as `c`.
pub fn first_same_spec(specs: &Vec<ColumnSpecification>, c: &ColumnSpecification) -> (r: Option<
    usize,
>)
    ensures
        match r {
            Some(p) => first_same(specs.deep_view(), c.deep_view()) == Some(p as int) && p
                < specs.len(),
            None => first_same(specs.deep_view(), c.deep_view()) is None,
        },
{
    let ghost sv = specs.deep_view();
    let mut i: usize = 0;
    assert(sv.take(0) =~= Seq::empty());
    while i < specs.len()
        invariant
            i <= specs.len(),
            sv == specs.deep_view(),
            first_same(sv.take(i as int), c.deep_view()) is None,
        decreases specs.len() - i,
    {
        proof {
            let t = sv.take(i + 1);
            assert(t.drop_last() =~= sv.take(i as int));
            assert(t.last() == specs[i as int].deep_view());
        }
        if specs[i].same_as(c) {
            proof {
                lemma_first_same_found(sv, c.deep_view(), i + 1);
            }
            return Some(i);
        }
        i += 1;
    }
    assert(sv.take(sv.len() as int) =~= sv);
    None
}

/// `specs` without the first occurrence of each of `removed`, if all of
/// them are there.
pub fn remove_specs(specs: Vec<ColumnSpecification>, removed: &Vec<ColumnSpecification>) -> (r:
    Option<Vec<ColumnSpecification>>)
    ensures
        r.deep_view() == remove_each(specs.deep_view(), removed.deep_view(), 0),
{
    let mut columns = specs;
    let mut k: usize = 0;
    while k < removed.len()
        invariant
            k <= removed.len(),
            remove_each(specs.deep_view(), removed.deep_view(), 0) == remove_each(
                columns.deep_view(),
                removed.deep_view(),
                k as int,
            ),
        decreases removed.len() - k,
    {
        assert(removed.deep_view()[k as int] == removed[k as int].deep_view());
        match first_same_spec(&columns, &removed[k]) {
            None => {
                return None;
            },
            Some(p) => {
                let ghost before = columns.deep_view();
                columns.remove(p);
                assert(columns.deep_view() =~= before.remove(p as int));
            },
        }
        k += 1;
    }
    Some(columns)
}

/// Whether every declared column names `name` as its table.
pub fn all_of_table(cols: &Vec<ColumnSpecification>, name: &str) -> (r: bool)
    ensures
        r == tables_match(cols.deep_view(), name@),
{
    let owned = name.to_owned();
    let mut i: usize = 0;
    while i < cols.len()
        invariant
            i <= cols.len(),
            owned@ == name@,
            forall|k: int|
                0 <= k < i ==> (#[trigger] cols.deep_view()[k]).column.table == Some(name@),
        decreases cols.len() - i,
    {
        let matches = match &cols[i].column.table {
            Some(t) => *t == owned,
            None => false,
        };
        if !matches {
            assert(cols.deep_view()[i as int].column.table != Some(name@));
            return false;
        }
        i += 1;
    }
    true
}

/// The key columns of a new base table.
pub fn primary_key_of(keys: Option<&Vec<TableKey>>) -> (r: Result<Vec<Column>, MirError>)
    ensures
        match primary_key_columns(keys.deep_view()) {
            Ok(pk) => r is Ok && r->Ok_0.deep_view() == pk,
            Err(e) => r == Err::<Vec<Column>, MirError>(e),
        },
{
    match keys {
        None => {
            let out: Vec<Column> = Vec::new();
            assert(out.deep_view() =~= Seq::empty());
            Ok(out)
        },
        Some(ks) => {
            let ghost kv = ks.deep_view();
            let mut found: Option<Vec<Column>> = None;
            let mut count: usize = 0;
            let mut i: usize = 0;
            while i < ks.len()
                invariant
                    i <= ks.len(),
                    kv == ks.deep_view(),
                    count <= i,
                    count == primary_keys_among(kv, i as int).len(),
                    count == 0 ==> found is None,
                    count >= 1 ==> found is Some && found->0.deep_view() == primary_keys_among(
                        kv,
                        i as int,
                    )[0],
                decreases ks.len() - i,
            {
                assert(kv[i as int] == ks[i as int].deep_view());
                match &ks[i] {
                    TableKey::PrimaryKey(key_cols) => {
                        if count == 0 {
                            found = Some(clone_columns(key_cols));
                        }
                        count += 1;
                    },
                    _ => {},
                }
                i += 1;
            }
            if count > 1 {
                Err(MirError::InvariantViolation)
            } else {
                match found {
                    Some(pk) => Ok(pk),
                    None => {
                        let out: Vec<Column> = Vec::new();
                        assert(out.deep_view() =~= Seq::empty());
                        Ok(out)
                    },
                }
            }
        },
    }
}

impl SqlToMirConverter {
    /// Remembers one more schema of the table `name`.
    fn remember_schema(&mut self, name: &str, schema: Vec<ColumnSpecification>)
        ensures
            final(self)@ == (ConverterView {
                base_schemas: with_schema(
                    old(self)@.base_schemas,
                    name@,
                    old(self)@.schema_version,
                    schema.deep_view(),
                ),
                ..old(self)@
            }),
    {
        let ghost pre = self@;
        proof {
            lemma_assoc_index_sound(pre.base_schemas, name@);
        }
        match find_name(&self.base_schemas, name) {
            Some(i) => {
                let mut entry = self.base_schemas.remove(i);
                let ghost h = entry.1.deep_view();
                entry.1.push((self.schema_version, schema));
                assert(entry.1.deep_view() =~= h.push((pre.schema_version, schema.deep_view())));
                let ghost e = entry.deep_view();
                self.base_schemas.insert(i, entry);
                assert(self.base_schemas.deep_view() =~= pre.base_schemas.update(i as int, e));
                assert(e.0 == name@);
            },
            None => {
                let mut h: SchemaHistory = Vec::new();
                h.push((self.schema_version, schema));
                assert(h.deep_view() =~= seq![(pre.schema_version, schema.deep_view())]);
                self.base_schemas.push((name.to_owned(), h));
                assert(self.base_schemas.deep_view() =~= pre.base_schemas.push(
                    (name@, seq![(pre.schema_version, schema.deep_view())]),
                ));
            },
        }
    }

    /// A new Base node for the table `name`.
    fn make_fresh_base(
        &mut self,
        name: &str,
        cols: &Vec<ColumnSpecification>,
        keys: Option<&Vec<TableKey>>,
        transactional: bool,
    ) -> (r: Result<MirNodeRef, MirError>)
        requires
            old(self)@.wf(),
        ensures
            final(self)@.wf(),
            match old(self)@.fresh_base(name@, cols.deep_view(), keys.deep_view(), transactional) {
                Ok(c) => r is Ok && r->Ok_0 == old(self)@.graph.len() && final(self)@ == c,
                Err(e) => r == Err::<MirNodeRef, MirError>(e) && final(self)@ == old(self)@,
            },
            r is Ok ==> final(self)@.graph.len() == old(self)@.graph.len() + 1,
    {
        if !all_of_table(cols, name) {
            return Err(MirError::InvariantViolation);
        }
        let pk = match primary_key_of(keys) {
            Ok(pk) => pk,
            Err(e) => {
                return Err(e);
            },
        };
        self.remember_schema(name, clone_specs(cols));
        let ancestors: Vec<MirNodeRef> = Vec::new();
        assert(ancestors@ =~= Seq::<usize>::empty());
        Ok(
            self.new_node(
                name.to_owned(),
                columns_of(cols),
                MirNodeType::Base {
                    column_specs: clone_specs(cols),
                    keys: pk,
                    transactional,
                    adapted_over: None,
                },
                ancestors,
            ),
        )
    }

    /// A Base node for the table `name` that is adapted from the node
    /// `existing`.
    fn make_adapted_base(
        &mut self,
        name: &str,
        existing: MirNodeRef,
        added: Vec<ColumnSpecification>,
        removed: Vec<ColumnSpecification>,
    ) -> (r: Result<MirNodeRef, MirError>)
        requires
            old(self)@.wf(),
            existing < old(self)@.graph.len(),
        ensures
            final(self)@.wf(),
            match old(self)@.adapted_base(name@, existing, added.deep_view(), removed.deep_view()) {
                Ok(c) => r is Ok && r->Ok_0 == old(self)@.graph.len() && final(self)@ == c,
                Err(e) => r == Err::<MirNodeRef, MirError>(e) && final(self)@ == old(self)@,
            },
            r is Ok ==> final(self)@.graph.len() == old(self)@.graph.len() + 1,
    {
        let node = self.graph.node(existing);
        match &node.inner {
            MirNodeType::Base { column_specs, keys, transactional, .. } => {
                let mut columns = clone_specs(column_specs);
                let mut i: usize = 0;
                while i < added.len()
                    invariant
                        i <= added.len(),
                        columns.deep_view() == column_specs.deep_view() + added.deep_view().take(
                            i as int,
                        ),
                    decreases added.len() - i,
                {
                    let ghost prev = columns.deep_view();
                    columns.push(added[i].clone());
                    assert(columns.deep_view() =~= prev.push(added[i as int].deep_view()));
                    assert(added.deep_view().take(i + 1) =~= added.deep_view().take(i as int).push(
                        added[i as int].deep_view(),
                    ));
                    i += 1;
                }
                assert(added.deep_view().take(added.len() as int) =~= added.deep_view());
                let columns = match remove_specs(columns, &removed) {
                    Some(c) => c,
                    None => {
                        return Err(MirError::InvariantViolation);
                    },
                };
                let node_name = node.name.clone();
                let keys = clone_columns(keys);
                let transactional = *transactional;
                self.remember_schema(name, clone_specs(&columns));
                let ancestors: Vec<MirNodeRef> = Vec::new();
                assert(ancestors@ =~= Seq::<usize>::empty());
                Ok(
                    self.new_node(
                        node_name,
                        columns_of(&columns),
                        MirNodeType::Base {
                            column_specs: columns,
                            keys,
                            transactional,
                            adapted_over: Some(
                                BaseNodeAdaptation {
                                    over: existing,
                                    columns_added: added,
                                    columns_removed: removed,
                                },
                            ),
                        },
                        ancestors,
                    ),
                )
            },
            _ => Err(MirError::InvariantViolation),
        }
    }

    /// The node for the base table `name` declared with the columns
    /// `cols`: a Reuse node, an adapted Base node or a new Base node.
    pub fn make_base_node(
        &mut self,
        name: &str,
        cols: &Vec<ColumnSpecification>,
        keys: Option<&Vec<TableKey>>,
        transactional: bool,
    ) -> (r: Result<MirNodeRef, MirError>)
        requires
            old(self)@.wf(),
        ensures
            final(self)@.wf(),
            match old(self)@.make_base(name@, cols.deep_view(), keys.deep_view(), transactional) {
                Ok(c) => r is Ok && r->Ok_0 == old(self)@.graph.len() && final(self)@ == c,
                Err(e) => r == Err::<MirNodeRef, MirError>(e) && final(self)@ == old(self)@,
            },
            r is Ok ==> final(self)@.graph.len() == old(self)@.graph.len() + 1,
    {
        let ghost pre = self@;
        proof {
            lemma_assoc_index_sound(pre.base_schemas, name@);
        }
        let found = find_name(&self.base_schemas, name);
        if found.is_none() {
            return self.make_fresh_base(name, cols, keys, transactional);
        }
        let i = found.unwrap();
        let ghost h = pre.base_schemas[i as int].1;
        assert(h == self.base_schemas[i as int].1.deep_view());
        if self.base_schemas[i].1.len() == 0 {
            return self.make_fresh_base(name, cols, keys, transactional);
        }
        let j = newest_schema_of(&self.base_schemas[i].1);
        let existing_sv = self.base_schemas[i].1[j].0;
        assert(h[j as int] == self.base_schemas[i as int].1[j as int].deep_view());
        let exact = same_schema(&self.base_schemas[i].1[j].1, cols);
        let added = specs_missing_from(cols, &self.base_schemas[i].1[j].1);
        let removed = specs_missing_from(&self.base_schemas[i].1[j].1, cols);
        proof {
            lemma_assoc_index_sound(pre.nodes, (name@, existing_sv));
        }
        if exact {
            match self.registered(name, existing_sv) {
                None => Err(MirError::UnknownView),
                Some(existing) => Ok(self.graph.reuse(existing, self.schema_version)),
            }
        } else if added.len() < cols.len() && (added.len() > 0 || removed.len() > 0) {
            match self.registered(name, existing_sv) {
                None => Err(MirError::UnknownView),
                Some(existing) => self.make_adapted_base(name, existing, added, removed),
            }
        } else {
            self.make_fresh_base(name, cols, keys, transactional)
        }
    }

    /// Lowers a CREATE TABLE statement for the table `name` and registers
    /// its node, unless the name is registered at the current schema
    /// version already.
    pub fn named_base_to_mir(&mut self, name: &str, query: &SqlQuery, transactional: bool) -> (r:
        Result<MirQuery, MirError>)
        requires
            old(self)@.wf(),
        ensures
            final(self)@.wf(),
            match old(self)@.named_base(name@, *query, transactional) {
                Ok((c, q)) => r is Ok && r->Ok_0.deep_view() == q && final(self)@ == c,
                Err(e) => r == Err::<MirQuery, MirError>(e) && final(self)@ == old(self)@,
            },
            r is Ok ==> r->Ok_0.deep_view().wf(final(self)@.graph),
    {
        match query {
            SqlQuery::CreateTable(ctq) => {
                if !crate::text::str_same(name, ctq.table.name.as_str()) {
                    return Err(MirError::InvariantViolation);
                }
                let n = match self.make_base_node(
                    name,
                    &ctq.fields,
                    ctq.keys.as_ref(),
                    transactional,
                ) {
                    Ok(n) => n,
                    Err(e) => {
                        return Err(e);
                    },
                };
                proof {
                    lemma_assoc_index_sound(self@.nodes, (name@, self@.schema_version));
                }
                if self.registered(name, self.schema_version).is_none() {
                    self.register_node(name, n);
                }
                let total = self.graph.len();
                proof {
                    crate::laws::lemma_last_has_no_child(self@.graph);
                }
                Ok(MirQuery::singleton(name, n))
            },
            _ => Err(MirError::Unsupported),
        }
    }
}

} // verus!
