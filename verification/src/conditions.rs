//! From a comparison of the syntax tree to the conditions of a filter: one
//! optional condition per column of the node that the filter reads.
use crate::ast::{
    Column, ColumnView, ConditionBase, ConditionBaseView, ConditionExpression, ConditionTree,
    ConditionTreeView, ConditionView, Literal, LiteralView,
};
use crate::converter::SqlToMirConverter;
use crate::graph::column_ids;
use crate::node::{MirNodeRef, MirNodeView};
use crate::value::{DataType, DataTypeView, FilterCondition, FilterConditionView, MirError};
use vstd::prelude::*;

verus! {

/// The column and the condition of a comparison. The left side must be a
/// column. The right side is an integer or a string, which gives a
/// comparison by the tree's operator, or a list of literals, which gives a
/// membership test. Every other shape is refused.
pub open spec fn comparison_parts(ct: ConditionTreeView) -> Result<
    (ColumnView, FilterConditionView),
    MirError,
> {
    match *ct.left {
        ConditionView::Base(ConditionBaseView::Field(f)) => match *ct.right {
            ConditionView::Base(ConditionBaseView::Literal(LiteralView::Integer(i))) => Ok(
                (f, FilterConditionView::Equality(ct.operator, DataTypeView::BigInt(i))),
            ),
            ConditionView::Base(ConditionBaseView::Literal(LiteralView::String(s))) => Ok(
                (f, FilterConditionView::Equality(ct.operator, DataTypeView::Text(s))),
            ),
            ConditionView::Base(ConditionBaseView::LiteralList(ll)) => match DataTypeView::of_literals(
                ll,
            ) {
                Some(vs) => Ok((f, FilterConditionView::In(vs))),
                None => Err(MirError::Unsupported),
            },
            _ => Err(MirError::Unsupported),
        },
        _ => Err(MirError::Unsupported),
    }
}

/// The number of condition slots: at least `n`, and enough to hold every
/// position of `ids`.
pub open spec fn slot_count(ids: Seq<usize>, n: int) -> int
    decreases ids.len(),
{
    if ids.len() == 0 {
        n
    } else {
        let w = slot_count(ids.drop_last(), n);
        if ids.last() + 1 > w {
            ids.last() + 1
        } else {
            w
        }
    }
}

/// Position of the last of `cols` that is named `name`.
pub open spec fn last_named(cols: Seq<ColumnView>, name: Seq<char>) -> Option<int>
    decreases cols.len(),
{
    if cols.len() == 0 {
        None
    } else if cols.last().name == name {
        Some(cols.len() - 1)
    } else {
        last_named(cols.drop_last(), name)
    }
}

/// The slots of a filter, all empty.
pub open spec fn empty_slots(n: int) -> Seq<Option<FilterConditionView>> {
    Seq::new(n as nat, |i: int| None::<FilterConditionView>)
}

/// The conditions of a filter over node `n` for the comparison `ct`, and
/// the columns of the filter. `columns` are the columns of `n`. The
/// condition goes to the position that `n` gives to the last of `columns`
/// that has the name of the compared column. If none has it, the column
/// is appended to the columns and the condition to the slots.
pub open spec fn conditions_for(
    g: Seq<MirNodeView>,
    n: usize,
    columns: Seq<ColumnView>,
    ct: ConditionTreeView,
) -> Result<(Seq<ColumnView>, Seq<Option<FilterConditionView>>), MirError> {
    match comparison_parts(ct) {
        Err(e) => Err(e),
        Ok((l, f)) => match column_ids(g, n, columns) {
            None => Err(MirError::UnknownColumn),
            Some(ids) => {
                let blank = empty_slots(slot_count(ids, columns.len() as int));
                match last_named(columns, l.name) {
                    None => Ok((columns.push(l), blank.push(Some(f)))),
                    Some(pos) => Ok((columns, blank.update(ids[pos] as int, Some(f)))),
                }
            },
        },
    }
}

/// Every position fits a slot.
pub proof fn lemma_slot_count_covers(ids: Seq<usize>, n: int, k: int)
    requires
        0 <= k < ids.len(),
    ensures
        ids[k] < slot_count(ids, n),
        n <= slot_count(ids, n),
    decreases ids.len(),
{
    lemma_slot_count_at_least(ids, n);
    if k < ids.len() - 1 {
        lemma_slot_count_covers(ids.drop_last(), n, k);
    }
}

/// There are at least `n` slots.
pub proof fn lemma_slot_count_at_least(ids: Seq<usize>, n: int)
    ensures
        n <= slot_count(ids, n),
    decreases ids.len(),
{
    if ids.len() > 0 {
        lemma_slot_count_at_least(ids.drop_last(), n);
    }
}

/// Positions below `n` need no more than `n` slots.
pub proof fn lemma_slot_count_exact(ids: Seq<usize>, n: int)
    requires
        forall|k: int| 0 <= k < ids.len() ==> ids[k] < n,
    ensures
        slot_count(ids, n) == n,
    decreases ids.len(),
{
    if ids.len() > 0 {
        assert forall|k: int| 0 <= k < ids.drop_last().len() implies ids.drop_last()[k] < n by {
            assert(ids.drop_last()[k] == ids[k]);
        }
        lemma_slot_count_exact(ids.drop_last(), n);
    }
}

/// A filter has at least as many slots as columns.
pub proof fn lemma_conditions_fit(
    g: Seq<MirNodeView>,
    n: usize,
    columns: Seq<ColumnView>,
    ct: ConditionTreeView,
)
    ensures
        match conditions_for(g, n, columns, ct) {
            Ok((cols, slots)) => slots.len() >= cols.len(),
            Err(_) => true,
        },
{
    match comparison_parts(ct) {
        Err(_) => {},
        Ok((l, f)) => match column_ids(g, n, columns) {
            None => {},
            Some(ids) => {
                lemma_slot_count_at_least(ids, columns.len() as int);
                let blank = empty_slots(slot_count(ids, columns.len() as int));
                assert(blank.len() >= columns.len());
                match last_named(columns, l.name) {
                    None => {
                        assert(blank.push(Some(f)).len() == blank.len() + 1);
                    },
                    Some(pos) => {
                        lemma_last_named_bound(columns, l.name);
                        crate::graph::lemma_column_ids_len(g, n, columns);
                        lemma_slot_count_covers(ids, columns.len() as int, pos);
                        assert(blank.update(ids[pos] as int, Some(f)).len() == blank.len());
                    },
                }
            },
        },
    }
}

/// A column that is found by name is found at a position of the list.
pub proof fn lemma_last_named_bound(cols: Seq<ColumnView>, name: Seq<char>)
    ensures
        match last_named(cols, name) {
            Some(p) => 0 <= p < cols.len() && cols[p].name == name,
            None => true,
        },
    decreases cols.len(),
{
    if cols.len() > 0 && cols.last().name != name {
        lemma_last_named_bound(cols.drop_last(), name);
    }
}

/// The column and the condition of a comparison.
pub fn comparison_parts_of(ct: &ConditionTree) -> (r: Result<(Column, FilterCondition), MirError>)
    ensures
        match (r, comparison_parts(ct.deep_view())) {
            (Ok((c, f)), Ok((cv, fv))) => c.deep_view() == cv && f.deep_view() == fv,
            (Err(e), Err(ev)) => e == ev,
            _ => false,
        },
{
    let l = match &*ct.left {
        ConditionExpression::Base(ConditionBase::Field(f)) => f.clone(),
        _ => {
            return Err(MirError::Unsupported);
        },
    };
    match &*ct.right {
        ConditionExpression::Base(ConditionBase::Literal(Literal::Integer(i))) => Ok(
            (l, FilterCondition::Equality(ct.operator, DataType::BigInt(*i))),
        ),
        ConditionExpression::Base(ConditionBase::Literal(Literal::String(s))) => Ok(
            (l, FilterCondition::Equality(ct.operator, DataType::Text(s.clone()))),
        ),
        ConditionExpression::Base(ConditionBase::LiteralList(ll)) => {
            match DataType::from_literals(ll) {
                Some(vs) => Ok((l, FilterCondition::In(vs))),
                None => Err(MirError::Unsupported),
            }
        },
        _ => Err(MirError::Unsupported),
    }
}

/// Position of the last of `cols` that is named `name`.
pub fn last_named_column(cols: &Vec<Column>, name: &String) -> (r: Option<usize>)
    ensures
        match r {
            Some(p) => last_named(cols.deep_view(), name@) == Some(p as int) && p < cols.len(),
            None => last_named(cols.deep_view(), name@) is None,
        },
{
    let mut i = cols.len();
    assert(cols.deep_view().take(i as int) =~= cols.deep_view());
    while i > 0
        invariant
            i <= cols.len(),
            last_named(cols.deep_view(), name@) == last_named(
                cols.deep_view().take(i as int),
                name@,
            ),
        decreases i,
    {
        proof {
            let t = cols.deep_view().take(i as int);
            assert(t.drop_last() =~= cols.deep_view().take(i - 1));
            assert(t.last() == cols[i - 1].deep_view());
        }
        if cols[i - 1].name == *name {
            return Some(i - 1);
        }
        i -= 1;
    }
    None
}

fn slot_count_of(ids: &Vec<usize>, n: usize) -> (r: usize)
    requires
        forall|k: int| 0 <= k < ids.len() ==> ids[k] < usize::MAX,
    ensures
        r == slot_count(ids@, n as int),
{
    let mut w = n;
    let mut i: usize = 0;
    assert(ids@.take(0) =~= Seq::empty());
    while i < ids.len()
        invariant
            i <= ids.len(),
            forall|k: int| 0 <= k < ids.len() ==> ids[k] < usize::MAX,
            w == slot_count(ids@.take(i as int), n as int),
        decreases ids.len() - i,
    {
        proof {
            let t = ids@.take(i + 1);
            assert(t.drop_last() =~= ids@.take(i as int));
            assert(t.last() == ids[i as int]);
        }
        if ids[i] + 1 > w {
            w = ids[i] + 1;
        }
        i += 1;
    }
    assert(ids@.take(ids.len() as int) =~= ids@);
    w
}

fn empty_slots_of(n: usize) -> (r: Vec<Option<FilterCondition>>)
    ensures
        r.deep_view() == empty_slots(n as int),
        r.len() == n,
{
    let mut out: Vec<Option<FilterCondition>> = Vec::new();
    let mut i: usize = 0;
    while i < n
        invariant
            i <= n,
            out.len() == i,
            forall|k: int| 0 <= k < i ==> out[k] is None,
        decreases n - i,
    {
        out.push(None);
        i += 1;
    }
    assert(out.deep_view() =~= empty_slots(n as int));
    out
}

impl SqlToMirConverter {
    /// The conditions of a filter over node `n` for the comparison `ct`.
    /// `columns` holds the columns of `n` and, afterwards, those of the
    /// filter. When the comparison is refused, `columns` is left as it was.
    pub fn to_conditions(
        &self,
        ct: &ConditionTree,
        columns: &mut Vec<Column>,
        n: MirNodeRef,
    ) -> (r: Result<Vec<Option<FilterCondition>>, MirError>)
        ensures
            match conditions_for(self@.graph, n, old(columns).deep_view(), ct.deep_view()) {
                Ok((cols, slots)) => {
                    &&& r is Ok
                    &&& r->Ok_0.deep_view() == slots
                    &&& final(columns).deep_view() == cols
                },
                Err(e) => {
                    &&& r == Err::<Vec<Option<FilterCondition>>, MirError>(e)
                    &&& final(columns).deep_view() == old(columns).deep_view()
                },
            },
    {
        let (l, f) = match comparison_parts_of(ct) {
            Ok(parts) => parts,
            Err(e) => {
                return Err(e);
            },
        };
        let ids = match self.graph.column_ids_for(n, columns) {
            Some(ids) => ids,
            None => {
                return Err(MirError::UnknownColumn);
            },
        };
        let num_columns = slot_count_of(&ids, columns.len());
        let mut filters = empty_slots_of(num_columns);
        let ghost blank = filters.deep_view();
        let ghost before = columns.deep_view();
        match last_named_column(columns, &l.name) {
            None => {
                columns.push(l);
                filters.push(Some(f));
                assert(columns.deep_view() =~= before.push(l.deep_view()));
                assert(filters.deep_view() =~= blank.push(Some(f.deep_view())));
            },
            Some(pos) => {
                proof {
                    crate::graph::lemma_column_ids_len(self@.graph, n, before);
                    lemma_slot_count_covers(ids@, before.len() as int, pos as int);
                }
                let at = ids[pos];
                filters.remove(at);
                filters.insert(at, Some(f));
                assert(filters.deep_view() =~= blank.update(at as int, Some(f.deep_view())));
            },
        }
        Ok(filters)
    }
}

} // verus!
