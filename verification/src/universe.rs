//! Universes: the access-control context of a lowering. A universe has an
//! identifier, the groups it belongs to, and the row policies that filter
//! what it may read of a table.
use crate::ast::{ConditionExpression, ConditionView};
use crate::value::{DataType, DataTypeView};
use vstd::prelude::*;

verus! {

/// The identifier of a universe and, for a universe that was made for a
/// group, the identifier of that group.
pub type UniverseId = (DataType, Option<DataType>);

/// A row policy: the predicates that the rows of `table` must meet.
#[derive(Debug, PartialEq, Eq)]
pub struct RowPolicy {
    pub table: String,
    pub predicates: Vec<ConditionExpression>,
}

/// A row policy as a value.
pub ghost struct RowPolicyView {
    pub table: Seq<char>,
    pub predicates: Seq<ConditionView>,
}

impl DeepView for RowPolicy {
    type V = RowPolicyView;

    open spec fn deep_view(&self) -> RowPolicyView {
        RowPolicyView { table: self.table@, predicates: self.predicates.deep_view() }
    }
}

/// A universe.
#[derive(Debug, PartialEq, Eq)]
pub struct Universe {
    pub id: DataType,
    pub from_group: Option<DataType>,
    /// The groups that the universe belongs to: group name and the
    /// identifiers under which it is a member.
    pub member_of: Vec<(String, Vec<DataType>)>,
    /// The row policies, in the order in which they are applied.
    pub row_policies: Vec<RowPolicy>,
}

/// A universe as a value.
pub ghost struct UniverseView {
    pub id: DataTypeView,
    pub from_group: Option<DataTypeView>,
    pub member_of: Seq<(Seq<char>, Seq<DataTypeView>)>,
    pub row_policies: Seq<RowPolicyView>,
}

impl DeepView for Universe {
    type V = UniverseView;

    open spec fn deep_view(&self) -> UniverseView {
        UniverseView {
            id: self.id.deep_view(),
            from_group: self.from_group.deep_view(),
            member_of: self.member_of.deep_view(),
            row_policies: self.row_policies.deep_view(),
        }
    }
}

impl UniverseView {
    /// The universe without groups and without policies.
    pub open spec fn policy_free() -> UniverseView {
        UniverseView {
            id: DataTypeView::Null,
            from_group: None,
            member_of: Seq::empty(),
            row_policies: Seq::empty(),
        }
    }
}

impl Default for Universe {
    fn default() -> (r: Universe)
        ensures
            r.deep_view() == UniverseView::policy_free(),
    {
        let r = Universe {
            id: DataType::Null,
            from_group: None,
            member_of: Vec::new(),
            row_policies: Vec::new(),
        };
        assert(r.member_of.deep_view() =~= Seq::empty());
        assert(r.row_policies.deep_view() =~= Seq::empty());
        r
    }
}

/// The identifier of the universe that every query belongs to unless
/// another is named.
pub open spec fn global_id() -> DataTypeView {
    DataTypeView::Text("global"@)
}

/// What names of nodes carry behind the signature hash for a universe:
/// nothing for the global universe, else `_u` and the identifier.
pub open spec fn universe_suffix(uid: DataTypeView) -> Seq<char> {
    if uid == global_id() {
        Seq::empty()
    } else {
        "_u"@ + uid.rendered()
    }
}

/// What names of nodes carry behind the signature hash for a universe.
pub fn universe_suffix_string(uid: &DataType) -> (r: String)
    ensures
        r@ == universe_suffix(uid.deep_view()),
{
    let global = DataType::Text("global".to_owned());
    if uid.same_as(&global) {
        String::new()
    } else {
        let rendered = uid.render();
        crate::text::joined("_u", rendered.as_str())
    }
}

} // verus!
