//! Values that flow through the operators: the data type of literals and
//! identifiers, the conditions of a filter, and the error of the lowering.
use crate::ast::{Literal, LiteralView, Operator};
use crate::text::{signed_decimal, signed_decimal_string};
use vstd::prelude::*;

verus! {

/// Why a lowering was refused.
#[derive(Clone, Copy, Debug, PartialEq, Eq, Hash, Structural)]
pub enum MirError {
    /// A view or node that the query refers to is not registered.
    UnknownView,
    /// A column was looked up on a node that does not have it.
    UnknownColumn,
    /// The syntax tree has a shape that the lowering does not support.
    Unsupported,
    /// A structural rule of the graph or of the schema history is broken.
    InvariantViolation,
}

/// A value of a row or of an identifier.
#[derive(Debug, PartialEq, Eq)]
pub enum DataType {
    Null,
    Int(i32),
    BigInt(i64),
    Text(String),
}

/// A value of a row or of an identifier, with text as a sequence of
/// characters.
pub ghost enum DataTypeView {
    Null,
    Int(i32),
    BigInt(i64),
    Text(Seq<char>),
}

impl DeepView for DataType {
    type V = DataTypeView;

    open spec fn deep_view(&self) -> DataTypeView {
        match self {
            DataType::Null => DataTypeView::Null,
            DataType::Int(i) => DataTypeView::Int(*i),
            DataType::BigInt(i) => DataTypeView::BigInt(*i),
            DataType::Text(s) => DataTypeView::Text(s@),
        }
    }
}

impl Clone for DataType {
    fn clone(&self) -> (r: DataType)
        ensures
            r.deep_view() == self.deep_view(),
    {
        match self {
            DataType::Null => DataType::Null,
            DataType::Int(i) => DataType::Int(*i),
            DataType::BigInt(i) => DataType::BigInt(*i),
            DataType::Text(s) => DataType::Text(s.clone()),
        }
    }
}

impl DataTypeView {
    /// The value of a literal: NULL is `Null`, an integer is a `BigInt`, a
    /// string is a `Text`. Other literals have no value.
    pub open spec fn of_literal(l: LiteralView) -> Option<DataTypeView> {
        match l {
            LiteralView::Null => Some(DataTypeView::Null),
            LiteralView::Integer(i) => Some(DataTypeView::BigInt(i)),
            LiteralView::String(s) => Some(DataTypeView::Text(s)),
            _ => None,
        }
    }

    /// The values of a literal list, if every literal has one.
    pub open spec fn of_literals(ls: Seq<LiteralView>) -> Option<Seq<DataTypeView>>
        decreases ls.len(),
    {
        if ls.len() == 0 {
            Some(Seq::empty())
        } else {
            match (Self::of_literals(ls.drop_last()), Self::of_literal(ls.last())) {
                (Some(vs), Some(v)) => Some(vs.push(v)),
                _ => None,
            }
        }
    }

    /// How the value is written inside a node name: integers in decimal,
    /// text as it is, `Null` as an asterisk.
    pub open spec fn rendered(self) -> Seq<char> {
        match self {
            DataTypeView::Null => seq!['*'],
            DataTypeView::Int(i) => signed_decimal(i as int),
            DataTypeView::BigInt(i) => signed_decimal(i as int),
            DataTypeView::Text(s) => s,
        }
    }
}

impl DataType {
    /// Structural equality of values.
    pub fn same_as(&self, other: &DataType) -> (r: bool)
        ensures
            r == (self.deep_view() == other.deep_view()),
    {
        match (self, other) {
            (DataType::Null, DataType::Null) => true,
            (DataType::Int(a), DataType::Int(b)) => *a == *b,
            (DataType::BigInt(a), DataType::BigInt(b)) => *a == *b,
            (DataType::Text(a), DataType::Text(b)) => *a == *b,
            _ => false,
        }
    }

    /// The value of a literal, if it has one.
    pub fn from_literal(l: &Literal) -> (r: Option<DataType>)
        ensures
            r.deep_view() == DataTypeView::of_literal(l.deep_view()),
    {
        match l {
            Literal::Null => Some(DataType::Null),
            Literal::Integer(i) => Some(DataType::BigInt(*i)),
            Literal::String(s) => Some(DataType::Text(s.clone())),
            _ => None,
        }
    }

    /// The values of a literal list, if every literal has one.
    pub fn from_literals(ls: &Vec<Literal>) -> (r: Option<Vec<DataType>>)
        ensures
            r.deep_view() == DataTypeView::of_literals(ls.deep_view()),
    {
        let mut out: Vec<DataType> = Vec::new();
        let mut i: usize = 0;
        assert(ls.deep_view().take(0) =~= Seq::empty());
        assert(out.deep_view() =~= Seq::empty());
        while i < ls.len()
            invariant
                i <= ls.len(),
                DataTypeView::of_literals(ls.deep_view().take(i as int)) == Some(out.deep_view()),
            decreases ls.len() - i,
        {
            let ghost prev = out.deep_view();
            proof {
                let t = ls.deep_view().take(i + 1);
                assert(t.drop_last() =~= ls.deep_view().take(i as int));
                assert(t.last() == ls[i as int].deep_view());
            }
            match DataType::from_literal(&ls[i]) {
                Some(v) => {
                    out.push(v);
                    assert(out.deep_view() =~= prev.push(v.deep_view()));
                },
                None => {
                    proof {
                        lemma_of_literals_none(ls.deep_view(), i + 1);
                    }
                    return None;
                },
            }
            i += 1;
        }
        assert(ls.deep_view().take(ls.len() as int) =~= ls.deep_view());
        Some(out)
    }

    /// How the value is written inside a node name.
    pub fn render(&self) -> (r: String)
        ensures
            r@ == self.deep_view().rendered(),
    {
        match self {
            DataType::Null => {
                proof {
                    reveal_strlit("*");
                    assert("*"@ =~= seq!['*']);
                }
                "*".to_owned()
            },
            DataType::Int(i) => signed_decimal_string(*i as i64),
            DataType::BigInt(i) => signed_decimal_string(*i),
            DataType::Text(s) => s.clone(),
        }
    }
}

/// A literal list of which a prefix has no values has none itself.
pub proof fn lemma_of_literals_none(ls: Seq<LiteralView>, k: int)
    requires
        0 <= k <= ls.len(),
        DataTypeView::of_literals(ls.take(k)) is None,
    ensures
        DataTypeView::of_literals(ls) is None,
    decreases ls.len() - k,
{
    if k < ls.len() {
        let t = ls.take(k + 1);
        assert(t.drop_last() =~= ls.take(k));
        lemma_of_literals_none(ls, k + 1);
    } else {
        assert(ls.take(k) =~= ls);
    }
}

/// The test that a filter applies to one column.
#[derive(Debug, PartialEq, Eq)]
pub enum FilterCondition {
    /// The column compared with a value by an operator.
    Equality(Operator, DataType),
    /// The column is one of the values.
    In(Vec<DataType>),
}

/// The test of a filter as a value.
pub ghost enum FilterConditionView {
    Equality(Operator, DataTypeView),
    In(Seq<DataTypeView>),
}

impl DeepView for FilterCondition {
    type V = FilterConditionView;

    open spec fn deep_view(&self) -> FilterConditionView {
        match self {
            FilterCondition::Equality(op, v) => FilterConditionView::Equality(*op, v.deep_view()),
            FilterCondition::In(vs) => FilterConditionView::In(vs.deep_view()),
        }
    }
}

} // verus!
