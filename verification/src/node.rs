//! The operators of the graph: what a node holds for each kind of
//! operator, and the rules that every node of a graph obeys.
use crate::ast::{
    ArithmeticExpression, ArithmeticView, Column, ColumnSpecView, ColumnSpecification, ColumnView,
    OrderType,
};
use crate::value::{DataType, DataTypeView, FilterCondition, FilterConditionView};
use vstd::prelude::*;

verus! {

/// A handle on a node: its position in the graph that created it. Nodes are
/// numbered in the order of their creation.
pub type MirNodeRef = usize;

/// The aggregates that sum up a group.
#[derive(Clone, Copy, Debug, PartialEq, Eq, Hash, Structural)]
pub enum Aggregation {
    COUNT,
    SUM,
}

/// The aggregates that pick one value of a group.
#[derive(Clone, Copy, Debug, PartialEq, Eq, Hash, Structural)]
pub enum Extremum {
    MIN,
    MAX,
}

/// The two kinds of join.
#[derive(Clone, Copy, Debug, PartialEq, Eq, Hash, Structural)]
pub enum JoinType {
    Inner,
    Left,
}

/// The kind of a grouped operator.
#[derive(Debug, PartialEq, Eq)]
pub enum GroupedNodeType {
    Aggregation(Aggregation),
    Extremum(Extremum),
    GroupConcat(String),
}

/// The address that the physical dataflow gave to a node: of a node made
/// for it, or of one that was there before.
#[derive(Clone, Copy, Debug, PartialEq, Eq, Hash, Structural)]
pub enum FlowNode {
    New(usize),
    Existing(usize),
}

impl FlowNode {
    /// The address, whichever way the node came to it.
    pub open spec fn spec_address(self) -> usize {
        match self {
            FlowNode::New(a) => a,
            FlowNode::Existing(a) => a,
        }
    }

    /// The address, whichever way the node came to it.
    #[verifier::when_used_as_spec(spec_address)]
    pub fn address(self) -> (r: usize)
        ensures
            r == self.spec_address(),
    {
        match self {
            FlowNode::New(a) => a,
            FlowNode::Existing(a) => a,
        }
    }
}

impl DeepView for FlowNode {
    type V = FlowNode;

    open spec fn deep_view(&self) -> FlowNode {
        *self
    }
}

/// How a base table was derived from an earlier version of itself.
#[derive(Debug, PartialEq, Eq)]
pub struct BaseNodeAdaptation {
    pub over: MirNodeRef,
    pub columns_added: Vec<ColumnSpecification>,
    pub columns_removed: Vec<ColumnSpecification>,
}

/// The adaptation of a base table as a value.
pub ghost struct AdaptationView {
    pub over: usize,
    pub columns_added: Seq<ColumnSpecView>,
    pub columns_removed: Seq<ColumnSpecView>,
}

impl DeepView for BaseNodeAdaptation {
    type V = AdaptationView;

    open spec fn deep_view(&self) -> AdaptationView {
        AdaptationView {
            over: self.over,
            columns_added: self.columns_added.deep_view(),
            columns_removed: self.columns_removed.deep_view(),
        }
    }
}

/// What a node computes.
#[derive(Debug, PartialEq, Eq)]
#[allow(inconsistent_fields)]
pub enum MirNodeType {
    /// SUM or COUNT of `on`, per group.
    Aggregation { on: Column, group_by: Vec<Column>, kind: Aggregation },
    /// A persistent table.
    Base {
        column_specs: Vec<ColumnSpecification>,
        keys: Vec<Column>,
        transactional: bool,
        adapted_over: Option<BaseNodeAdaptation>,
    },
    /// MIN or MAX of `on`, per group.
    Extremum { on: Column, group_by: Vec<Column>, kind: Extremum },
    /// One optional condition per column of the ancestor.
    Filter { conditions: Vec<Option<FilterCondition>> },
    /// The values of `on` of a group, joined by `separator`.
    GroupConcat { on: Column, separator: String },
    /// Passes its ancestor's rows on unchanged.
    Identity,
    /// Inner join of two ancestors on pairs of columns.
    Join { on_left: Vec<Column>, on_right: Vec<Column>, project: Vec<Column> },
    /// Left outer join of two ancestors on pairs of columns.
    LeftJoin { on_left: Vec<Column>, on_right: Vec<Column>, project: Vec<Column> },
    /// The outward-facing reader of a query, keyed on `keys`.
    Leaf { node: MirNodeRef, keys: Vec<Column> },
    /// Emits columns of the ancestor, literals and arithmetic results.
    Project {
        emit: Vec<Column>,
        arithmetic: Vec<(String, ArithmeticExpression)>,
        literals: Vec<(String, DataType)>,
    },
    /// Stands for a node that was built before.
    Reuse { node: MirNodeRef },
    /// The first `k` rows of each group in the given order.
    TopK {
        order: Option<Vec<(Column, OrderType)>>,
        group_by: Vec<Column>,
        k: u64,
        offset: u64,
    },
    /// The rows of all ancestors; `emit` lists, per ancestor, the columns
    /// taken from it.
    Union { emit: Vec<Vec<Column>> },
}

/// What a node computes, as a value.
#[allow(inconsistent_fields)]
pub ghost enum MirNodeTypeView {
    Aggregation { on: ColumnView, group_by: Seq<ColumnView>, kind: Aggregation },
    Base {
        column_specs: Seq<ColumnSpecView>,
        keys: Seq<ColumnView>,
        transactional: bool,
        adapted_over: Option<AdaptationView>,
    },
    Extremum { on: ColumnView, group_by: Seq<ColumnView>, kind: Extremum },
    Filter { conditions: Seq<Option<FilterConditionView>> },
    GroupConcat { on: ColumnView, separator: Seq<char> },
    Identity,
    Join { on_left: Seq<ColumnView>, on_right: Seq<ColumnView>, project: Seq<ColumnView> },
    LeftJoin { on_left: Seq<ColumnView>, on_right: Seq<ColumnView>, project: Seq<ColumnView> },
    Leaf { node: usize, keys: Seq<ColumnView> },
    Project {
        emit: Seq<ColumnView>,
        arithmetic: Seq<(Seq<char>, ArithmeticView)>,
        literals: Seq<(Seq<char>, DataTypeView)>,
    },
    Reuse { node: usize },
    TopK {
        order: Option<Seq<(ColumnView, OrderType)>>,
        group_by: Seq<ColumnView>,
        k: u64,
        offset: u64,
    },
    Union { emit: Seq<Seq<ColumnView>> },
}

impl DeepView for MirNodeType {
    type V = MirNodeTypeView;

    open spec fn deep_view(&self) -> MirNodeTypeView {
        match self {
            MirNodeType::Aggregation { on, group_by, kind } => MirNodeTypeView::Aggregation {
                on: on.deep_view(),
                group_by: group_by.deep_view(),
                kind: *kind,
            },
            MirNodeType::Base {
                column_specs,
                keys,
                transactional,
                adapted_over,
            } => MirNodeTypeView::Base {
                column_specs: column_specs.deep_view(),
                keys: keys.deep_view(),
                transactional: *transactional,
                adapted_over: adapted_over.deep_view(),
            },
            MirNodeType::Extremum { on, group_by, kind } => MirNodeTypeView::Extremum {
                on: on.deep_view(),
                group_by: group_by.deep_view(),
                kind: *kind,
            },
            MirNodeType::Filter { conditions } => MirNodeTypeView::Filter {
                conditions: conditions.deep_view(),
            },
            MirNodeType::GroupConcat { on, separator } => MirNodeTypeView::GroupConcat {
                on: on.deep_view(),
                separator: separator@,
            },
            MirNodeType::Identity => MirNodeTypeView::Identity,
            MirNodeType::Join { on_left, on_right, project } => MirNodeTypeView::Join {
                on_left: on_left.deep_view(),
                on_right: on_right.deep_view(),
                project: project.deep_view(),
            },
            MirNodeType::LeftJoin { on_left, on_right, project } => MirNodeTypeView::LeftJoin {
                on_left: on_left.deep_view(),
                on_right: on_right.deep_view(),
                project: project.deep_view(),
            },
            MirNodeType::Leaf { node, keys } => MirNodeTypeView::Leaf {
                node: *node,
                keys: keys.deep_view(),
            },
            MirNodeType::Project { emit, arithmetic, literals } => MirNodeTypeView::Project {
                emit: emit.deep_view(),
                arithmetic: arithmetic.deep_view(),
                literals: literals.deep_view(),
            },
            MirNodeType::Reuse { node } => MirNodeTypeView::Reuse { node: *node },
            MirNodeType::TopK { order, group_by, k, offset } => MirNodeTypeView::TopK {
                order: order.deep_view(),
                group_by: group_by.deep_view(),
                k: *k,
                offset: *offset,
            },
            MirNodeType::Union { emit } => MirNodeTypeView::Union { emit: emit.deep_view() },
        }
    }
}

/// A node of the graph.
#[derive(Debug, PartialEq, Eq)]
pub struct MirNode {
    /// The name; a node is registered under its name and a schema version.
    pub name: String,
    /// The schema version in which the node was made.
    pub from_version: usize,
    /// The output columns, in the order that later nodes index them by.
    pub columns: Vec<Column>,
    /// What the node computes.
    pub inner: MirNodeType,
    /// The nodes whose rows it reads, in the order that joins and unions
    /// go by.
    pub ancestors: Vec<MirNodeRef>,
    /// The address in the physical dataflow, once a later pass has set it.
    pub flow_node: Option<FlowNode>,
}

/// A node as a value.
pub ghost struct MirNodeView {
    pub name: Seq<char>,
    pub from_version: usize,
    pub columns: Seq<ColumnView>,
    pub inner: MirNodeTypeView,
    pub ancestors: Seq<usize>,
    pub flow_node: Option<FlowNode>,
}

impl DeepView for MirNode {
    type V = MirNodeView;

    open spec fn deep_view(&self) -> MirNodeView {
        MirNodeView {
            name: self.name@,
            from_version: self.from_version,
            columns: self.columns.deep_view(),
            inner: self.inner.deep_view(),
            ancestors: self.ancestors@,
            flow_node: self.flow_node,
        }
    }
}

/// The columns that a schema declares, in order.
pub open spec fn declared_columns(specs: Seq<ColumnSpecView>) -> Seq<ColumnView> {
    Seq::new(specs.len(), |i: int| specs[i].column)
}

impl MirNodeView {
    /// A node without an address in the physical dataflow.
    pub open spec fn fresh(
        name: Seq<char>,
        from_version: usize,
        columns: Seq<ColumnView>,
        inner: MirNodeTypeView,
        ancestors: Seq<usize>,
    ) -> MirNodeView {
        MirNodeView { name, from_version, columns, inner, ancestors, flow_node: None }
    }

    /// Every node that this one reads or refers to is numbered below
    /// `limit`.
    pub open spec fn refers_below(self, limit: int) -> bool {
        &&& forall|k: int| 0 <= k < self.ancestors.len() ==> #[trigger] self.ancestors[k] < limit
        &&& match self.inner {
            MirNodeTypeView::Leaf { node, .. } => node < limit,
            MirNodeTypeView::Reuse { node } => node < limit,
            MirNodeTypeView::Base { adapted_over: Some(a), .. } => a.over < limit,
            _ => true,
        }
    }

    /// The rules of the node's kind: how many ancestors it reads and how
    /// its payload fits its columns.
    pub open spec fn well_shaped(self) -> bool {
        match self.inner {
            MirNodeTypeView::Base { column_specs, .. } => {
                &&& self.ancestors.len() == 0
                &&& self.columns == declared_columns(column_specs)
            },
            MirNodeTypeView::Reuse { .. } => self.ancestors.len() == 0,
            MirNodeTypeView::Union { emit } => {
                &&& self.ancestors.len() >= 2
                &&& emit.len() == self.ancestors.len()
                &&& forall|k: int|
                    0 <= k < emit.len() ==> (#[trigger] emit[k]).len() == self.columns.len()
            },
            MirNodeTypeView::Join { on_left, on_right, .. } => {
                &&& self.ancestors.len() == 2
                &&& on_left.len() == on_right.len()
            },
            MirNodeTypeView::LeftJoin { on_left, on_right, .. } => {
                &&& self.ancestors.len() == 2
                &&& on_left.len() == on_right.len()
            },
            MirNodeTypeView::TopK { offset, .. } => {
                &&& self.ancestors.len() == 1
                &&& offset == 0
            },
            MirNodeTypeView::Filter { conditions } => {
                &&& self.ancestors.len() == 1
                &&& conditions.len() >= self.columns.len()
            },
            _ => self.ancestors.len() == 1,
        }
    }
}

} // verus!
