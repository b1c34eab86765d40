use sql_to_mir::ast::{
    Column, ColumnSpecification, ConditionBase, ConditionExpression, ConditionTree,
    CreateTableStatement, FunctionExpression, LimitClause, Literal, Operator, OrderClause,
    OrderType, SelectStatement, SqlQuery, SqlType, Table, TableKey,
};
use sql_to_mir::converter::SqlToMirConverter;
use sql_to_mir::node::{Aggregation, JoinType, MirNode, MirNodeRef, MirNodeType};
use sql_to_mir::query_graph::{JoinEdge, OutputColumn, QueryGraph, QueryGraphNode};
use sql_to_mir::universe::UniverseId;
use sql_to_mir::value::{DataType, FilterCondition, MirError};

fn col(name: &str) -> Column {
    Column::new(name, "t")
}

fn col_of(table: &str, name: &str) -> Column {
    Column::new(name, table)
}

fn int_spec(table: &str, name: &str) -> ColumnSpecification {
    ColumnSpecification::new(Column::new(name, table), SqlType::Int(32))
}

fn create_table(table: &str, columns: &[&str], primary: Option<&str>) -> SqlQuery {
    SqlQuery::CreateTable(CreateTableStatement {
        table: Table { name: table.to_string(), alias: None },
        fields: columns.iter().map(|c| int_spec(table, c)).collect(),
        keys: primary.map(|p| vec![TableKey::PrimaryKey(vec![Column::new(p, table)])]),
    })
}

fn global() -> UniverseId {
    (DataType::Text("global".to_string()), None)
}

fn field(c: Column) -> Box<ConditionExpression> {
    Box::new(ConditionExpression::Base(ConditionBase::Field(c)))
}

fn number(i: i64) -> Box<ConditionExpression> {
    Box::new(ConditionExpression::Base(ConditionBase::Literal(Literal::Integer(i))))
}

fn equals(c: Column, i: i64) -> ConditionExpression {
    ConditionExpression::ComparisonOp(ConditionTree {
        operator: Operator::Equal,
        left: field(c),
        right: number(i),
    })
}

fn logical(op: Operator, l: ConditionExpression, r: ConditionExpression) -> ConditionExpression {
    ConditionExpression::LogicalOp(ConditionTree {
        operator: op,
        left: Box::new(l),
        right: Box::new(r),
    })
}

fn relation(name: &str, predicates: Vec<ConditionExpression>, columns: Vec<Column>) -> QueryGraphNode {
    QueryGraphNode { rel_name: name.to_string(), predicates, columns, parameters: vec![] }
}

fn graph_on_t(predicates: Vec<ConditionExpression>) -> QueryGraph {
    QueryGraph {
        relations: vec![relation("t", predicates, vec![col("a")])],
        joins: vec![],
        group_by: vec![],
        columns: vec![OutputColumn::Data(col("a"))],
        signature_hash: 0xabc,
    }
}

fn no_clauses() -> SelectStatement {
    SelectStatement { order: None, limit: None }
}

fn with_table_t() -> SqlToMirConverter {
    let mut c = SqlToMirConverter::new();
    c.named_base_to_mir("t", &create_table("t", &["a", "b"], Some("a")), false).unwrap();
    c
}

fn node(c: &SqlToMirConverter, id: MirNodeRef) -> &MirNode {
    c.node(id).unwrap()
}

fn names(cols: &[Column]) -> Vec<String> {
    cols.iter().map(|c| c.name.clone()).collect()
}

fn tables(cols: &[Column]) -> Vec<Option<String>> {
    cols.iter().map(|c| c.table.clone()).collect()
}

fn reaches(c: &SqlToMirConverter, from: MirNodeRef, to: MirNodeRef) -> bool {
    from == to || node(c, from).ancestors.iter().any(|a| reaches(c, *a, to))
}

#[test]
fn create_table_gives_one_base_node() {
    let mut c = SqlToMirConverter::new();
    let q = c.named_base_to_mir("t", &create_table("t", &["a", "b"], Some("a")), false).unwrap();
    assert_eq!(c.node_count(), 1);
    assert_eq!(q.name, "t");
    assert_eq!(q.roots, vec![0]);
    assert_eq!(q.leaf, 0);
    let n = node(&c, 0);
    assert_eq!(n.name, "t");
    assert_eq!(n.from_version, 0);
    assert_eq!(names(&n.columns), vec!["a", "b"]);
    assert!(n.ancestors.is_empty());
    assert_eq!(n.flow_node, None);
    match &n.inner {
        MirNodeType::Base { column_specs, keys, transactional, adapted_over } => {
            assert_eq!(column_specs, &vec![int_spec("t", "a"), int_spec("t", "b")]);
            assert_eq!(names(keys), vec!["a"]);
            assert!(!*transactional);
            assert!(adapted_over.is_none());
        }
        other => panic!("expected a base node, found {:?}", other),
    }
    assert_eq!(c.registered("t", 0), Some(0));
    assert_eq!(c.current_version("t"), Some(0));
}

#[test]
fn added_column_adapts_the_base() {
    let mut c = with_table_t();
    c.upgrade_schema(2).unwrap();
    let q = c.named_base_to_mir("t", &create_table("t", &["a", "b", "c"], Some("a")), false).unwrap();
    assert_eq!(c.node_count(), 2);
    assert_eq!(q.leaf, 1);
    let n = node(&c, 1);
    assert_eq!(n.name, "t");
    assert_eq!(n.from_version, 2);
    assert_eq!(names(&n.columns), vec!["a", "b", "c"]);
    match &n.inner {
        MirNodeType::Base { column_specs, keys, adapted_over, .. } => {
            assert_eq!(
                column_specs,
                &vec![int_spec("t", "a"), int_spec("t", "b"), int_spec("t", "c")]
            );
            assert_eq!(names(keys), vec!["a"]);
            let adaptation = adapted_over.as_ref().unwrap();
            assert_eq!(adaptation.over, 0);
            assert_eq!(adaptation.columns_added, vec![int_spec("t", "c")]);
            assert!(adaptation.columns_removed.is_empty());
        }
        other => panic!("expected a base node, found {:?}", other),
    }
    assert_eq!(c.registered("t", 2), Some(1));
    assert_eq!(c.current_version("t"), Some(2));
    assert_eq!(c.base_schemas.len(), 1);
    assert_eq!(c.base_schemas[0].1.len(), 2);
    assert_eq!(c.base_schemas[0].1[1].0, 2);
}

#[test]
fn removed_column_adapts_the_base() {
    let mut c = with_table_t();
    c.upgrade_schema(1).unwrap();
    c.named_base_to_mir("t", &create_table("t", &["a"], Some("a")), false).unwrap();
    let n = node(&c, 1);
    assert_eq!(names(&n.columns), vec!["a"]);
    match &n.inner {
        MirNodeType::Base { adapted_over, .. } => {
            let adaptation = adapted_over.as_ref().unwrap();
            assert!(adaptation.columns_added.is_empty());
            assert_eq!(adaptation.columns_removed, vec![int_spec("t", "b")]);
        }
        other => panic!("expected a base node, found {:?}", other),
    }
}

#[test]
fn same_schema_reuses_the_base() {
    let mut c = with_table_t();
    c.upgrade_schema(1).unwrap();
    let q = c.named_base_to_mir("t", &create_table("t", &["a", "b"], Some("a")), false).unwrap();
    assert_eq!(q.leaf, 1);
    let n = node(&c, 1);
    assert_eq!(n.inner, MirNodeType::Reuse { node: 0 });
    assert_eq!(n.name, "t");
    assert_eq!(n.from_version, 1);
    assert_eq!(names(&n.columns), vec!["a", "b"]);
    assert_eq!(c.base_schemas[0].1.len(), 1);
}

#[test]
fn reordered_columns_give_a_new_base() {
    let mut c = with_table_t();
    c.upgrade_schema(1).unwrap();
    c.named_base_to_mir("t", &create_table("t", &["b", "a"], Some("a")), false).unwrap();
    let n = node(&c, 1);
    assert_eq!(names(&n.columns), vec!["b", "a"]);
    match &n.inner {
        MirNodeType::Base { adapted_over, .. } => assert!(adapted_over.is_none()),
        other => panic!("expected a base node, found {:?}", other),
    }
}

#[test]
fn unrelated_columns_give_a_new_base() {
    let mut c = with_table_t();
    c.upgrade_schema(1).unwrap();
    c.named_base_to_mir("t", &create_table("t", &["x", "y"], None), true).unwrap();
    match &node(&c, 1).inner {
        MirNodeType::Base { adapted_over, keys, transactional, .. } => {
            assert!(adapted_over.is_none());
            assert!(keys.is_empty());
            assert!(*transactional);
        }
        other => panic!("expected a base node, found {:?}", other),
    }
}

#[test]
fn select_with_filter_gives_filter_project_leaf() {
    let mut c = with_table_t();
    let qg = graph_on_t(vec![equals(col("b"), 1)]);
    let q = c.named_query_to_mir("q1", &no_clauses(), &qg, true, global()).unwrap();
    assert_eq!(c.node_count(), 5);
    assert_eq!(q.name, "q1");
    assert_eq!(q.roots, vec![1]);
    assert_eq!(q.leaf, 4);

    let base = node(&c, 1);
    assert_eq!(base.inner, MirNodeType::Reuse { node: 0 });
    assert_eq!(base.name, "t");

    let filter = node(&c, 2);
    assert_eq!(filter.name, "q_abc_n0_p0_f0");
    assert_eq!(filter.ancestors, vec![1]);
    assert_eq!(names(&filter.columns), vec!["a", "b"]);
    assert_eq!(
        filter.inner,
        MirNodeType::Filter {
            conditions: vec![
                None,
                Some(FilterCondition::Equality(Operator::Equal, DataType::BigInt(1))),
            ],
        }
    );

    let project = node(&c, 3);
    assert_eq!(project.name, "q_abc_n1");
    assert_eq!(project.ancestors, vec![2]);
    assert_eq!(names(&project.columns), vec!["a", "bogokey"]);
    assert_eq!(
        tables(&project.columns),
        vec![Some("t".to_string()), Some("q_abc_n1".to_string())]
    );
    match &project.inner {
        MirNodeType::Project { emit, arithmetic, literals } => {
            assert_eq!(emit, &vec![col("a")]);
            assert!(arithmetic.is_empty());
            assert_eq!(literals, &vec![("bogokey".to_string(), DataType::Int(0))]);
        }
        other => panic!("expected a projection, found {:?}", other),
    }

    let leaf = node(&c, 4);
    assert_eq!(leaf.name, "q1");
    assert_eq!(leaf.ancestors, vec![3]);
    assert_eq!(names(&leaf.columns), vec!["a", "bogokey"]);
    assert_eq!(tables(&leaf.columns), vec![Some("q1".to_string()), Some("q1".to_string())]);
    match &leaf.inner {
        MirNodeType::Leaf { node, keys } => {
            assert_eq!(*node, 3);
            assert_eq!(keys, &vec![col_of("q_abc_n1", "bogokey")]);
        }
        other => panic!("expected a leaf, found {:?}", other),
    }
    assert_eq!(c.registered("q1", 0), Some(4));
    assert_eq!(c.registered("q_abc_n1", 0), Some(3));
    assert_eq!(c.registered("q_abc_n0_p0_f0", 0), Some(2));
    assert_eq!(c.current_version("q1"), Some(0));
    assert!(c.graph.nodes.iter().all(|n| n.flow_node.is_none()));
}

#[test]
fn disjunction_gives_two_filters_and_a_union() {
    let mut c = with_table_t();
    let qg = graph_on_t(vec![logical(Operator::Or, equals(col("b"), 1), equals(col("b"), 2))]);
    let q = c.named_query_to_mir("q2", &no_clauses(), &qg, true, global()).unwrap();
    assert_eq!(c.node_count(), 7);
    assert_eq!(q.leaf, 6);

    let left = node(&c, 2);
    let right = node(&c, 3);
    assert_eq!(left.name, "q_abc_n0_p0_f0");
    assert_eq!(right.name, "q_abc_n0_p0_f1");
    assert_eq!(left.ancestors, vec![1]);
    assert_eq!(right.ancestors, vec![1]);
    assert_eq!(
        left.inner,
        MirNodeType::Filter {
            conditions: vec![
                None,
                Some(FilterCondition::Equality(Operator::Equal, DataType::BigInt(1))),
            ],
        }
    );
    assert_eq!(
        right.inner,
        MirNodeType::Filter {
            conditions: vec![
                None,
                Some(FilterCondition::Equality(Operator::Equal, DataType::BigInt(2))),
            ],
        }
    );

    let union = node(&c, 4);
    assert_eq!(union.name, "q_abc_n0_p0_un");
    assert_eq!(union.ancestors, vec![2, 3]);
    assert_eq!(names(&union.columns), vec!["a", "b"]);
    match &union.inner {
        MirNodeType::Union { emit } => {
            assert_eq!(emit.len(), 2);
            assert_eq!(names(&emit[0]), vec!["a", "b"]);
            assert_eq!(names(&emit[1]), vec!["a", "b"]);
        }
        other => panic!("expected a union, found {:?}", other),
    }
    assert!(matches!(node(&c, 5).inner, MirNodeType::Project { .. }));
    assert_eq!(node(&c, 5).name, "q_abc_n3");
    assert_eq!(node(&c, 5).ancestors, vec![4]);
    assert!(matches!(node(&c, 6).inner, MirNodeType::Leaf { .. }));
    assert_eq!(node(&c, 6).ancestors, vec![5]);
}

#[test]
fn count_with_group_by_gives_an_aggregation() {
    let mut c = with_table_t();
    let cnt = Column {
        name: "count(b)".to_string(),
        alias: Some("cnt".to_string()),
        table: None,
        function: Some(Box::new(FunctionExpression::Count(col("b"), false))),
    };
    let qg = QueryGraph {
        relations: vec![
            relation("t", vec![], vec![col("a")]),
            relation("computed_columns", vec![], vec![cnt.clone()]),
        ],
        joins: vec![],
        group_by: vec![col("a")],
        columns: vec![OutputColumn::Data(col("a")), OutputColumn::Data(cnt)],
        signature_hash: 0x5,
    };
    let q = c.named_query_to_mir("q3", &no_clauses(), &qg, true, global()).unwrap();
    assert_eq!(c.node_count(), 5);
    assert_eq!(q.roots, vec![1]);
    assert_eq!(q.leaf, 4);

    let agg = node(&c, 2);
    assert_eq!(agg.name, "q_5_n0");
    assert_eq!(agg.ancestors, vec![1]);
    assert_eq!(names(&agg.columns), vec!["a", "cnt"]);
    assert_eq!(agg.columns[1].alias, None);
    match &agg.inner {
        MirNodeType::Aggregation { on, group_by, kind } => {
            assert_eq!(on, &col("b"));
            assert_eq!(group_by, &vec![col("a")]);
            assert_eq!(*kind, Aggregation::COUNT);
        }
        other => panic!("expected an aggregation, found {:?}", other),
    }
    let project = node(&c, 3);
    assert_eq!(project.name, "q_5_n1");
    assert_eq!(project.ancestors, vec![2]);
    assert_eq!(names(&project.columns), vec!["a", "cnt", "bogokey"]);
    assert!(matches!(node(&c, 4).inner, MirNodeType::Leaf { .. }));
    assert_eq!(node(&c, 4).name, "q3");
}

#[test]
fn limit_gives_a_topk() {
    let mut c = with_table_t();
    let st = SelectStatement {
        order: Some(OrderClause { columns: vec![(col("a"), OrderType::OrderAscending)] }),
        limit: Some(LimitClause { limit: 10, offset: 0 }),
    };
    let q = c.named_query_to_mir("q4", &st, &graph_on_t(vec![]), true, global()).unwrap();
    assert_eq!(c.node_count(), 5);
    assert_eq!(q.leaf, 4);
    let topk = node(&c, 2);
    assert_eq!(topk.name, "q_abc_n0");
    assert_eq!(topk.ancestors, vec![1]);
    assert_eq!(names(&topk.columns), vec!["a", "b"]);
    assert_eq!(
        topk.inner,
        MirNodeType::TopK {
            order: Some(vec![(col("a"), OrderType::OrderAscending)]),
            group_by: vec![],
            k: 10,
            offset: 0,
        }
    );
    let project = node(&c, 3);
    assert!(matches!(project.inner, MirNodeType::Project { .. }));
    assert_eq!(project.name, "q_abc_n1");
    assert_eq!(project.ancestors, vec![2]);
    let leaf = node(&c, 4);
    assert!(matches!(leaf.inner, MirNodeType::Leaf { .. }));
    assert_eq!(leaf.ancestors, vec![3]);
}

#[test]
fn plain_select_is_base_project_leaf() {
    let mut c = with_table_t();
    let q = c.named_query_to_mir("q", &no_clauses(), &graph_on_t(vec![]), true, global()).unwrap();
    assert_eq!(c.node_count(), 4);
    assert_eq!(q.roots, vec![1]);
    assert_eq!(q.leaf, 3);
    assert_eq!(node(&c, 1).inner, MirNodeType::Reuse { node: 0 });
    assert!(matches!(node(&c, 2).inner, MirNodeType::Project { .. }));
    assert_eq!(node(&c, 2).ancestors, vec![1]);
    assert!(matches!(node(&c, 3).inner, MirNodeType::Leaf { .. }));
    assert_eq!(node(&c, 3).ancestors, vec![2]);
}

#[test]
fn plain_select_without_leaf_ends_in_the_projection() {
    let mut c = with_table_t();
    let q = c.named_query_to_mir("v", &no_clauses(), &graph_on_t(vec![]), false, global()).unwrap();
    assert_eq!(c.node_count(), 3);
    assert_eq!(q.leaf, 2);
    let project = node(&c, 2);
    assert_eq!(project.name, "v");
    assert_eq!(names(&project.columns), vec!["a"]);
    assert_eq!(tables(&project.columns), vec![Some("v".to_string())]);
    match &project.inner {
        MirNodeType::Project { emit, literals, .. } => {
            assert_eq!(emit, &vec![col("a")]);
            assert!(literals.is_empty());
        }
        other => panic!("expected a projection, found {:?}", other),
    }
    assert_eq!(c.registered("v", 0), Some(2));
}

#[test]
fn conjunction_gives_one_filter_per_comparison() {
    let mut c = with_table_t();
    let parent = c.get_view("t").unwrap();
    let tree = logical(
        Operator::And,
        logical(Operator::And, equals(col("a"), 1), equals(col("b"), 2)),
        equals(col("a"), 3),
    );
    let chain = c.make_predicate_nodes("p", parent, &tree, 4).unwrap();
    assert_eq!(chain, vec![2, 3, 4]);
    assert_eq!(node(&c, 2).name, "p_f4");
    assert_eq!(node(&c, 3).name, "p_f5");
    assert_eq!(node(&c, 4).name, "p_f6");
    assert_eq!(node(&c, 2).ancestors, vec![parent]);
    assert_eq!(node(&c, 3).ancestors, vec![2]);
    assert_eq!(node(&c, 4).ancestors, vec![3]);
    for id in chain {
        assert!(matches!(node(&c, id).inner, MirNodeType::Filter { .. }));
    }
}

#[test]
fn disjunction_chains_share_the_parent() {
    let mut c = with_table_t();
    let parent = c.get_view("t").unwrap();
    let tree = logical(
        Operator::Or,
        logical(Operator::And, equals(col("a"), 1), equals(col("b"), 2)),
        equals(col("a"), 3),
    );
    let chain = c.make_predicate_nodes("p", parent, &tree, 0).unwrap();
    assert_eq!(chain, vec![2, 3, 4, 5]);
    assert_eq!(node(&c, 2).ancestors, vec![parent]);
    assert_eq!(node(&c, 3).ancestors, vec![2]);
    assert_eq!(node(&c, 4).ancestors, vec![parent]);
    assert_eq!(node(&c, 4).name, "p_f2");
    assert_eq!(node(&c, 5).ancestors, vec![3, 4]);
    assert_eq!(node(&c, 5).name, "p_un");
    assert!(matches!(node(&c, 5).inner, MirNodeType::Union { .. }));
}

#[test]
fn graph_is_acyclic_and_query_is_connected() {
    let mut c = with_table_t();
    let qg = graph_on_t(vec![logical(Operator::Or, equals(col("b"), 1), equals(col("b"), 2))]);
    let q = c.named_query_to_mir("q", &no_clauses(), &qg, true, global()).unwrap();
    for (i, n) in c.graph.nodes.iter().enumerate() {
        assert!(n.ancestors.iter().all(|a| *a < i));
    }
    for root in &q.roots {
        assert!(reaches(&c, q.leaf, *root));
    }
    assert!(!c.graph.has_children(q.leaf));
    for id in 1..q.leaf {
        assert!(c.graph.has_children(id));
    }
    assert_eq!(c.graph.children(1), vec![2, 3]);
    assert_eq!(c.graph.children(q.leaf), Vec::<usize>::new());
}

#[test]
fn names_are_the_same_on_every_run() {
    let run = || {
        let mut c = with_table_t();
        let qg = graph_on_t(vec![
            logical(Operator::Or, equals(col("b"), 1), equals(col("b"), 2)),
            equals(col("a"), 5),
        ]);
        c.named_query_to_mir("q", &no_clauses(), &qg, true, global()).unwrap();
        c.graph.nodes.iter().map(|n| n.name.clone()).collect::<Vec<String>>()
    };
    let first = run();
    assert_eq!(first, run());
    assert_eq!(
        first,
        vec![
            "t",
            "t",
            "q_abc_n0_p0_f0",
            "q_abc_n0_p0_f1",
            "q_abc_n0_p0_un",
            "q_abc_n3_p1_f0",
            "q_abc_n4",
            "q",
        ]
    );
}

#[test]
fn universe_suffix_is_part_of_the_names() {
    let mut c = with_table_t();
    let universe: UniverseId = (DataType::Int(7), None);
    c.named_query_to_mir("q_u7", &no_clauses(), &graph_on_t(vec![equals(col("b"), 1)]), true, universe)
        .unwrap();
    assert_eq!(node(&c, 2).name, "q_abc_n0_p0_u7_f0");
    assert_eq!(node(&c, 3).name, "q_abc_n1_u7");
    assert_eq!(node(&c, 4).name, "q_u7");
}

#[test]
fn register_is_idempotent() {
    let mut c = with_table_t();
    let other = c.get_view("t").unwrap();
    c.register("x", 0).unwrap();
    let nodes = c.nodes.clone();
    let current = c.current.clone();
    c.register("x", other).unwrap();
    assert_eq!(c.nodes, nodes);
    assert_eq!(c.current, current);
    assert_eq!(c.registered("x", 0), Some(0));
    c.register("x", 0).unwrap();
    assert_eq!(c.nodes, nodes);
    assert_eq!(c.current, current);
}

#[test]
fn register_refuses_a_handle_of_no_node() {
    let mut c = with_table_t();
    assert_eq!(c.register("x", 1), Err(MirError::UnknownView));
    assert_eq!(c.registered("x", 0), None);
    assert_eq!(c.current_version("x"), None);
    assert_eq!(c.nodes.len(), 1);
}

#[test]
fn register_marks_the_latest_version() {
    let mut c = with_table_t();
    c.register("x", 0).unwrap();
    assert_eq!(c.current_version("x"), Some(0));
    c.upgrade_schema(3).unwrap();
    assert_eq!(c.registered("x", 3), None);
    c.register("x", 0).unwrap();
    assert_eq!(c.registered("x", 3), Some(0));
    assert_eq!(c.registered("x", 0), Some(0));
    assert_eq!(c.current_version("x"), Some(3));
}

#[test]
fn schema_version_only_moves_forward() {
    let mut c = SqlToMirConverter::new();
    assert_eq!(c.schema_version, 0);
    assert_eq!(c.upgrade_schema(0), Err(MirError::InvariantViolation));
    assert_eq!(c.upgrade_schema(2), Ok(()));
    assert_eq!(c.schema_version, 2);
    assert_eq!(c.upgrade_schema(2), Err(MirError::InvariantViolation));
    assert_eq!(c.upgrade_schema(1), Err(MirError::InvariantViolation));
    assert_eq!(c.schema_version, 2);
    assert_eq!(c.upgrade_schema(3), Ok(()));
    assert_eq!(c.schema_version, 3);
}

#[test]
fn get_view_wraps_the_latest_node() {
    let mut c = with_table_t();
    c.upgrade_schema(5).unwrap();
    let v = c.get_view("t").unwrap();
    assert_eq!(v, 1);
    let n = node(&c, v);
    assert_eq!(n.inner, MirNodeType::Reuse { node: 0 });
    assert_eq!(n.from_version, 5);
    assert_eq!(n.name, "t");
    assert!(n.ancestors.is_empty());
    assert_eq!(c.get_view("nope"), Err(MirError::UnknownView));
    assert_eq!(c.node_count(), 2);
}

#[test]
fn unknown_table_is_refused_and_changes_nothing() {
    let mut c = SqlToMirConverter::new();
    let r = c.named_query_to_mir("q", &no_clauses(), &graph_on_t(vec![]), true, global());
    assert_eq!(r, Err(MirError::UnknownView));
    assert_eq!(c.node_count(), 0);
    assert!(c.nodes.is_empty());
    assert!(c.current.is_empty());
}

#[test]
fn negation_is_refused_and_changes_nothing() {
    let mut c = with_table_t();
    let not = ConditionExpression::NegationOp(Box::new(equals(col("b"), 1)));
    let r = c.named_query_to_mir("q", &no_clauses(), &graph_on_t(vec![not]), true, global());
    assert_eq!(r, Err(MirError::Unsupported));
    assert_eq!(c.node_count(), 1);
    assert_eq!(c.nodes.len(), 1);
}

#[test]
fn comparison_of_two_columns_is_refused_as_a_filter() {
    let mut c = with_table_t();
    let two = ConditionExpression::ComparisonOp(ConditionTree {
        operator: Operator::Equal,
        left: field(col("a")),
        right: field(col("b")),
    });
    let r = c.named_query_to_mir("q", &no_clauses(), &graph_on_t(vec![two]), true, global());
    assert_eq!(r, Err(MirError::Unsupported));
    assert_eq!(c.node_count(), 1);
}

#[test]
fn literal_on_the_left_is_refused() {
    let mut c = with_table_t();
    let parent = c.get_view("t").unwrap();
    let tree = ConditionTree { operator: Operator::Equal, left: number(1), right: field(col("a")) };
    assert_eq!(c.make_filter_node("f", parent, &tree), Err(MirError::Unsupported));
    assert_eq!(c.node_count(), 2);
}

#[test]
fn statement_other_than_create_table_is_refused() {
    let mut c = SqlToMirConverter::new();
    let r = c.named_base_to_mir("t", &SqlQuery::Select(no_clauses()), false);
    assert_eq!(r, Err(MirError::Unsupported));
    assert_eq!(c.node_count(), 0);
}

#[test]
fn base_under_another_name_is_refused() {
    let mut c = SqlToMirConverter::new();
    let r = c.named_base_to_mir("u", &create_table("t", &["a"], None), false);
    assert_eq!(r, Err(MirError::InvariantViolation));
}

#[test]
fn column_of_another_table_is_refused_in_a_base() {
    let mut c = SqlToMirConverter::new();
    let q = SqlQuery::CreateTable(CreateTableStatement {
        table: Table { name: "t".to_string(), alias: None },
        fields: vec![int_spec("t", "a"), int_spec("u", "b")],
        keys: None,
    });
    assert_eq!(c.named_base_to_mir("t", &q, false), Err(MirError::InvariantViolation));
    assert_eq!(c.node_count(), 0);
    assert!(c.base_schemas.is_empty());
}

#[test]
fn two_primary_keys_are_refused() {
    let mut c = SqlToMirConverter::new();
    let q = SqlQuery::CreateTable(CreateTableStatement {
        table: Table { name: "t".to_string(), alias: None },
        fields: vec![int_spec("t", "a"), int_spec("t", "b")],
        keys: Some(vec![
            TableKey::PrimaryKey(vec![col("a")]),
            TableKey::Key("k".to_string(), vec![col("b")]),
            TableKey::PrimaryKey(vec![col("b")]),
        ]),
    });
    assert_eq!(c.named_base_to_mir("t", &q, false), Err(MirError::InvariantViolation));
}

#[test]
fn keys_of_other_kinds_do_not_count() {
    let mut c = SqlToMirConverter::new();
    let q = SqlQuery::CreateTable(CreateTableStatement {
        table: Table { name: "t".to_string(), alias: None },
        fields: vec![int_spec("t", "a"), int_spec("t", "b")],
        keys: Some(vec![
            TableKey::UniqueKey(None, vec![col("a")]),
            TableKey::PrimaryKey(vec![col("b")]),
        ]),
    });
    c.named_base_to_mir("t", &q, false).unwrap();
    match &node(&c, 0).inner {
        MirNodeType::Base { keys, .. } => assert_eq!(names(keys), vec!["b"]),
        other => panic!("expected a base node, found {:?}", other),
    }
}

#[test]
fn conditions_are_aligned_with_the_columns() {
    let mut c = with_table_t();
    let parent = c.get_view("t").unwrap();
    let mut columns = vec![col("a"), col("b")];
    let on_a = ConditionTree { operator: Operator::Greater, left: field(col("a")), right: number(3) };
    let slots = c.to_conditions(&on_a, &mut columns, parent).unwrap();
    assert_eq!(
        slots,
        vec![Some(FilterCondition::Equality(Operator::Greater, DataType::BigInt(3))), None]
    );
    assert_eq!(names(&columns), vec!["a", "b"]);

    let text = ConditionTree {
        operator: Operator::Equal,
        left: field(col("b")),
        right: Box::new(ConditionExpression::Base(ConditionBase::Literal(Literal::String(
            "x".to_string(),
        )))),
    };
    let slots = c.to_conditions(&text, &mut columns, parent).unwrap();
    assert_eq!(
        slots,
        vec![None, Some(FilterCondition::Equality(Operator::Equal, DataType::Text("x".to_string())))]
    );
}

#[test]
fn membership_gives_an_in_condition() {
    let mut c = with_table_t();
    let parent = c.get_view("t").unwrap();
    let mut columns = vec![col("a"), col("b")];
    let list = ConditionTree {
        operator: Operator::In,
        left: field(col("a")),
        right: Box::new(ConditionExpression::Base(ConditionBase::LiteralList(vec![
            Literal::Integer(1),
            Literal::String("x".to_string()),
            Literal::Null,
        ]))),
    };
    let slots = c.to_conditions(&list, &mut columns, parent).unwrap();
    assert_eq!(
        slots,
        vec![
            Some(FilterCondition::In(vec![
                DataType::BigInt(1),
                DataType::Text("x".to_string()),
                DataType::Null,
            ])),
            None,
        ]
    );
    let bad = ConditionTree {
        operator: Operator::In,
        left: field(col("a")),
        right: Box::new(ConditionExpression::Base(ConditionBase::LiteralList(vec![
            Literal::Integer(1),
            Literal::Placeholder,
        ]))),
    };
    assert_eq!(c.to_conditions(&bad, &mut columns, parent), Err(MirError::Unsupported));
    assert_eq!(names(&columns), vec!["a", "b"]);
}

#[test]
fn condition_on_an_unknown_column_is_appended() {
    let mut c = with_table_t();
    let parent = c.get_view("t").unwrap();
    let mut columns = vec![col("a"), col("b")];
    let on_z = ConditionTree { operator: Operator::Equal, left: field(col("z")), right: number(3) };
    let slots = c.to_conditions(&on_z, &mut columns, parent).unwrap();
    assert_eq!(
        slots,
        vec![None, None, Some(FilterCondition::Equality(Operator::Equal, DataType::BigInt(3)))]
    );
    assert_eq!(names(&columns), vec!["a", "b", "z"]);
}

#[test]
fn column_that_the_node_lacks_is_refused() {
    let mut c = with_table_t();
    let parent = c.get_view("t").unwrap();
    let mut columns = vec![col("a"), col("nope")];
    let on_a = ConditionTree { operator: Operator::Equal, left: field(col("a")), right: number(3) };
    assert_eq!(c.to_conditions(&on_a, &mut columns, parent), Err(MirError::UnknownColumn));
    assert_eq!(names(&columns), vec!["a", "nope"]);
}

#[test]
fn column_positions_follow_the_kind_of_node() {
    let mut c = with_table_t();
    let reuse = c.get_view("t").unwrap();
    assert_eq!(c.graph.column_id_for_column(0, &col("b")), Some(1));
    assert_eq!(c.graph.column_id_for_column(reuse, &col("b")), Some(1));
    assert_eq!(c.graph.column_id_for_column(0, &col_of("u", "b")), None);
    let filter = c
        .make_filter_node(
            "f",
            reuse,
            &ConditionTree { operator: Operator::Equal, left: field(col("a")), right: number(1) },
        )
        .unwrap();
    let untabled = Column { name: "b".to_string(), alias: None, table: None, function: None };
    assert_eq!(c.graph.column_id_for_column(filter, &untabled), Some(1));
    assert_eq!(c.graph.column_id_for_column(filter, &col_of("u", "b")), None);
    assert_eq!(c.graph.column_id_for_column(99, &col("a")), None);
}

#[test]
fn join_shows_the_columns_of_both_sides() {
    let mut c = with_table_t();
    c.named_base_to_mir("u", &create_table("u", &["a", "c"], None), false).unwrap();
    let left = c.get_view("t").unwrap();
    let right = c.get_view("u").unwrap();
    let on = ConditionTree {
        operator: Operator::Equal,
        left: field(col_of("t", "a")),
        right: field(col_of("u", "a")),
    };
    let j = c.make_join_node("j", &on, left, right, JoinType::Left).unwrap();
    let n = node(&c, j);
    assert_eq!(n.ancestors, vec![left, right]);
    assert_eq!(names(&n.columns), vec!["a", "b", "a", "c"]);
    match &n.inner {
        MirNodeType::LeftJoin { on_left, on_right, project } => {
            assert_eq!(on_left, &vec![col_of("t", "a")]);
            assert_eq!(on_right, &vec![col_of("u", "a")]);
            assert_eq!(on_left.len(), on_right.len());
            assert_eq!(names(project), vec!["a", "b", "a", "c"]);
        }
        other => panic!("expected a left join, found {:?}", other),
    }
    let less = ConditionTree {
        operator: Operator::Less,
        left: field(col_of("t", "a")),
        right: field(col_of("u", "a")),
    };
    assert_eq!(c.make_join_node("j2", &less, left, right, JoinType::Inner), Err(MirError::Unsupported));
    let literal = ConditionTree { operator: Operator::Equal, left: field(col("a")), right: number(1) };
    assert_eq!(
        c.make_join_node("j3", &literal, left, right, JoinType::Inner),
        Err(MirError::Unsupported)
    );
    assert_eq!(c.make_join_node("j4", &on, left, 99, JoinType::Inner), Err(MirError::UnknownView));
}

#[test]
fn joins_merge_the_chains_of_their_relations() {
    let mut c = with_table_t();
    c.named_base_to_mir("u", &create_table("u", &["a", "c"], None), false).unwrap();
    c.named_base_to_mir("w", &create_table("w", &["c", "d"], None), false).unwrap();
    let on = |l: Column, r: Column| ConditionTree {
        operator: Operator::Equal,
        left: field(l),
        right: field(r),
    };
    let qg = QueryGraph {
        relations: vec![
            relation("w", vec![], vec![col_of("w", "d")]),
            relation("t", vec![], vec![col("a")]),
            relation("u", vec![], vec![]),
        ],
        joins: vec![
            JoinEdge {
                src: "t".to_string(),
                dst: "u".to_string(),
                kind: JoinType::Inner,
                predicate: on(col_of("t", "a"), col_of("u", "a")),
            },
            JoinEdge {
                src: "u".to_string(),
                dst: "w".to_string(),
                kind: JoinType::Left,
                predicate: on(col_of("u", "c"), col_of("w", "c")),
            },
        ],
        group_by: vec![],
        columns: vec![OutputColumn::Data(col("a")), OutputColumn::Data(col_of("w", "d"))],
        signature_hash: 0x10,
    };
    assert_eq!(qg.sorted_relations(), vec![1, 2, 0]);
    let q = c.named_query_to_mir("q", &no_clauses(), &qg, true, global()).unwrap();
    assert_eq!(q.roots, vec![3, 4, 5]);
    assert_eq!(node(&c, 3).name, "t");
    assert_eq!(node(&c, 4).name, "u");
    assert_eq!(node(&c, 5).name, "w");
    let first = node(&c, 6);
    assert_eq!(first.name, "q_10_n0");
    assert_eq!(first.ancestors, vec![3, 4]);
    assert!(matches!(first.inner, MirNodeType::Join { .. }));
    let second = node(&c, 7);
    assert_eq!(second.name, "q_10_n1");
    assert_eq!(second.ancestors, vec![6, 5]);
    assert!(matches!(second.inner, MirNodeType::LeftJoin { .. }));
    assert_eq!(names(&second.columns), vec!["a", "b", "a", "c", "c", "d"]);
    assert_eq!(node(&c, 8).name, "q_10_n2");
    assert_eq!(node(&c, 8).ancestors, vec![7]);
    assert_eq!(q.leaf, 9);
}
