use sql_to_mir::ast::{
    ArithmeticBase, ArithmeticExpression, ArithmeticOperator, Column, ColumnSpecification,
    CompoundSelectOperator, ConditionBase, ConditionExpression, ConditionTree,
    CreateTableStatement, FunctionExpression, LimitClause, Literal, Operator, SelectStatement,
    SqlQuery, SqlType, Table,
};
use sql_to_mir::query::MirQuery;
use sql_to_mir::converter::SqlToMirConverter;
use sql_to_mir::factory::sanitize_leaf_column;
use sql_to_mir::node::{Aggregation, Extremum, FlowNode, MirNode, MirNodeRef, MirNodeType};
use sql_to_mir::query_graph::{
    ArithmeticColumn, LiteralColumn, OutputColumn, QueryGraph, QueryGraphNode,
};
use sql_to_mir::universe::{RowPolicy, Universe, UniverseId};
use sql_to_mir::value::{DataType, MirError};

fn column(name: &str) -> Column {
    Column::new(name, "t")
}

fn table_t() -> SqlQuery {
    SqlQuery::CreateTable(CreateTableStatement {
        table: Table { name: "t".to_string(), alias: None },
        fields: vec![
            ColumnSpecification::new(column("a"), SqlType::Int(32)),
            ColumnSpecification::new(column("b"), SqlType::Int(32)),
        ],
        keys: None,
    })
}

fn converter() -> SqlToMirConverter {
    let mut c = SqlToMirConverter::new();
    c.named_base_to_mir("t", &table_t(), false).unwrap();
    c
}

fn everyone() -> UniverseId {
    (DataType::Text("global".to_string()), None)
}

fn is(c: Column, i: i64) -> ConditionExpression {
    ConditionExpression::ComparisonOp(ConditionTree {
        operator: Operator::Equal,
        left: Box::new(ConditionExpression::Base(ConditionBase::Field(c))),
        right: Box::new(ConditionExpression::Base(ConditionBase::Literal(Literal::Integer(i)))),
    })
}

fn on_t(predicates: Vec<ConditionExpression>, hash: u64) -> QueryGraph {
    QueryGraph {
        relations: vec![QueryGraphNode {
            rel_name: "t".to_string(),
            predicates,
            columns: vec![column("a")],
            parameters: vec![],
        }],
        joins: vec![],
        group_by: vec![],
        columns: vec![OutputColumn::Data(column("a"))],
        signature_hash: hash,
    }
}

fn aggregate(function: FunctionExpression, group_by: Vec<Column>) -> QueryGraph {
    let computed = Column {
        name: "agg".to_string(),
        alias: None,
        table: None,
        function: Some(Box::new(function)),
    };
    QueryGraph {
        relations: vec![
            QueryGraphNode {
                rel_name: "t".to_string(),
                predicates: vec![],
                columns: vec![],
                parameters: vec![],
            },
            QueryGraphNode {
                rel_name: "computed_columns".to_string(),
                predicates: vec![],
                columns: vec![computed.clone()],
                parameters: vec![],
            },
        ],
        joins: vec![],
        group_by,
        columns: vec![OutputColumn::Data(computed)],
        signature_hash: 0x5,
    }
}

fn plain() -> SelectStatement {
    SelectStatement { order: None, limit: None }
}

fn at(c: &SqlToMirConverter, id: MirNodeRef) -> &MirNode {
    c.node(id).unwrap()
}

fn column_names(cols: &[Column]) -> Vec<String> {
    cols.iter().map(|c| c.name.clone()).collect()
}

fn node_names(c: &SqlToMirConverter) -> Vec<String> {
    c.graph.nodes.iter().map(|n| n.name.clone()).collect()
}

fn with_two_queries() -> (SqlToMirConverter, MirQuery, MirQuery) {
    let mut c = converter();
    let q1 = c.named_query_to_mir("q1", &plain(), &on_t(vec![], 1), true, everyone()).unwrap();
    let q2 = c.named_query_to_mir("q2", &plain(), &on_t(vec![], 2), true, everyone()).unwrap();
    (c, q1, q2)
}

#[test]
fn leaf_below_a_projection_reads_an_identity() {
    let mut c = converter();
    let q = c.named_query_to_mir("q", &plain(), &on_t(vec![], 1), true, everyone()).unwrap();
    let params = vec![Column::new("a", "q")];
    let below = c.add_leaf_below(q.leaf, "q_by_a", &params, None).unwrap();
    assert_eq!(c.node_count(), 7);
    assert_eq!(below.name, "q_by_a");
    assert_eq!(below.roots, vec![4]);
    assert_eq!(below.leaf, 6);
    assert_eq!(at(&c, 4).inner, MirNodeType::Reuse { node: 3 });
    assert_eq!(at(&c, 4).name, "q");
    let identity = at(&c, 5);
    assert_eq!(identity.name, "q_by_a_id");
    assert_eq!(identity.inner, MirNodeType::Identity);
    assert_eq!(identity.ancestors, vec![4]);
    assert_eq!(column_names(&identity.columns), vec!["a", "bogokey"]);
    let leaf = at(&c, 6);
    assert_eq!(leaf.name, "q_by_a");
    assert_eq!(leaf.ancestors, vec![5]);
    assert_eq!(leaf.inner, MirNodeType::Leaf { node: 4, keys: vec![Column::new("a", "q")] });
    assert_eq!(leaf.columns, vec![Column::new("a", "q_by_a"), Column::new("bogokey", "q_by_a")]);
    assert_eq!(c.registered("q_by_a", 0), Some(6));
    assert_eq!(c.current_version("q_by_a"), Some(0));
}

#[test]
fn leaf_below_another_node_reads_a_projection() {
    let mut c = converter();
    let params = vec![column("b")];
    let below = c.add_leaf_below(0, "by_b", &params, Some(vec![column("a")])).unwrap();
    assert_eq!(below.roots, vec![1]);
    assert_eq!(below.leaf, 3);
    let project = at(&c, 2);
    assert_eq!(project.name, "by_b_reproject");
    assert_eq!(project.ancestors, vec![1]);
    assert_eq!(project.columns, vec![column("a"), column("b")]);
    assert_eq!(
        project.inner,
        MirNodeType::Project {
            emit: vec![column("a"), column("b")],
            arithmetic: vec![],
            literals: vec![],
        }
    );
    assert_eq!(at(&c, 3).columns, vec![Column::new("a", "by_b"), Column::new("b", "by_b")]);
    assert_eq!(c.add_leaf_below(99, "x", &params, None), Err(MirError::UnknownView));
    assert_eq!(c.node_count(), 4);
}

#[test]
fn union_of_queries_with_a_leaf() {
    let (mut c, q1, q2) = with_two_queries();
    assert_eq!((q1.leaf, q2.leaf), (3, 6));
    let u = c
        .compound_query_to_mir("u", vec![&q1, &q2], CompoundSelectOperator::Union, &None, &None, true)
        .unwrap();
    assert_eq!(u.name, "u");
    assert_eq!(u.roots, vec![1, 4]);
    assert_eq!(u.leaf, 8);
    let union = at(&c, 7);
    assert_eq!(union.name, "u_union");
    assert_eq!(union.ancestors, vec![3, 6]);
    assert_eq!(column_names(&union.columns), vec!["a", "bogokey"]);
    match &union.inner {
        MirNodeType::Union { emit } => {
            assert_eq!(emit.len(), 2);
            assert_eq!(emit[0], vec![Column::new("a", "q1"), Column::new("bogokey", "q1")]);
            assert_eq!(emit[1], vec![Column::new("a", "q2"), Column::new("bogokey", "q2")]);
        }
        other => panic!("expected a union, found {:?}", other),
    }
    let leaf = at(&c, 8);
    assert_eq!(leaf.name, "u");
    assert_eq!(leaf.inner, MirNodeType::Leaf { node: 7, keys: vec![] });
    assert_eq!(leaf.ancestors, vec![7]);
    assert_eq!(leaf.columns, vec![Column::new("a", "u"), Column::new("bogokey", "u")]);
    assert_eq!(c.registered("u_union", 0), Some(7));
    assert_eq!(c.registered("u", 0), Some(8));
    assert_eq!(c.current_version("u"), Some(0));
    assert_eq!(c.current_version("u_union"), None);
}

#[test]
fn union_of_queries_with_a_limit() {
    let (mut c, q1, q2) = with_two_queries();
    let limit = Some(LimitClause { limit: 3, offset: 0 });
    let u = c
        .compound_query_to_mir("u", vec![&q1, &q2], CompoundSelectOperator::Union, &None, &limit, false)
        .unwrap();
    assert_eq!(u.leaf, 8);
    assert_eq!(at(&c, 7).name, "u_union");
    let topk = at(&c, 8);
    assert_eq!(topk.name, "u");
    assert_eq!(topk.ancestors, vec![7]);
    assert_eq!(
        topk.inner,
        MirNodeType::TopK {
            order: None,
            group_by: vec![Column::new("a", "u"), Column::new("bogokey", "u")],
            k: 3,
            offset: 0,
        }
    );
    assert_eq!(c.registered("u", 0), Some(8));

    let with_leaf = c
        .compound_query_to_mir("w", vec![&q1, &q2], CompoundSelectOperator::Union, &None, &limit, true)
        .unwrap();
    assert_eq!(with_leaf.leaf, 11);
    assert_eq!(at(&c, 9).name, "w_union");
    assert_eq!(at(&c, 10).name, "w_topk");
    assert_eq!(at(&c, 11).name, "w");
    assert_eq!(at(&c, 11).ancestors, vec![10]);
    assert_eq!(c.registered("w_topk", 0), Some(10));
}

#[test]
fn bare_union_of_queries_has_the_name_of_the_query() {
    let (mut c, q1, q2) = with_two_queries();
    let u = c
        .compound_query_to_mir("u", vec![&q1, &q2], CompoundSelectOperator::Union, &None, &None, false)
        .unwrap();
    assert_eq!(u.leaf, 7);
    assert_eq!(at(&c, 7).name, "u");
    assert!(matches!(at(&c, 7).inner, MirNodeType::Union { .. }));
    assert_eq!(c.registered("u", 0), Some(7));
    assert_eq!(c.node_count(), 8);
}

#[test]
fn compound_query_refuses_what_it_does_not_support() {
    let (mut c, q1, q2) = with_two_queries();
    let before = node_names(&c);
    let registry = c.nodes.clone();
    assert_eq!(
        c.compound_query_to_mir(
            "u",
            vec![&q1, &q2],
            CompoundSelectOperator::Intersect,
            &None,
            &None,
            true
        ),
        Err(MirError::Unsupported)
    );
    assert_eq!(
        c.compound_query_to_mir("u", vec![&q1], CompoundSelectOperator::Union, &None, &None, true),
        Err(MirError::InvariantViolation)
    );
    let skipping = Some(LimitClause { limit: 3, offset: 5 });
    assert_eq!(
        c.compound_query_to_mir(
            "u",
            vec![&q1, &q2],
            CompoundSelectOperator::Union,
            &None,
            &skipping,
            true
        ),
        Err(MirError::InvariantViolation)
    );
    assert_eq!(node_names(&c), before);
    assert_eq!(c.nodes, registry);
}

#[test]
fn flow_node_addresses_are_found_by_name() {
    let mut c = converter();
    let q = c.named_query_to_mir("q", &plain(), &on_t(vec![], 1), true, everyone()).unwrap();
    assert_eq!(c.get_leaf("q"), None);
    assert_eq!(c.get_flow_node_address("q", 0), None);
    c.set_flow_node(q.leaf, FlowNode::New(42));
    c.set_flow_node(0, FlowNode::Existing(7));
    c.set_flow_node(99, FlowNode::New(1));
    assert_eq!(at(&c, q.leaf).flow_node, Some(FlowNode::New(42)));
    assert_eq!(c.get_flow_node_address("q", 0), Some(42));
    assert_eq!(c.get_flow_node_address("t", 0), Some(7));
    assert_eq!(c.get_flow_node_address("q", 1), None);
    assert_eq!(c.get_flow_node_address("nope", 0), None);
    assert_eq!(c.get_leaf("q"), Some(42));
    assert_eq!(c.get_leaf("nope"), None);
    assert_eq!(c.get_leaf("q_1_n0"), None);
    assert_eq!(FlowNode::Existing(7).address(), 7);
    assert_eq!(FlowNode::New(8).address(), 8);
}

#[test]
fn one_policy_filters_the_query() {
    let mut c = converter();
    c.set_universe(Universe {
        id: DataType::Int(7),
        from_group: None,
        member_of: vec![],
        row_policies: vec![
            RowPolicy { table: "zzz".to_string(), predicates: vec![is(column("a"), 9)] },
            RowPolicy { table: "t".to_string(), predicates: vec![is(column("b"), 1)] },
            RowPolicy { table: "t".to_string(), predicates: vec![] },
        ],
    });
    let q = c
        .named_query_to_mir("q_u7", &plain(), &on_t(vec![], 0xabc), true, (DataType::Int(7), None))
        .unwrap();
    assert_eq!(
        node_names(&c),
        vec!["t", "t", "q_abc_u7_sp1_p0_f0", "q_abc_n0_u7", "q_u7"]
    );
    assert_eq!(at(&c, 2).ancestors, vec![1]);
    assert_eq!(at(&c, 3).ancestors, vec![2]);
    assert_eq!(q.roots, vec![1]);
    assert_eq!(q.leaf, 4);
}

#[test]
fn two_policies_give_two_copies_and_a_union() {
    let mut c = converter();
    c.set_universe(Universe {
        id: DataType::Int(7),
        from_group: None,
        member_of: vec![],
        row_policies: vec![
            RowPolicy { table: "t".to_string(), predicates: vec![is(column("b"), 1)] },
            RowPolicy { table: "t".to_string(), predicates: vec![is(column("a"), 2)] },
        ],
    });
    let q = c
        .named_query_to_mir(
            "q_u7",
            &plain(),
            &on_t(vec![is(column("a"), 5)], 0xabc),
            true,
            (DataType::Int(7), None),
        )
        .unwrap();
    assert_eq!(
        node_names(&c),
        vec![
            "t",
            "t",
            "q_abc_u7_sp0_p0_f0",
            "q_abc_u7_sp1_p0_f0",
            "q_abc_n0_p0_u7_f0",
            "q_abc_n1_p0_u7_f0",
            "q_abc_u7_n2",
            "q_abc_n3_u7",
            "q_u7",
        ]
    );
    assert_eq!(at(&c, 2).ancestors, vec![1]);
    assert_eq!(at(&c, 3).ancestors, vec![1]);
    assert_eq!(at(&c, 4).ancestors, vec![2]);
    assert_eq!(at(&c, 5).ancestors, vec![3]);
    let union = at(&c, 6);
    assert_eq!(union.ancestors, vec![4, 5]);
    match &union.inner {
        MirNodeType::Union { emit } => {
            assert_eq!(emit.len(), 2);
            assert!(emit.iter().all(|e| e.len() == union.columns.len()));
        }
        other => panic!("expected a union, found {:?}", other),
    }
    assert_eq!(at(&c, 7).ancestors, vec![6]);
    assert_eq!(q.leaf, 8);
    c.clear_universe();
    assert_eq!(c.universe, Universe::default());
}

#[test]
fn views_of_groups_are_united_with_the_query() {
    let mut c = converter();
    c.register("q_grp1", 0).unwrap();
    c.register("q_grp2", 0).unwrap();
    c.set_universe(Universe {
        id: DataType::Int(7),
        from_group: None,
        member_of: vec![("grp".to_string(), vec![DataType::Int(1), DataType::Int(2)])],
        row_policies: vec![],
    });
    let q = c
        .named_query_to_mir("q_u7", &plain(), &on_t(vec![], 0xabc), true, (DataType::Int(7), None))
        .unwrap();
    assert_eq!(q.roots, vec![1, 2, 3]);
    assert_eq!(at(&c, 2).inner, MirNodeType::Reuse { node: 0 });
    assert_eq!(at(&c, 3).inner, MirNodeType::Reuse { node: 0 });
    let union = at(&c, 4);
    assert_eq!(union.name, "q_abc_u7_n0");
    assert_eq!(union.ancestors, vec![2, 3, 1]);
    assert_eq!(at(&c, 5).name, "q_abc_n1_u7");
    assert_eq!(q.leaf, 6);

    let mut global = converter();
    global.set_universe(Universe {
        id: DataType::Int(7),
        from_group: None,
        member_of: vec![("grp".to_string(), vec![DataType::Int(1)])],
        row_policies: vec![],
    });
    global.named_query_to_mir("q", &plain(), &on_t(vec![], 0xabc), true, everyone()).unwrap();
    assert_eq!(global.node_count(), 4);
}

#[test]
fn missing_view_of_a_group_is_refused() {
    let mut c = converter();
    c.set_universe(Universe {
        id: DataType::Int(7),
        from_group: None,
        member_of: vec![("grp".to_string(), vec![DataType::Int(1)])],
        row_policies: vec![],
    });
    let r = c.named_query_to_mir(
        "q_u7",
        &plain(),
        &on_t(vec![], 0xabc),
        true,
        (DataType::Int(7), None),
    );
    assert_eq!(r, Err(MirError::UnknownView));
    assert_eq!(c.node_count(), 1);
}

#[test]
fn query_of_a_group_universe_projects_all_columns() {
    let mut c = converter();
    let universe: UniverseId = (DataType::Int(3), Some(DataType::Text("grp".to_string())));
    c.named_query_to_mir("g", &plain(), &on_t(vec![], 0xabc), false, universe).unwrap();
    let project = at(&c, 2);
    assert_eq!(column_names(&project.columns), vec!["a", "b"]);
}

#[test]
fn aggregate_without_group_by_groups_by_a_literal() {
    let mut c = converter();
    let qg = aggregate(FunctionExpression::Sum(column("b"), false), vec![]);
    let q = c.named_query_to_mir("s", &plain(), &qg, true, everyone()).unwrap();
    assert_eq!(node_names(&c), vec!["t", "t", "q_5_prj_hlpr", "q_5_n0", "q_5_n2", "s"]);
    let helper = at(&c, 2);
    assert_eq!(helper.ancestors, vec![1]);
    assert_eq!(helper.columns, vec![column("b"), Column::new("grp", "q_5_prj_hlpr")]);
    assert_eq!(
        helper.inner,
        MirNodeType::Project {
            emit: vec![column("b")],
            arithmetic: vec![],
            literals: vec![("grp".to_string(), DataType::Int(0))],
        }
    );
    let sum = at(&c, 3);
    assert_eq!(sum.ancestors, vec![2]);
    assert_eq!(column_names(&sum.columns), vec!["grp", "agg"]);
    assert_eq!(
        sum.inner,
        MirNodeType::Aggregation {
            on: column("b"),
            group_by: vec![Column::new("grp", "q_5_prj_hlpr")],
            kind: Aggregation::SUM,
        }
    );
    assert_eq!(q.leaf, 5);
}

#[test]
fn extremum_and_group_concat_have_their_own_nodes() {
    let mut c = converter();
    let qg = aggregate(FunctionExpression::Max(column("b")), vec![column("a")]);
    c.named_query_to_mir("m", &plain(), &qg, true, everyone()).unwrap();
    assert_eq!(
        at(&c, 2).inner,
        MirNodeType::Extremum { on: column("b"), group_by: vec![column("a")], kind: Extremum::MAX }
    );
    let qg = aggregate(FunctionExpression::Min(column("b")), vec![column("a")]);
    c.named_query_to_mir("n", &plain(), &qg, true, everyone()).unwrap();
    assert_eq!(
        at(&c, 6).inner,
        MirNodeType::Extremum { on: column("b"), group_by: vec![column("a")], kind: Extremum::MIN }
    );
    let qg = aggregate(
        FunctionExpression::GroupConcat(column("b"), ";".to_string()),
        vec![column("a")],
    );
    c.named_query_to_mir("g", &plain(), &qg, true, everyone()).unwrap();
    assert_eq!(
        at(&c, 10).inner,
        MirNodeType::GroupConcat { on: column("b"), separator: ";".to_string() }
    );
    assert_eq!(column_names(&at(&c, 10).columns), vec!["a", "agg"]);
}

#[test]
fn functions_without_a_node_are_refused() {
    let mut c = converter();
    for function in [FunctionExpression::CountStar, FunctionExpression::Avg(column("b"), false)] {
        let qg = aggregate(function, vec![column("a")]);
        let r = c.named_query_to_mir("x", &plain(), &qg, true, everyone());
        assert_eq!(r, Err(MirError::Unsupported));
        assert_eq!(c.node_count(), 1);
    }
    let mut qg = aggregate(FunctionExpression::CountStar, vec![column("a")]);
    qg.relations[1].columns = vec![column("b")];
    assert_eq!(
        c.named_query_to_mir("x", &plain(), &qg, true, everyone()),
        Err(MirError::Unsupported)
    );
}

#[test]
fn predicate_on_the_aggregated_column_goes_above_the_aggregate() {
    let mut c = converter();
    let mut qg = aggregate(FunctionExpression::Count(column("b"), false), vec![column("a")]);
    qg.relations[0].predicates = vec![is(column("b"), 1), is(column("a"), 2)];
    let q = c.named_query_to_mir("q", &plain(), &qg, true, everyone()).unwrap();
    assert_eq!(
        node_names(&c),
        vec!["t", "t", "q_5_n0_mp0_f0", "q_5_n1", "q_5_n2_p1_f0", "q_5_n3", "q"]
    );
    assert!(matches!(at(&c, 2).inner, MirNodeType::Filter { .. }));
    assert_eq!(at(&c, 2).ancestors, vec![1]);
    assert!(matches!(at(&c, 3).inner, MirNodeType::Aggregation { .. }));
    assert_eq!(at(&c, 3).ancestors, vec![2]);
    assert_eq!(at(&c, 4).ancestors, vec![3]);
    assert_eq!(q.leaf, 6);
}

#[test]
fn offset_is_refused() {
    let mut c = converter();
    let st = SelectStatement { order: None, limit: Some(LimitClause { limit: 10, offset: 1 }) };
    let r = c.named_query_to_mir("q", &st, &on_t(vec![is(column("b"), 1)], 1), true, everyone());
    assert_eq!(r, Err(MirError::InvariantViolation));
    assert_eq!(c.node_count(), 1);
    let parent = c.get_view("t").unwrap();
    let limit = LimitClause { limit: 10, offset: 0 };
    let topk = c.make_topk_node("k", parent, vec![], &None, &limit).unwrap();
    match at(&c, topk).inner {
        MirNodeType::TopK { offset, k, .. } => assert_eq!((offset, k), (0, 10)),
        _ => panic!("expected a TopK"),
    }
}

#[test]
fn query_without_joins_reads_one_relation() {
    let mut c = converter();
    let mut qg = on_t(vec![], 1);
    qg.relations.push(QueryGraphNode {
        rel_name: "t".to_string(),
        predicates: vec![],
        columns: vec![],
        parameters: vec![],
    });
    assert_eq!(
        c.named_query_to_mir("q", &plain(), &qg, true, everyone()),
        Err(MirError::InvariantViolation)
    );
    qg.relations.clear();
    assert_eq!(
        c.named_query_to_mir("q", &plain(), &qg, true, everyone()),
        Err(MirError::InvariantViolation)
    );
    assert_eq!(c.node_count(), 1);
}

#[test]
fn unions_take_the_columns_that_all_ancestors_share() {
    let mut c = converter();
    let first = c.get_view("t").unwrap();
    let second = c
        .make_project_node("p", first, vec![column("b")], vec![], vec![], false)
        .unwrap();
    let u = c.make_union_node("u", &vec![first, second]).unwrap();
    let union = at(&c, u);
    assert_eq!(union.columns, vec![column("b")]);
    assert_eq!(union.ancestors, vec![first, second]);
    assert_eq!(
        union.inner,
        MirNodeType::Union { emit: vec![vec![column("b")], vec![column("b")]] }
    );
    assert_eq!(c.make_union_node("u", &vec![first]), Err(MirError::InvariantViolation));
    assert_eq!(c.make_union_node("u", &vec![]), Err(MirError::InvariantViolation));
    assert_eq!(c.make_union_node("u", &vec![first, 99]), Err(MirError::UnknownView));
    assert_eq!(
        c.make_union_from_same_base("u", vec![first], vec![column("a")]),
        Err(MirError::InvariantViolation)
    );
    let same = c.make_union_from_same_base("v", vec![first, second], vec![column("a")]).unwrap();
    assert_eq!(
        at(&c, same).inner,
        MirNodeType::Union { emit: vec![vec![column("a")], vec![column("a")]] }
    );
}

#[test]
fn projection_turns_aliases_into_names() {
    let mut c = converter();
    let parent = c.get_view("t").unwrap();
    let aliased = Column {
        name: "a".to_string(),
        alias: Some("x".to_string()),
        table: Some("t".to_string()),
        function: None,
    };
    let sum = ArithmeticExpression {
        op: ArithmeticOperator::Add,
        left: ArithmeticBase::Column(column("a")),
        right: ArithmeticBase::Scalar(Literal::Integer(1)),
        alias: None,
    };
    let p = c
        .make_project_node(
            "p",
            parent,
            vec![aliased.clone(), column("b")],
            vec![("plus".to_string(), sum.clone())],
            vec![("one".to_string(), DataType::Int(1))],
            false,
        )
        .unwrap();
    let n = at(&c, p);
    assert_eq!(column_names(&n.columns), vec!["x", "b", "one", "plus"]);
    assert_eq!(n.columns[0].alias, None);
    assert_eq!(n.columns[0].table, Some("t".to_string()));
    assert_eq!(n.columns[2].table, Some("p".to_string()));
    match &n.inner {
        MirNodeType::Project { emit, arithmetic, literals } => {
            assert_eq!(column_names(emit), vec!["a", "b"]);
            assert_eq!(emit[0].alias, None);
            assert_eq!(arithmetic, &vec![("plus".to_string(), sum)]);
            assert_eq!(literals, &vec![("one".to_string(), DataType::Int(1))]);
        }
        other => panic!("expected a projection, found {:?}", other),
    }
    let leaf = c.make_project_node("v", parent, vec![aliased, column("b")], vec![], vec![], true).unwrap();
    assert_eq!(at(&c, leaf).columns, vec![Column::new("x", "v"), Column::new("b", "v")]);
    assert_eq!(
        c.make_project_node("w", 99, vec![], vec![], vec![], true),
        Err(MirError::UnknownView)
    );
}

#[test]
fn leaf_columns_belong_to_the_view() {
    let repeated = Column {
        name: "a".to_string(),
        alias: Some("a".to_string()),
        table: Some("t".to_string()),
        function: Some(Box::new(FunctionExpression::Max(column("b")))),
    };
    let clean = sanitize_leaf_column(repeated, "v");
    assert_eq!(clean.name, "a");
    assert_eq!(clean.alias, None);
    assert_eq!(clean.table, Some("v".to_string()));
    assert!(clean.function.is_none());
    let renamed = Column {
        name: "a".to_string(),
        alias: Some("x".to_string()),
        table: None,
        function: None,
    };
    let clean = sanitize_leaf_column(renamed, "v");
    assert_eq!(clean.alias, Some("x".to_string()));
    assert_eq!(clean.table, Some("v".to_string()));
}

#[test]
fn predicate_columns_are_listed_once() {
    let c = converter();
    let tree = ConditionExpression::LogicalOp(ConditionTree {
        operator: Operator::Or,
        left: Box::new(ConditionExpression::LogicalOp(ConditionTree {
            operator: Operator::And,
            left: Box::new(is(column("b"), 1)),
            right: Box::new(is(column("a"), 2)),
        })),
        right: Box::new(is(column("b"), 3)),
    });
    assert_eq!(c.predicate_columns(&tree), Ok(vec![column("b"), column("a")]));
    let not = ConditionExpression::NegationOp(Box::new(is(column("b"), 1)));
    assert_eq!(c.predicate_columns(&not), Err(MirError::Unsupported));
    assert!(c.predicate_mentions(&tree, &column("a")));
    assert!(!c.predicate_mentions(&tree, &Column::new("a", "u")));
}

#[test]
fn parameters_key_the_leaf() {
    let mut c = converter();
    let mut qg = on_t(vec![], 1);
    qg.relations[0].parameters = vec![column("b")];
    assert_eq!(qg.parameters(), vec![column("b")]);
    let q = c.named_query_to_mir("q", &plain(), &qg, true, everyone()).unwrap();
    let project = at(&c, 2);
    assert_eq!(column_names(&project.columns), vec!["a", "b"]);
    match &project.inner {
        MirNodeType::Project { literals, .. } => assert!(literals.is_empty()),
        other => panic!("expected a projection, found {:?}", other),
    }
    assert_eq!(at(&c, q.leaf).inner, MirNodeType::Leaf { node: 2, keys: vec![column("b")] });
    qg.group_by = vec![column("a")];
    assert_eq!(qg.group_columns(), vec![column("a"), column("b")]);
    qg.group_by = vec![column("b")];
    assert_eq!(qg.group_columns(), vec![column("b")]);
}

#[test]
fn literal_and_arithmetic_columns_are_projected() {
    let mut c = converter();
    let mut qg = on_t(vec![], 1);
    let double = ArithmeticExpression {
        op: ArithmeticOperator::Multiply,
        left: ArithmeticBase::Column(column("a")),
        right: ArithmeticBase::Scalar(Literal::Integer(2)),
        alias: None,
    };
    qg.columns.push(OutputColumn::Literal(LiteralColumn {
        name: "five".to_string(),
        table: None,
        value: Literal::Integer(5),
    }));
    qg.columns.push(OutputColumn::Arithmetic(ArithmeticColumn {
        name: "double".to_string(),
        table: None,
        expression: double.clone(),
    }));
    c.named_query_to_mir("q", &plain(), &qg, true, everyone()).unwrap();
    let project = at(&c, 2);
    assert_eq!(column_names(&project.columns), vec!["a", "five", "bogokey", "double"]);
    assert_eq!(
        project.inner,
        MirNodeType::Project {
            emit: vec![column("a")],
            arithmetic: vec![("double".to_string(), double)],
            literals: vec![
                ("five".to_string(), DataType::BigInt(5)),
                ("bogokey".to_string(), DataType::Int(0)),
            ],
        }
    );
    qg.columns.push(OutputColumn::Literal(LiteralColumn {
        name: "now".to_string(),
        table: None,
        value: Literal::CurrentTime,
    }));
    assert_eq!(
        c.named_query_to_mir("r", &plain(), &qg, true, everyone()),
        Err(MirError::Unsupported)
    );
    assert_eq!(c.node_count(), 4);
}

#[test]
fn literals_have_values() {
    assert_eq!(DataType::from_literal(&Literal::Null), Some(DataType::Null));
    assert_eq!(DataType::from_literal(&Literal::Integer(-4)), Some(DataType::BigInt(-4)));
    assert_eq!(
        DataType::from_literal(&Literal::String("s".to_string())),
        Some(DataType::Text("s".to_string()))
    );
    assert_eq!(DataType::from_literal(&Literal::FixedPoint(1, 5)), None);
    assert_eq!(DataType::from_literal(&Literal::Blob(vec![1])), None);
    assert_eq!(DataType::from_literal(&Literal::CurrentDate), None);
    assert_eq!(DataType::from_literal(&Literal::CurrentTimestamp), None);
    assert_eq!(DataType::from_literal(&Literal::Placeholder), None);
    assert_eq!(DataType::from_literals(&vec![]), Some(vec![]));
}

#[test]
fn columns_are_the_same_by_table_and_name() {
    let a = column("a");
    let aliased = Column {
        name: "a".to_string(),
        alias: Some("x".to_string()),
        table: Some("t".to_string()),
        function: None,
    };
    assert!(a.same_as(&aliased));
    assert!(a == aliased);
    assert!(!a.same_as(&Column::new("a", "u")));
    assert!(!a.same_as(&column("b")));
    let untabled = Column { name: "a".to_string(), alias: None, table: None, function: None };
    assert!(!a.same_as(&untabled));
    let copy = aliased.clone();
    assert_eq!(copy.alias, Some("x".to_string()));
}

#[test]
fn relations_are_sorted_by_name_and_keep_their_order() {
    let rel = |name: &str| QueryGraphNode {
        rel_name: name.to_string(),
        predicates: vec![],
        columns: vec![],
        parameters: vec![],
    };
    let mut qg = on_t(vec![], 1);
    qg.relations = vec![rel("users"), rel("b"), rel("computed_columns"), rel("b"), rel("a")];
    assert_eq!(qg.sorted_relations(), vec![4, 1, 3, 2, 0]);
    assert_eq!(qg.relation_position("b"), Some(1));
    assert_eq!(qg.relation_position("computed_columns"), Some(2));
    assert_eq!(qg.relation_position("nope"), None);
    assert!(qg.computed_columns().is_empty());
    qg.relations.clear();
    assert_eq!(qg.sorted_relations(), Vec::<usize>::new());
}

#[test]
fn singleton_query_is_its_own_root_and_leaf() {
    let q = MirQuery::singleton("t", 5);
    assert_eq!(q, MirQuery { name: "t".to_string(), roots: vec![5], leaf: 5 });
}

#[test]
fn chains_above_the_aggregate_skip_what_was_made() {
    let mut c = converter();
    let parent = c.get_view("t").unwrap();
    let mut created = vec![is(column("a"), 1)];
    let ces = vec![is(column("b"), 2), is(column("a"), 1), is(column("b"), 3)];
    let nodes = c.predicates_above_group_by("m", &ces, parent, &mut created).unwrap();
    assert_eq!(nodes, vec![2, 3]);
    assert_eq!(at(&c, 2).name, "m_mp0_f0");
    assert_eq!(at(&c, 3).name, "m_mp1_f0");
    assert_eq!(at(&c, 2).ancestors, vec![parent]);
    assert_eq!(at(&c, 3).ancestors, vec![2]);
    assert_eq!(created, vec![is(column("a"), 1), is(column("b"), 2), is(column("b"), 3)]);
    let not = ConditionExpression::NegationOp(Box::new(is(column("b"), 1)));
    let r = c.predicates_above_group_by("m", &vec![is(column("a"), 7), not], parent, &mut created);
    assert_eq!(r, Err(MirError::Unsupported));
    assert_eq!(created.len(), 3);
    assert_eq!(c.node_count(), 4);
}

#[test]
fn identity_and_leaf_read_one_node() {
    let mut c = converter();
    let parent = c.get_view("t").unwrap();
    let id = c.make_identity_node("same", parent, vec![column("a"), column("b")]).unwrap();
    assert_eq!(at(&c, id).inner, MirNodeType::Identity);
    assert_eq!(at(&c, id).ancestors, vec![parent]);
    assert_eq!(at(&c, id).name, "same");
    assert_eq!(at(&c, id).from_version, 0);
    let leaf = c
        .make_leaf_node("out", id, parent, vec![Column::new("a", "out")], vec![column("a")])
        .unwrap();
    assert_eq!(at(&c, leaf).inner, MirNodeType::Leaf { node: parent, keys: vec![column("a")] });
    assert_eq!(at(&c, leaf).ancestors, vec![id]);
    assert_eq!(c.make_identity_node("x", 99, vec![]), Err(MirError::UnknownView));
    assert_eq!(c.make_leaf_node("x", id, 99, vec![], vec![]), Err(MirError::UnknownView));
    assert_eq!(c.make_leaf_node("x", 99, id, vec![], vec![]), Err(MirError::UnknownView));
    assert_eq!(c.node_count(), 4);
}
