//! The SQL syntax tree that the lowering pass consumes: columns, literals,
//! column declarations, condition trees and the statement fragments that
//! carry ORDER BY and LIMIT.
//!
//! Every type has a deep view, a plain mathematical value in which strings
//! are sequences of characters and vectors are sequences. Contracts are
//! stated over those views.
use vstd::prelude::*;
use vstd::std_specs::cmp::PartialEqSpecImpl;

verus! {

/// Comparison and logical operators of condition trees.
#[derive(Clone, Copy, Debug, PartialEq, Eq, Hash, Structural)]
pub enum Operator {
    Not,
    And,
    Or,
    Like,
    NotLike,
    Equal,
    NotEqual,
    Greater,
    GreaterOrEqual,
    Less,
    LessOrEqual,
    In,
    Is,
}

impl DeepView for Operator {
    type V = Operator;

    open spec fn deep_view(&self) -> Operator {
        *self
    }
}

/// Direction of one ORDER BY column.
#[derive(Clone, Copy, Debug, PartialEq, Eq, Hash, Structural)]
pub enum OrderType {
    OrderAscending,
    OrderDescending,
}

impl DeepView for OrderType {
    type V = OrderType;

    open spec fn deep_view(&self) -> OrderType {
        *self
    }
}

/// Operator of an arithmetic output column.
#[derive(Clone, Copy, Debug, PartialEq, Eq, Hash, Structural)]
pub enum ArithmeticOperator {
    Add,
    Subtract,
    Multiply,
    Divide,
}

impl DeepView for ArithmeticOperator {
    type V = ArithmeticOperator;

    open spec fn deep_view(&self) -> ArithmeticOperator {
        *self
    }
}

/// Operator that combines the selects of a compound query.
#[derive(Clone, Copy, Debug, PartialEq, Eq, Hash, Structural)]
pub enum CompoundSelectOperator {
    Union,
    DistinctUnion,
    Intersect,
    Except,
}

/// Declared type of a table column.
#[derive(Clone, Copy, Debug, PartialEq, Eq, Hash, Structural)]
pub enum SqlType {
    Bool,
    Char(u16),
    Varchar(u16),
    Int(u16),
    UnsignedInt(u16),
    Bigint(u16),
    UnsignedBigint(u16),
    Tinyint(u16),
    UnsignedTinyint(u16),
    Blob,
    Longblob,
    Mediumblob,
    Tinyblob,
    Double,
    Float,
    Real,
    Tinytext,
    Mediumtext,
    Longtext,
    Text,
    Date,
    DateTime(u16),
    Timestamp,
    Binary(u16),
    Varbinary(u16),
    Decimal(u8, u8),
}

impl DeepView for SqlType {
    type V = SqlType;

    open spec fn deep_view(&self) -> SqlType {
        *self
    }
}

/// A literal value as written in a statement.
#[derive(Debug, PartialEq, Eq)]
pub enum Literal {
    Null,
    Integer(i64),
    FixedPoint(i32, i32),
    String(String),
    Blob(Vec<u8>),
    CurrentTime,
    CurrentDate,
    CurrentTimestamp,
    Placeholder,
}

/// A literal as a value: text is a sequence of characters, a blob a sequence of bytes.
pub ghost enum LiteralView {
    Null,
    Integer(i64),
    FixedPoint(i32, i32),
    String(Seq<char>),
    Blob(Seq<u8>),
    CurrentTime,
    CurrentDate,
    CurrentTimestamp,
    Placeholder,
}

impl DeepView for Literal {
    type V = LiteralView;

    open spec fn deep_view(&self) -> LiteralView {
        match self {
            Literal::Null => LiteralView::Null,
            Literal::Integer(i) => LiteralView::Integer(*i),
            Literal::FixedPoint(i, f) => LiteralView::FixedPoint(*i, *f),
            Literal::String(s) => LiteralView::String(s@),
            Literal::Blob(b) => LiteralView::Blob(b@),
            Literal::CurrentTime => LiteralView::CurrentTime,
            Literal::CurrentDate => LiteralView::CurrentDate,
            Literal::CurrentTimestamp => LiteralView::CurrentTimestamp,
            Literal::Placeholder => LiteralView::Placeholder,
        }
    }
}

impl Clone for Literal {
    fn clone(&self) -> (r: Literal)
        ensures
            r.deep_view() == self.deep_view(),
    {
        match self {
            Literal::Null => Literal::Null,
            Literal::Integer(i) => Literal::Integer(*i),
            Literal::FixedPoint(i, f) => Literal::FixedPoint(*i, *f),
            Literal::String(s) => Literal::String(s.clone()),
            Literal::Blob(b) => {
                let c = b.clone();
                assert(c@ =~= b@);
                Literal::Blob(c)
            },
            Literal::CurrentTime => Literal::CurrentTime,
            Literal::CurrentDate => Literal::CurrentDate,
            Literal::CurrentTimestamp => Literal::CurrentTimestamp,
            Literal::Placeholder => Literal::Placeholder,
        }
    }
}

/// Whether two byte strings hold the same bytes.
pub fn bytes_same(a: &Vec<u8>, b: &Vec<u8>) -> (r: bool)
    ensures
        r == (a@ == b@),
{
    if a.len() != b.len() {
        return false;
    }
    let mut i: usize = 0;
    while i < a.len()
        invariant
            a.len() == b.len(),
            i <= a.len(),
            forall|j: int| 0 <= j < i ==> a@[j] == b@[j],
        decreases a.len() - i,
    {
        if a[i] != b[i] {
            return false;
        }
        i += 1;
    }
    assert(a@ =~= b@);
    true
}

/// Whether two optional strings are both absent or hold the same text.
pub fn opt_string_same(a: &Option<String>, b: &Option<String>) -> (r: bool)
    ensures
        r == (a.deep_view() == b.deep_view()),
{
    match (a, b) {
        (None, None) => true,
        (Some(x), Some(y)) => *x == *y,
        _ => false,
    }
}

impl Literal {
    /// Structural equality of literals.
    pub fn same_as(&self, other: &Literal) -> (r: bool)
        ensures
            r == (self.deep_view() == other.deep_view()),
    {
        match (self, other) {
            (Literal::Null, Literal::Null) => true,
            (Literal::Integer(a), Literal::Integer(b)) => *a == *b,
            (Literal::FixedPoint(a, b), Literal::FixedPoint(c, d)) => *a == *c && *b == *d,
            (Literal::String(a), Literal::String(b)) => *a == *b,
            (Literal::Blob(a), Literal::Blob(b)) => bytes_same(a, b),
            (Literal::CurrentTime, Literal::CurrentTime) => true,
            (Literal::CurrentDate, Literal::CurrentDate) => true,
            (Literal::CurrentTimestamp, Literal::CurrentTimestamp) => true,
            (Literal::Placeholder, Literal::Placeholder) => true,
            _ => false,
        }
    }
}

/// Structural equality of literal lists.
pub fn literals_same(a: &Vec<Literal>, b: &Vec<Literal>) -> (r: bool)
    ensures
        r == (a.deep_view() == b.deep_view()),
{
    if a.len() != b.len() {
        assert(a.deep_view().len() != b.deep_view().len());
        return false;
    }
    let mut i: usize = 0;
    while i < a.len()
        invariant
            a.len() == b.len(),
            i <= a.len(),
            forall|j: int| 0 <= j < i ==> a@[j].deep_view() == b@[j].deep_view(),
        decreases a.len() - i,
    {
        if !a[i].same_as(&b[i]) {
            assert(a.deep_view()[i as int] != b.deep_view()[i as int]);
            return false;
        }
        i += 1;
    }
    assert(a.deep_view() =~= b.deep_view());
    true
}

/// A column reference. `function` is set on computed columns.
#[derive(Debug)]
pub struct Column {
    pub name: String,
    pub alias: Option<String>,
    pub table: Option<String>,
    pub function: Option<Box<FunctionExpression>>,
}

/// An aggregate or scalar function over a column.
#[derive(Debug, PartialEq, Eq)]
pub enum FunctionExpression {
    Avg(Column, bool),
    Count(Column, bool),
    CountStar,
    Sum(Column, bool),
    Max(Column),
    Min(Column),
    GroupConcat(Column, String),
}

/// A column as a value.
pub ghost struct ColumnView {
    pub name: Seq<char>,
    pub alias: Option<Seq<char>>,
    pub table: Option<Seq<char>>,
    pub function: Option<Box<FunctionView>>,
}

/// A function over a column as a value.
pub ghost enum FunctionView {
    Avg(ColumnView, bool),
    Count(ColumnView, bool),
    CountStar,
    Sum(ColumnView, bool),
    Max(ColumnView),
    Min(ColumnView),
    GroupConcat(ColumnView, Seq<char>),
}

/// The value of a column.
pub open spec fn column_view(c: Column) -> ColumnView
    decreases c,
{
    ColumnView {
        name: c.name@,
        alias: c.alias.deep_view(),
        table: c.table.deep_view(),
        function: match c.function {
            Some(f) => Some(Box::new(function_view(*f))),
            None => None,
        },
    }
}

/// The value of a function over a column.
pub open spec fn function_view(f: FunctionExpression) -> FunctionView
    decreases f,
{
    match f {
        FunctionExpression::Avg(c, d) => FunctionView::Avg(column_view(c), d),
        FunctionExpression::Count(c, d) => FunctionView::Count(column_view(c), d),
        FunctionExpression::CountStar => FunctionView::CountStar,
        FunctionExpression::Sum(c, d) => FunctionView::Sum(column_view(c), d),
        FunctionExpression::Max(c) => FunctionView::Max(column_view(c)),
        FunctionExpression::Min(c) => FunctionView::Min(column_view(c)),
        FunctionExpression::GroupConcat(c, s) => FunctionView::GroupConcat(column_view(c), s@),
    }
}

impl DeepView for Column {
    type V = ColumnView;

    open spec fn deep_view(&self) -> ColumnView {
        column_view(*self)
    }
}

impl DeepView for FunctionExpression {
    type V = FunctionView;

    open spec fn deep_view(&self) -> FunctionView {
        function_view(*self)
    }
}

impl ColumnView {
    /// Two columns are the same column when table and name agree; alias and
    /// function do not count.
    pub open spec fn same(self, other: ColumnView) -> bool {
        self.table == other.table && self.name == other.name
    }

    /// A plain column of a table: no alias, no function.
    pub open spec fn plain(name: Seq<char>, table: Seq<char>) -> ColumnView {
        ColumnView { name, alias: None, table: Some(table), function: None }
    }
}

impl Clone for Column {
    fn clone(&self) -> (r: Column)
        ensures
            r.deep_view() == self.deep_view(),
        decreases self,
    {
        Column {
            name: self.name.clone(),
            alias: self.alias.clone(),
            table: self.table.clone(),
            function: match &self.function {
                Some(f) => Some(Box::new((**f).clone())),
                None => None,
            },
        }
    }
}

impl Clone for FunctionExpression {
    fn clone(&self) -> (r: FunctionExpression)
        ensures
            r.deep_view() == self.deep_view(),
        decreases self,
    {
        match self {
            FunctionExpression::Avg(c, d) => FunctionExpression::Avg(c.clone(), *d),
            FunctionExpression::Count(c, d) => FunctionExpression::Count(c.clone(), *d),
            FunctionExpression::CountStar => FunctionExpression::CountStar,
            FunctionExpression::Sum(c, d) => FunctionExpression::Sum(c.clone(), *d),
            FunctionExpression::Max(c) => FunctionExpression::Max(c.clone()),
            FunctionExpression::Min(c) => FunctionExpression::Min(c.clone()),
            FunctionExpression::GroupConcat(c, s) => FunctionExpression::GroupConcat(
                c.clone(),
                s.clone(),
            ),
        }
    }
}

impl PartialEq for Column {
    fn eq(&self, other: &Column) -> (r: bool) {
        opt_string_same(&self.table, &other.table) && self.name == other.name
    }
}

impl PartialEqSpecImpl for Column {
    open spec fn obeys_eq_spec() -> bool {
        true
    }

    open spec fn eq_spec(&self, other: &Column) -> bool {
        self.deep_view().same(other.deep_view())
    }
}

impl Eq for Column {

}

impl Column {
    /// A plain column of a table: no alias, no function.
    pub fn new(name: &str, table: &str) -> (r: Column)
        ensures
            r.deep_view() == ColumnView::plain(name@, table@),
    {
        Column {
            name: name.to_owned(),
            alias: None,
            table: Some(table.to_owned()),
            function: None,
        }
    }

    /// Whether `self` and `other` name the same column (table and name).
    pub fn same_as(&self, other: &Column) -> (r: bool)
        ensures
            r == self.deep_view().same(other.deep_view()),
    {
        opt_string_same(&self.table, &other.table) && self.name == other.name
    }
}

/// Whether some column of `cols` is the same column as `c`.
pub open spec fn columns_contain(cols: Seq<ColumnView>, c: ColumnView) -> bool {
    exists|i: int| 0 <= i < cols.len() && (#[trigger] cols[i]).same(c)
}

/// Whether `cols` holds `c` (same table and name).
pub fn contains_column(cols: &Vec<Column>, c: &Column) -> (r: bool)
    ensures
        r == columns_contain(cols.deep_view(), c.deep_view()),
{
    let mut i: usize = 0;
    while i < cols.len()
        invariant
            i <= cols.len(),
            forall|j: int| 0 <= j < i ==> !(#[trigger] cols.deep_view()[j]).same(c.deep_view()),
        decreases cols.len() - i,
    {
        if cols[i].same_as(c) {
            assert(cols.deep_view()[i as int].same(c.deep_view()));
            return true;
        }
        i += 1;
    }
    false
}

/// A constraint attached to a column declaration.
#[derive(Debug, PartialEq, Eq)]
pub enum ColumnConstraint {
    NotNull,
    CharacterSet(String),
    Collation(String),
    DefaultValue(Literal),
    AutoIncrement,
    PrimaryKey,
    Unique,
}

/// A column constraint as a value.
pub ghost enum ColumnConstraintView {
    NotNull,
    CharacterSet(Seq<char>),
    Collation(Seq<char>),
    DefaultValue(LiteralView),
    AutoIncrement,
    PrimaryKey,
    Unique,
}

impl DeepView for ColumnConstraint {
    type V = ColumnConstraintView;

    open spec fn deep_view(&self) -> ColumnConstraintView {
        match self {
            ColumnConstraint::NotNull => ColumnConstraintView::NotNull,
            ColumnConstraint::CharacterSet(s) => ColumnConstraintView::CharacterSet(s@),
            ColumnConstraint::Collation(s) => ColumnConstraintView::Collation(s@),
            ColumnConstraint::DefaultValue(l) => ColumnConstraintView::DefaultValue(l.deep_view()),
            ColumnConstraint::AutoIncrement => ColumnConstraintView::AutoIncrement,
            ColumnConstraint::PrimaryKey => ColumnConstraintView::PrimaryKey,
            ColumnConstraint::Unique => ColumnConstraintView::Unique,
        }
    }
}

impl Clone for ColumnConstraint {
    fn clone(&self) -> (r: ColumnConstraint)
        ensures
            r.deep_view() == self.deep_view(),
    {
        match self {
            ColumnConstraint::NotNull => ColumnConstraint::NotNull,
            ColumnConstraint::CharacterSet(s) => ColumnConstraint::CharacterSet(s.clone()),
            ColumnConstraint::Collation(s) => ColumnConstraint::Collation(s.clone()),
            ColumnConstraint::DefaultValue(l) => ColumnConstraint::DefaultValue(l.clone()),
            ColumnConstraint::AutoIncrement => ColumnConstraint::AutoIncrement,
            ColumnConstraint::PrimaryKey => ColumnConstraint::PrimaryKey,
            ColumnConstraint::Unique => ColumnConstraint::Unique,
        }
    }
}

impl ColumnConstraint {
    /// Structural equality of constraints.
    pub fn same_as(&self, other: &ColumnConstraint) -> (r: bool)
        ensures
            r == (self.deep_view() == other.deep_view()),
    {
        match (self, other) {
            (ColumnConstraint::NotNull, ColumnConstraint::NotNull) => true,
            (ColumnConstraint::CharacterSet(a), ColumnConstraint::CharacterSet(b)) => *a == *b,
            (ColumnConstraint::Collation(a), ColumnConstraint::Collation(b)) => *a == *b,
            (ColumnConstraint::DefaultValue(a), ColumnConstraint::DefaultValue(b)) => a.same_as(b),
            (ColumnConstraint::AutoIncrement, ColumnConstraint::AutoIncrement) => true,
            (ColumnConstraint::PrimaryKey, ColumnConstraint::PrimaryKey) => true,
            (ColumnConstraint::Unique, ColumnConstraint::Unique) => true,
            _ => false,
        }
    }
}

/// Structural equality of constraint lists.
pub fn constraints_same(a: &Vec<ColumnConstraint>, b: &Vec<ColumnConstraint>) -> (r: bool)
    ensures
        r == (a.deep_view() == b.deep_view()),
{
    if a.len() != b.len() {
        assert(a.deep_view().len() != b.deep_view().len());
        return false;
    }
    let mut i: usize = 0;
    while i < a.len()
        invariant
            a.len() == b.len(),
            i <= a.len(),
            forall|j: int| 0 <= j < i ==> a@[j].deep_view() == b@[j].deep_view(),
        decreases a.len() - i,
    {
        if !a[i].same_as(&b[i]) {
            assert(a.deep_view()[i as int] != b.deep_view()[i as int]);
            return false;
        }
        i += 1;
    }
    assert(a.deep_view() =~= b.deep_view());
    true
}

/// A column declaration of CREATE TABLE.
#[derive(Debug, PartialEq, Eq)]
pub struct ColumnSpecification {
    pub column: Column,
    pub sql_type: SqlType,
    pub constraints: Vec<ColumnConstraint>,
}

/// A column declaration as a value.
pub ghost struct ColumnSpecView {
    pub column: ColumnView,
    pub sql_type: SqlType,
    pub constraints: Seq<ColumnConstraintView>,
}

impl DeepView for ColumnSpecification {
    type V = ColumnSpecView;

    open spec fn deep_view(&self) -> ColumnSpecView {
        ColumnSpecView {
            column: self.column.deep_view(),
            sql_type: self.sql_type,
            constraints: self.constraints.deep_view(),
        }
    }
}

impl ColumnSpecView {
    /// Two declarations are the same when they declare the same column
    /// with the same type and the same constraints.
    pub open spec fn same(self, other: ColumnSpecView) -> bool {
        self.column.same(other.column) && self.sql_type == other.sql_type && self.constraints
            == other.constraints
    }
}

impl Clone for ColumnSpecification {
    fn clone(&self) -> (r: ColumnSpecification)
        ensures
            r.deep_view() == self.deep_view(),
    {
        let constraints = self.constraints.clone();
        assert(constraints.deep_view() =~= self.constraints.deep_view());
        ColumnSpecification { column: self.column.clone(), sql_type: self.sql_type, constraints }
    }
}

impl ColumnSpecification {
    /// A declaration without constraints.
    pub fn new(column: Column, sql_type: SqlType) -> (r: ColumnSpecification)
        ensures
            r.deep_view() == (ColumnSpecView {
                column: column.deep_view(),
                sql_type,
                constraints: Seq::empty(),
            }),
    {
        let r = ColumnSpecification { column, sql_type, constraints: Vec::new() };
        assert(r.constraints.deep_view() =~= Seq::empty());
        r
    }

    /// Whether `self` and `other` are the same declaration.
    pub fn same_as(&self, other: &ColumnSpecification) -> (r: bool)
        ensures
            r == self.deep_view().same(other.deep_view()),
    {
        self.column.same_as(&other.column) && self.sql_type == other.sql_type && constraints_same(
            &self.constraints,
            &other.constraints,
        )
    }
}

/// Whether two schemas declare the same columns in the same order.
pub open spec fn schemas_same(a: Seq<ColumnSpecView>, b: Seq<ColumnSpecView>) -> bool {
    a.len() == b.len() && forall|i: int| 0 <= i < a.len() ==> (#[trigger] a[i]).same(b[i])
}

/// Whether some declaration of `specs` is the same as `c`.
pub open spec fn specs_contain(specs: Seq<ColumnSpecView>, c: ColumnSpecView) -> bool {
    exists|i: int| 0 <= i < specs.len() && (#[trigger] specs[i]).same(c)
}

/// Whether two schemas declare the same columns in the same order.
pub fn same_schema(a: &Vec<ColumnSpecification>, b: &Vec<ColumnSpecification>) -> (r: bool)
    ensures
        r == schemas_same(a.deep_view(), b.deep_view()),
{
    if a.len() != b.len() {
        return false;
    }
    let mut i: usize = 0;
    while i < a.len()
        invariant
            a.len() == b.len(),
            i <= a.len(),
            forall|j: int|
                0 <= j < i ==> (#[trigger] a.deep_view()[j]).same(b.deep_view()[j]),
        decreases a.len() - i,
    {
        if !a[i].same_as(&b[i]) {
            assert(!a.deep_view()[i as int].same(b.deep_view()[i as int]));
            return false;
        }
        i += 1;
    }
    true
}

/// Whether `specs` holds a declaration that is the same as `c`.
pub fn contains_spec(specs: &Vec<ColumnSpecification>, c: &ColumnSpecification) -> (r: bool)
    ensures
        r == specs_contain(specs.deep_view(), c.deep_view()),
{
    let mut i: usize = 0;
    while i < specs.len()
        invariant
            i <= specs.len(),
            forall|j: int|
                0 <= j < i ==> !(#[trigger] specs.deep_view()[j]).same(c.deep_view()),
        decreases specs.len() - i,
    {
        if specs[i].same_as(c) {
            assert(specs.deep_view()[i as int].same(c.deep_view()));
            return true;
        }
        i += 1;
    }
    false
}

/// A key declaration of CREATE TABLE.
#[derive(Debug, PartialEq, Eq)]
pub enum TableKey {
    PrimaryKey(Vec<Column>),
    UniqueKey(Option<String>, Vec<Column>),
    FulltextKey(Option<String>, Vec<Column>),
    Key(String, Vec<Column>),
}

/// A key declaration as a value.
pub ghost enum TableKeyView {
    PrimaryKey(Seq<ColumnView>),
    UniqueKey(Option<Seq<char>>, Seq<ColumnView>),
    FulltextKey(Option<Seq<char>>, Seq<ColumnView>),
    Key(Seq<char>, Seq<ColumnView>),
}

impl DeepView for TableKey {
    type V = TableKeyView;

    open spec fn deep_view(&self) -> TableKeyView {
        match self {
            TableKey::PrimaryKey(c) => TableKeyView::PrimaryKey(c.deep_view()),
            TableKey::UniqueKey(n, c) => TableKeyView::UniqueKey(n.deep_view(), c.deep_view()),
            TableKey::FulltextKey(n, c) => TableKeyView::FulltextKey(n.deep_view(), c.deep_view()),
            TableKey::Key(n, c) => TableKeyView::Key(n@, c.deep_view()),
        }
    }
}

/// The operand at a leaf of a condition tree.
#[derive(Debug, PartialEq, Eq)]
pub enum ConditionBase {
    Field(Column),
    Literal(Literal),
    LiteralList(Vec<Literal>),
}

/// A binary node of a condition tree.
#[derive(Debug, PartialEq, Eq)]
pub struct ConditionTree {
    pub operator: Operator,
    pub left: Box<ConditionExpression>,
    pub right: Box<ConditionExpression>,
}

/// A boolean condition over columns and literals.
#[derive(Debug, PartialEq, Eq)]
pub enum ConditionExpression {
    ComparisonOp(ConditionTree),
    LogicalOp(ConditionTree),
    NegationOp(Box<ConditionExpression>),
    Base(ConditionBase),
}

/// The operand at a leaf of a condition as a value.
pub ghost enum ConditionBaseView {
    Field(ColumnView),
    Literal(LiteralView),
    LiteralList(Seq<LiteralView>),
}

/// A binary node of a condition as a value.
pub ghost struct ConditionTreeView {
    pub operator: Operator,
    pub left: Box<ConditionView>,
    pub right: Box<ConditionView>,
}

/// A condition as a value.
pub ghost enum ConditionView {
    ComparisonOp(ConditionTreeView),
    LogicalOp(ConditionTreeView),
    NegationOp(Box<ConditionView>),
    Base(ConditionBaseView),
}

impl DeepView for ConditionBase {
    type V = ConditionBaseView;

    open spec fn deep_view(&self) -> ConditionBaseView {
        match self {
            ConditionBase::Field(c) => ConditionBaseView::Field(c.deep_view()),
            ConditionBase::Literal(l) => ConditionBaseView::Literal(l.deep_view()),
            ConditionBase::LiteralList(ll) => ConditionBaseView::LiteralList(ll.deep_view()),
        }
    }
}

/// The value of a binary node of a condition.
pub open spec fn condition_tree_view(t: ConditionTree) -> ConditionTreeView
    decreases t,
{
    ConditionTreeView {
        operator: t.operator,
        left: Box::new(condition_view(*t.left)),
        right: Box::new(condition_view(*t.right)),
    }
}

/// The value of a condition.
pub open spec fn condition_view(e: ConditionExpression) -> ConditionView
    decreases e,
{
    match e {
        ConditionExpression::ComparisonOp(t) => ConditionView::ComparisonOp(condition_tree_view(t)),
        ConditionExpression::LogicalOp(t) => ConditionView::LogicalOp(condition_tree_view(t)),
        ConditionExpression::NegationOp(inner) => ConditionView::NegationOp(
            Box::new(condition_view(*inner)),
        ),
        ConditionExpression::Base(b) => ConditionView::Base(b.deep_view()),
    }
}

impl DeepView for ConditionTree {
    type V = ConditionTreeView;

    open spec fn deep_view(&self) -> ConditionTreeView {
        condition_tree_view(*self)
    }
}

impl DeepView for ConditionExpression {
    type V = ConditionView;

    open spec fn deep_view(&self) -> ConditionView {
        condition_view(*self)
    }
}

impl Clone for ConditionBase {
    fn clone(&self) -> (r: ConditionBase)
        ensures
            r.deep_view() == self.deep_view(),
    {
        match self {
            ConditionBase::Field(c) => ConditionBase::Field(c.clone()),
            ConditionBase::Literal(l) => ConditionBase::Literal(l.clone()),
            ConditionBase::LiteralList(ll) => {
                let c = ll.clone();
                assert(c.deep_view() =~= ll.deep_view());
                ConditionBase::LiteralList(c)
            },
        }
    }
}

impl Clone for ConditionTree {
    fn clone(&self) -> (r: ConditionTree)
        ensures
            r.deep_view() == self.deep_view(),
        decreases self,
    {
        ConditionTree {
            operator: self.operator,
            left: Box::new((*self.left).clone()),
            right: Box::new((*self.right).clone()),
        }
    }
}

impl Clone for ConditionExpression {
    fn clone(&self) -> (r: ConditionExpression)
        ensures
            r.deep_view() == self.deep_view(),
        decreases self,
    {
        match self {
            ConditionExpression::ComparisonOp(t) => ConditionExpression::ComparisonOp(t.clone()),
            ConditionExpression::LogicalOp(t) => ConditionExpression::LogicalOp(t.clone()),
            ConditionExpression::NegationOp(inner) => ConditionExpression::NegationOp(
                Box::new((**inner).clone()),
            ),
            ConditionExpression::Base(b) => ConditionExpression::Base(b.clone()),
        }
    }
}

impl ConditionBaseView {
    /// Equality of operands, columns compared by table and name.
    pub open spec fn same(self, other: ConditionBaseView) -> bool {
        match (self, other) {
            (ConditionBaseView::Field(a), ConditionBaseView::Field(b)) => a.same(b),
            (ConditionBaseView::Literal(a), ConditionBaseView::Literal(b)) => a == b,
            (ConditionBaseView::LiteralList(a), ConditionBaseView::LiteralList(b)) => a == b,
            _ => false,
        }
    }
}

/// Equality of condition trees, columns compared by table and name.
pub open spec fn condition_tree_same(a: ConditionTreeView, b: ConditionTreeView) -> bool
    decreases a,
{
    a.operator == b.operator && condition_same(*a.left, *b.left) && condition_same(
        *a.right,
        *b.right,
    )
}

/// Equality of conditions, columns compared by table and name.
pub open spec fn condition_same(a: ConditionView, b: ConditionView) -> bool
    decreases a,
{
    match (a, b) {
        (ConditionView::ComparisonOp(x), ConditionView::ComparisonOp(y)) => condition_tree_same(
            x,
            y,
        ),
        (ConditionView::LogicalOp(x), ConditionView::LogicalOp(y)) => condition_tree_same(x, y),
        (ConditionView::NegationOp(x), ConditionView::NegationOp(y)) => condition_same(*x, *y),
        (ConditionView::Base(x), ConditionView::Base(y)) => x.same(y),
        _ => false,
    }
}

impl ConditionBase {
    /// Whether two operands are equal, columns compared by table and name.
    pub fn same_as(&self, other: &ConditionBase) -> (r: bool)
        ensures
            r == self.deep_view().same(other.deep_view()),
    {
        match (self, other) {
            (ConditionBase::Field(a), ConditionBase::Field(b)) => a.same_as(b),
            (ConditionBase::Literal(a), ConditionBase::Literal(b)) => a.same_as(b),
            (ConditionBase::LiteralList(a), ConditionBase::LiteralList(b)) => literals_same(a, b),
            _ => false,
        }
    }
}

impl ConditionTree {
    /// Whether two trees are equal, columns compared by table and name.
    pub fn same_as(&self, other: &ConditionTree) -> (r: bool)
        ensures
            r == condition_tree_same(self.deep_view(), other.deep_view()),
        decreases self,
    {
        self.operator == other.operator && (*self.left).same_as(&*other.left) && (
        *self.right).same_as(&*other.right)
    }
}

impl ConditionExpression {
    /// Whether two conditions are equal, columns compared by table and name.
    pub fn same_as(&self, other: &ConditionExpression) -> (r: bool)
        ensures
            r == condition_same(self.deep_view(), other.deep_view()),
        decreases self,
    {
        match (self, other) {
            (ConditionExpression::ComparisonOp(x), ConditionExpression::ComparisonOp(y)) => {
                x.same_as(y)
            },
            (ConditionExpression::LogicalOp(x), ConditionExpression::LogicalOp(y)) => x.same_as(y),
            (ConditionExpression::NegationOp(x), ConditionExpression::NegationOp(y)) => (
            **x).same_as(&**y),
            (ConditionExpression::Base(x), ConditionExpression::Base(y)) => x.same_as(y),
            _ => false,
        }
    }
}

/// An operand of an arithmetic output column.
#[derive(Debug, PartialEq, Eq)]
pub enum ArithmeticBase {
    Column(Column),
    Scalar(Literal),
}

/// An arithmetic output column, `left op right`.
#[derive(Debug, PartialEq, Eq)]
pub struct ArithmeticExpression {
    pub op: ArithmeticOperator,
    pub left: ArithmeticBase,
    pub right: ArithmeticBase,
    pub alias: Option<String>,
}

/// An operand of an arithmetic column as a value.
pub ghost enum ArithmeticBaseView {
    Column(ColumnView),
    Scalar(LiteralView),
}

/// An arithmetic column as a value.
pub ghost struct ArithmeticView {
    pub op: ArithmeticOperator,
    pub left: ArithmeticBaseView,
    pub right: ArithmeticBaseView,
    pub alias: Option<Seq<char>>,
}

impl DeepView for ArithmeticBase {
    type V = ArithmeticBaseView;

    open spec fn deep_view(&self) -> ArithmeticBaseView {
        match self {
            ArithmeticBase::Column(c) => ArithmeticBaseView::Column(c.deep_view()),
            ArithmeticBase::Scalar(l) => ArithmeticBaseView::Scalar(l.deep_view()),
        }
    }
}

impl DeepView for ArithmeticExpression {
    type V = ArithmeticView;

    open spec fn deep_view(&self) -> ArithmeticView {
        ArithmeticView {
            op: self.op,
            left: self.left.deep_view(),
            right: self.right.deep_view(),
            alias: self.alias.deep_view(),
        }
    }
}

impl Clone for ArithmeticBase {
    fn clone(&self) -> (r: ArithmeticBase)
        ensures
            r.deep_view() == self.deep_view(),
    {
        match self {
            ArithmeticBase::Column(c) => ArithmeticBase::Column(c.clone()),
            ArithmeticBase::Scalar(l) => ArithmeticBase::Scalar(l.clone()),
        }
    }
}

impl Clone for ArithmeticExpression {
    fn clone(&self) -> (r: ArithmeticExpression)
        ensures
            r.deep_view() == self.deep_view(),
    {
        ArithmeticExpression {
            op: self.op,
            left: self.left.clone(),
            right: self.right.clone(),
            alias: self.alias.clone(),
        }
    }
}

/// ORDER BY: the columns and their directions.
#[derive(Debug, PartialEq, Eq)]
pub struct OrderClause {
    pub columns: Vec<(Column, OrderType)>,
}

/// LIMIT and OFFSET.
#[derive(Clone, Copy, Debug, PartialEq, Eq, Structural)]
pub struct LimitClause {
    pub limit: u64,
    pub offset: u64,
}

/// What the lowering reads of a SELECT statement; the rest of the
/// statement reaches it as a query graph.
#[derive(Debug, PartialEq, Eq)]
pub struct SelectStatement {
    pub order: Option<OrderClause>,
    pub limit: Option<LimitClause>,
}

/// A table reference.
#[derive(Debug, PartialEq, Eq)]
pub struct Table {
    pub name: String,
    pub alias: Option<String>,
}

/// CREATE TABLE.
#[derive(Debug, PartialEq, Eq)]
pub struct CreateTableStatement {
    pub table: Table,
    pub fields: Vec<ColumnSpecification>,
    pub keys: Option<Vec<TableKey>>,
}

/// The statements that the lowering is handed.
#[derive(Debug, PartialEq, Eq)]
pub enum SqlQuery {
    CreateTable(CreateTableStatement),
    Select(SelectStatement),
}

/// The view of an ORDER BY clause: its columns with their directions.
pub open spec fn order_view(o: Option<OrderClause>) -> Option<Seq<(ColumnView, OrderType)>> {
    match o {
        Some(oc) => Some(oc.columns.deep_view()),
        None => None,
    }
}

} // verus!
