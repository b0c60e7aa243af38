//! Turns the condition of a query, as a parser hands it over, into an
//! expression that a processor evaluates.

use crate::dag::Dag;
use crate::decimal::{i64_of, parse_i64};
use crate::types::text;
use vstd::prelude::*;
use vstd::utf8::encode_utf8;

verus! {

/// What the builder cannot do.
#[derive(Debug, PartialEq, Eq)]
pub enum DozerSqlError {
    NotImplemented(String),
}

/// A literal of a query.
#[derive(Debug, PartialEq, Eq)]
pub enum SqlValue {
    /// A number, as it was written.
    Number(String),
    SingleQuotedString(String),
    DoubleQuotedString(String),
    /// Any other literal.
    Other,
}

/// An operator between two expressions of a query.
#[derive(Clone, Copy, Debug, PartialEq, Eq, Structural)]
pub enum BinaryOperator {
    Gt,
    GtEq,
    Lt,
    LtEq,
    Eq,
    NotEq,
    Plus,
    Minus,
    Multiply,
    Divide,
    Modulo,
    And,
    Or,
    BitwiseAnd,
    BitwiseOr,
    StringConcat,
    /// Any other operator.
    Other,
}

/// An expression of a query.
#[derive(Debug, PartialEq, Eq)]
pub enum SqlExpr {
    Identifier(String),
    Value(SqlValue),
    BinaryOp { left: Box<SqlExpr>, op: BinaryOperator, right: Box<SqlExpr> },
    /// Any other expression.
    Other,
}

/// The part of a `SELECT` that the builder looks at: its condition.
#[derive(Debug, PartialEq, Eq)]
pub struct Select {
    pub selection: Option<SqlExpr>,
}

/// The body of a query.
#[derive(Debug, PartialEq, Eq)]
pub enum SetExpr {
    Select(Box<Select>),
    /// A query in parentheses.
    Query(Box<Query>),
    /// Any other body.
    Other,
}

/// A query.
#[derive(Debug, PartialEq, Eq)]
pub struct Query {
    pub body: Box<SetExpr>,
}

/// A statement.
#[derive(Debug, PartialEq, Eq)]
pub enum Statement {
    Query(Box<Query>),
    /// Any other statement.
    Other,
}

/// An operator that a processor can apply.
#[derive(Clone, Copy, Debug, PartialEq, Eq, Structural)]
pub enum Operator {
    Gt,
    Gte,
    Lt,
    Lte,
    Eq,
    Ne,
    Add,
    Sub,
    Mul,
    Div,
    Mod,
    And,
    Or,
}

/// An expression that a processor evaluates.
#[derive(Debug, PartialEq, Eq)]
pub enum Expression {
    /// The value of a column of the row.
    Column(String),
    /// A whole number.
    Integer(i64),
    /// A number that is no 64-bit whole number, as it was written.
    Real(String),
    Text(String),
    Binary { op: Operator, left: Box<Expression>, right: Box<Expression> },
}

/// What an `Expression` holds, as a mathematical value.
pub enum ExpressionView {
    Column(Seq<char>),
    Integer(i64),
    Real(Seq<char>),
    Text(Seq<char>),
    Binary { op: Operator, left: Box<ExpressionView>, right: Box<ExpressionView> },
}

/// The mathematical value of an expression.
pub open spec fn expression_view(expression: Expression) -> ExpressionView
    decreases expression,
{
    match expression {
        Expression::Column(name) => ExpressionView::Column(name@),
        Expression::Integer(value) => ExpressionView::Integer(value),
        Expression::Real(words) => ExpressionView::Real(words@),
        Expression::Text(words) => ExpressionView::Text(words@),
        Expression::Binary { op, left, right } => ExpressionView::Binary {
            op,
            left: Box::new(expression_view(*left)),
            right: Box::new(expression_view(*right)),
        },
    }
}

impl View for Expression {
    type V = ExpressionView;

    open spec fn view(&self) -> ExpressionView {
        expression_view(*self)
    }
}

/// The operator that a processor applies for an operator of a query, or why
/// there is none.
pub open spec fn operator_of(op: BinaryOperator) -> Result<Operator, Seq<char>> {
    match op {
        BinaryOperator::Gt => Ok(Operator::Gt),
        BinaryOperator::GtEq => Ok(Operator::Gte),
        BinaryOperator::Lt => Ok(Operator::Lt),
        BinaryOperator::LtEq => Ok(Operator::Lte),
        BinaryOperator::Eq => Ok(Operator::Eq),
        BinaryOperator::NotEq => Ok(Operator::Ne),
        BinaryOperator::Plus => Ok(Operator::Add),
        BinaryOperator::Minus => Ok(Operator::Sub),
        BinaryOperator::Multiply => Ok(Operator::Mul),
        BinaryOperator::Divide => Ok(Operator::Div),
        BinaryOperator::Modulo => Ok(Operator::Mod),
        BinaryOperator::And => Ok(Operator::And),
        BinaryOperator::Or => Ok(Operator::Or),
        BinaryOperator::BitwiseAnd => Err("Unsupported operator BITWISE AND."@),
        BinaryOperator::BitwiseOr => Err("Unsupported operator BITWISE OR."@),
        BinaryOperator::StringConcat => Err("Unsupported operator CONCAT."@),
        BinaryOperator::Other => Err("Unsupported operator."@),
    }
}

/// The expression for a number as it was written: a whole number where the
/// text spells one of 64 bits, else the text itself.
pub open spec fn number_of(words: Seq<char>) -> ExpressionView {
    match i64_of(encode_utf8(words)) {
        Some(value) => ExpressionView::Integer(value),
        None => ExpressionView::Real(words),
    }
}

/// The expression that a processor evaluates for an expression of a query,
/// or why there is none. Of two failing sides of an operator the left one
/// is reported; a failing side is reported before the operator.
pub open spec fn translation(expression: SqlExpr) -> Result<ExpressionView, Seq<char>>
    decreases expression,
{
    match expression {
        SqlExpr::Identifier(name) => Ok(ExpressionView::Column(name@)),
        SqlExpr::Value(SqlValue::Number(words)) => Ok(number_of(words@)),
        SqlExpr::Value(SqlValue::SingleQuotedString(words)) => Ok(ExpressionView::Text(words@)),
        SqlExpr::Value(SqlValue::DoubleQuotedString(words)) => Ok(ExpressionView::Text(words@)),
        SqlExpr::BinaryOp { left, op, right } => match translation(*left) {
            Err(why) => Err(why),
            Ok(left_side) => match translation(*right) {
                Err(why) => Err(why),
                Ok(right_side) => match operator_of(op) {
                    Err(why) => Err(why),
                    Ok(operator) => Ok(
                        ExpressionView::Binary {
                            op: operator,
                            left: Box::new(left_side),
                            right: Box::new(right_side),
                        },
                    ),
                },
            },
        },
        _ => Err("Unsupported expression."@),
    }
}

/// The number of parts of an expression of a query.
pub open spec fn size(expression: SqlExpr) -> nat
    decreases expression,
{
    match expression {
        SqlExpr::BinaryOp { left, op, right } => 1 + size(*left) + size(*right),
        _ => 1,
    }
}

/// `result` is what the builder answers for `expected`.
pub open spec fn built(expected: Result<ExpressionView, Seq<char>>, result: Result<Expression, DozerSqlError>) -> bool {
    match expected {
        Ok(expression) => result matches Ok(found) && found@ == expression,
        Err(why) => result matches Err(DozerSqlError::NotImplemented(words)) && words@ == why,
    }
}

/// Why the builder cannot take the condition of a `SELECT`, if it cannot.
pub open spec fn select_refusal(select: Select) -> Option<Seq<char>> {
    match select.selection {
        None => Some("Unsupported WHERE clause."@),
        Some(expression) => match translation(expression) {
            Ok(_) => None,
            Err(why) => Some(why),
        },
    }
}

/// Why the builder cannot take the body of a query, if it cannot.
pub open spec fn set_expr_refusal(set_expr: SetExpr) -> Option<Seq<char>>
    decreases set_expr,
{
    match set_expr {
        SetExpr::Select(select) => select_refusal(*select),
        SetExpr::Query(query) => set_expr_refusal(*query.body),
        SetExpr::Other => Some("Unsupported Query."@),
    }
}

/// Why the builder cannot take a statement, if it cannot: it takes queries
/// whose body is, inside any number of parentheses, a `SELECT` with a
/// condition that it can translate.
pub open spec fn statement_refusal(statement: Statement) -> Option<Seq<char>> {
    match statement {
        Statement::Query(query) => set_expr_refusal(*query.body),
        Statement::Other => Some("Unsupported Query."@),
    }
}

/// `result` is what the builder answers: an empty graph, or the refusal.
pub open spec fn pipeline_built(refusal: Option<Seq<char>>, result: Result<Dag, DozerSqlError>) -> bool {
    match refusal {
        None => result matches Ok(dag) && dag.wf() && dag.nodes@.len() == 0 && dag.edges@.len() == 0,
        Some(why) => result matches Err(DozerSqlError::NotImplemented(words)) && words@ == why,
    }
}

/// The depth of the parentheses of the body of a query.
pub open spec fn depth(set_expr: SetExpr) -> nat
    decreases set_expr,
{
    match set_expr {
        SetExpr::Query(query) => 1 + depth(*query.body),
        _ => 0,
    }
}

/// Builds the expressions of a pipeline from the expressions of a query.
pub struct PipelineBuilder {}

impl PipelineBuilder {
    /// The graph for a statement. So far the builder checks the condition of
    /// the query and builds an empty graph.
    pub fn statement_to_pipeline(statement: Statement) -> (result: Result<Dag, DozerSqlError>)
        ensures
            pipeline_built(statement_refusal(statement), result),
    {
        match statement {
            Statement::Query(query) => PipelineBuilder::query_to_pipeline(*query),
            _ => Err(DozerSqlError::NotImplemented(text("Unsupported Query."))),
        }
    }

    /// The graph for a query.
    pub fn query_to_pipeline(query: Query) -> (result: Result<Dag, DozerSqlError>)
        ensures
            pipeline_built(set_expr_refusal(*query.body), result),
        decreases depth(*query.body), 1nat,
    {
        PipelineBuilder::set_expr_to_pipeline(*query.body)
    }

    /// The graph for the body of a query.
    pub fn set_expr_to_pipeline(set_expr: SetExpr) -> (result: Result<Dag, DozerSqlError>)
        ensures
            pipeline_built(set_expr_refusal(set_expr), result),
        decreases depth(set_expr), 0nat,
    {
        match set_expr {
            SetExpr::Select(s) => PipelineBuilder::select_to_pipeline(*s),
            SetExpr::Query(q) => PipelineBuilder::query_to_pipeline(*q),
            _ => Err(DozerSqlError::NotImplemented(text("Unsupported Query."))),
        }
    }

    /// The graph for a `SELECT`.
    pub fn select_to_pipeline(select: Select) -> (result: Result<Dag, DozerSqlError>)
        ensures
            pipeline_built(select_refusal(select), result),
    {
        // Where clause
        match PipelineBuilder::selection_to_processor(select.selection) {
            Ok(_) => Ok(Dag::new()),
            Err(e) => Err(e),
        }
    }

    /// The processor for the columns of a `SELECT`: there is none yet.
    pub fn projection_to_processor() -> (result: Result<Expression, DozerSqlError>)
        ensures
            built(Err("Unsupported SELECT."@), result),
    {
        Err(DozerSqlError::NotImplemented(text("Unsupported SELECT.")))
    }

    /// The expression for a number as it was written.
    pub fn parse_sql_number(n: &str) -> (number: Expression)
        ensures
            number@ == number_of(n@),
    {
        match parse_i64(n.as_bytes()) {
            Some(value) => Expression::Integer(value),
            None => Expression::Real(text(n)),
        }
    }

    /// The expression for two expressions of a query with an operator between them.
    pub fn parse_sql_binary_op(left: SqlExpr, op: BinaryOperator, right: SqlExpr) -> (result: Result<
        Expression,
        DozerSqlError,
    >)
        ensures
            built(translation(SqlExpr::BinaryOp { left: Box::new(left), op, right: Box::new(right) }), result),
        decreases size(left) + size(right) + 1, 0nat,
    {
        let left_op = match PipelineBuilder::parse_sql_expression(left) {
            Ok(expression) => expression,
            Err(e) => {
                return Err(e);
            },
        };
        let right_op = match PipelineBuilder::parse_sql_expression(right) {
            Ok(expression) => expression,
            Err(e) => {
                return Err(e);
            },
        };
        let operator = match op {
            BinaryOperator::Gt => Operator::Gt,
            BinaryOperator::GtEq => Operator::Gte,
            BinaryOperator::Lt => Operator::Lt,
            BinaryOperator::LtEq => Operator::Lte,
            BinaryOperator::Eq => Operator::Eq,
            BinaryOperator::NotEq => Operator::Ne,
            BinaryOperator::Plus => Operator::Add,
            BinaryOperator::Minus => Operator::Sub,
            BinaryOperator::Multiply => Operator::Mul,
            BinaryOperator::Divide => Operator::Div,
            BinaryOperator::Modulo => Operator::Mod,
            BinaryOperator::And => Operator::And,
            BinaryOperator::Or => Operator::Or,
            BinaryOperator::BitwiseAnd => {
                return Err(DozerSqlError::NotImplemented(text("Unsupported operator BITWISE AND.")));
            },
            BinaryOperator::BitwiseOr => {
                return Err(DozerSqlError::NotImplemented(text("Unsupported operator BITWISE OR.")));
            },
            BinaryOperator::StringConcat => {
                return Err(DozerSqlError::NotImplemented(text("Unsupported operator CONCAT.")));
            },
            BinaryOperator::Other => {
                return Err(DozerSqlError::NotImplemented(text("Unsupported operator.")));
            },
        };
        Ok(Expression::Binary { op: operator, left: Box::new(left_op), right: Box::new(right_op) })
    }

    /// The expression that a processor evaluates for an expression of a query.
    pub fn parse_sql_expression(expression: SqlExpr) -> (result: Result<Expression, DozerSqlError>)
        ensures
            built(translation(expression), result),
        decreases size(expression), 1nat,
    {
        match expression {
            SqlExpr::Identifier(i) => Ok(Expression::Column(i)),
            SqlExpr::Value(SqlValue::Number(n)) => Ok(PipelineBuilder::parse_sql_number(n.as_str())),
            SqlExpr::Value(SqlValue::SingleQuotedString(s)) => Ok(Expression::Text(s)),
            SqlExpr::Value(SqlValue::DoubleQuotedString(s)) => Ok(Expression::Text(s)),
            SqlExpr::BinaryOp { left, op, right } => PipelineBuilder::parse_sql_binary_op(*left, op, *right),
            _ => Err(DozerSqlError::NotImplemented(text("Unsupported expression."))),
        }
    }

    /// The expression of the condition of a query. A query without a
    /// condition is not taken.
    pub fn selection_to_processor(selection: Option<SqlExpr>) -> (result: Result<Expression, DozerSqlError>)
        ensures
            match selection {
                Some(expression) => built(translation(expression), result),
                None => built(Err("Unsupported WHERE clause."@), result),
            },
    {
        match selection {
            Some(expression) => PipelineBuilder::parse_sql_expression(expression),
            None => Err(DozerSqlError::NotImplemented(text("Unsupported WHERE clause."))),
        }
    }
}

} // verus!
