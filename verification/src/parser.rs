//! The syntax tree of a condition, the two kinds of statement, and the entry
//! point that reads a statement from text.

use crate::common::Operator;
use crate::insert::{insertion_at, spec_insertion, InsertStatement, InsertStatementView};
use crate::select::{selection_at, spec_selection, SelectStatement, SelectStatementView};
use vstd::prelude::*;
use vstd::string::*;

verus! {

/// A statement of one of the two kinds that are understood.
#[derive(Debug, PartialEq)]
pub enum SqlQuery {
    Select(SelectStatement),
    Insert(InsertStatement),
}

/// The mathematical value of a [`SqlQuery`].
pub enum SqlQueryView {
    Select(SelectStatementView),
    Insert(InsertStatementView),
}

impl View for SqlQuery {
    type V = SqlQueryView;

    open spec fn view(&self) -> SqlQueryView {
        match self {
            SqlQuery::Select(statement) => SqlQueryView::Select(statement@),
            SqlQuery::Insert(statement) => SqlQueryView::Insert(statement@),
        }
    }
}

/// A leaf of a condition.
#[derive(Debug, PartialEq)]
pub enum ConditionBase {
    /// A column of the table.
    Field(String),
    /// A literal value.
    Literal(String),
    /// The placeholder `?`, to be bound later.
    Placeholder,
}

/// An operator with its operands. `right` is absent only under a negation,
/// whose operand is `left`.
#[derive(Debug, PartialEq)]
pub struct ConditionTree {
    pub operator: Operator,
    pub left: Option<Box<ConditionExpression>>,
    pub right: Option<Box<ConditionExpression>>,
}

/// A condition: a comparison, a logical connective, or a leaf.
#[derive(Debug, PartialEq)]
pub enum ConditionExpression {
    ComparisonOp(ConditionTree),
    LogicalOp(ConditionTree),
    Base(ConditionBase),
}

/// The mathematical value of a [`ConditionBase`].
pub enum ConditionBaseView {
    Field(Seq<char>),
    Literal(Seq<char>),
    Placeholder,
}

/// The mathematical value of a [`ConditionTree`].
pub struct ConditionTreeView {
    pub operator: Operator,
    pub left: Option<Box<ConditionExpressionView>>,
    pub right: Option<Box<ConditionExpressionView>>,
}

/// The mathematical value of a [`ConditionExpression`].
pub enum ConditionExpressionView {
    ComparisonOp(ConditionTreeView),
    LogicalOp(ConditionTreeView),
    Base(ConditionBaseView),
}

impl View for ConditionBase {
    type V = ConditionBaseView;

    open spec fn view(&self) -> ConditionBaseView {
        match self {
            ConditionBase::Field(name) => ConditionBaseView::Field(name@),
            ConditionBase::Literal(text) => ConditionBaseView::Literal(text@),
            ConditionBase::Placeholder => ConditionBaseView::Placeholder,
        }
    }
}

/// The value of a condition.
pub open spec fn expression_view(e: ConditionExpression) -> ConditionExpressionView
    decreases e,
{
    match e {
        ConditionExpression::ComparisonOp(tree) => ConditionExpressionView::ComparisonOp(
            tree_view(tree),
        ),
        ConditionExpression::LogicalOp(tree) => ConditionExpressionView::LogicalOp(tree_view(tree)),
        ConditionExpression::Base(base) => ConditionExpressionView::Base(base@),
    }
}

/// The value of an operator with its operands.
pub open spec fn tree_view(tree: ConditionTree) -> ConditionTreeView
    decreases tree,
{
    ConditionTreeView {
        operator: tree.operator,
        left: match tree.left {
            Some(child) => Some(Box::new(expression_view(*child))),
            None => None,
        },
        right: match tree.right {
            Some(child) => Some(Box::new(expression_view(*child))),
            None => None,
        },
    }
}

/// The shape that every condition read from text has: an operator node has
/// its left operand, and it lacks its right operand only where the operator
/// is the negation.
pub open spec fn well_formed(e: ConditionExpressionView) -> bool
    decreases e,
{
    match e {
        ConditionExpressionView::Base(_) => true,
        ConditionExpressionView::ComparisonOp(tree) | ConditionExpressionView::LogicalOp(tree) => {
            &&& match tree.left {
                Some(child) => well_formed(*child),
                None => false,
            }
            &&& match tree.right {
                Some(child) => well_formed(*child),
                None => tree.operator == Operator::Not,
            }
        },
    }
}

impl View for ConditionTree {
    type V = ConditionTreeView;

    open spec fn view(&self) -> ConditionTreeView {
        tree_view(*self)
    }
}

impl View for ConditionExpression {
    type V = ConditionExpressionView;

    open spec fn view(&self) -> ConditionExpressionView {
        expression_view(*self)
    }
}

/// The statement that the bytes `s` hold: an `INSERT` statement where one
/// starts the input, else a `SELECT` statement where one starts it, else
/// nothing. What follows the end of the statement is not looked at.
pub open spec fn spec_parse_query(s: Seq<u8>) -> Option<SqlQueryView> {
    match spec_insertion(s, 0) {
        Some((statement, _)) => Some(SqlQueryView::Insert(statement)),
        None => match spec_selection(s, 0) {
            Some((statement, _)) => Some(SqlQueryView::Select(statement)),
            None => None,
        },
    }
}

/// What [`parse_query`] returned, as a mathematical value.
pub open spec fn query_result(r: Result<SqlQuery, &str>) -> Option<SqlQueryView> {
    match r {
        Ok(query) => Some(query@),
        Err(_) => None,
    }
}

/// Reads one statement from `input`. The result is the whole statement or
/// the one error that this function has, never a part of a statement.
pub fn parse_query(input: &str) -> (r: Result<SqlQuery, &str>)
    ensures
        query_result(r) == spec_parse_query(input.spec_bytes()),
        r matches Err(message) ==> message@ == "failed to parse query"@,
{
    let q_bytes = input.as_bytes();
    match insertion_at(q_bytes, 0) {
        Some((statement, _)) => {
            return Ok(SqlQuery::Insert(statement));
        },
        None => (),
    };
    match selection_at(q_bytes, 0) {
        Some((statement, _)) => {
            return Ok(SqlQuery::Select(statement));
        },
        None => (),
    };
    Err("failed to parse query")
}

} // verus!
