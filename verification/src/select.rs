//! The `SELECT` statement and its clauses.

use crate::common::{
    field_list, spec_field_list, spec_statement_terminator, spec_table_reference,
    spec_unsigned_number, statement_terminator, table_reference, unsigned_number,
};
use crate::condition::{condition_at, condition_expr_at, spec_condition_expr};
use crate::parser::{ConditionExpression, ConditionExpressionView};
use crate::scan::{caseless_tag, run1, skip, spec_caseless_tag, spec_run1, spec_skip, ByteClass};
use crate::text::texts;
use vstd::prelude::*;
use vstd::slice::slice_subrange;

verus! {

/// A `GROUP BY` clause. The grammar never produces one: the slot is kept for
/// later.
#[derive(Debug, PartialEq)]
pub struct GroupByClause {
    pub columns: Vec<String>,
    pub having: String,
}

/// The direction of an `ORDER BY` clause.
#[derive(Clone, Copy, Debug, PartialEq, Eq, Structural)]
pub enum OrderType {
    OrderAscending,
    OrderDescending,
}

/// An `ORDER BY` clause: the columns, and the direction (ascending where none
/// is written).
#[derive(Debug, PartialEq)]
pub struct OrderClause {
    pub order_cols: Vec<String>,
    pub order_type: OrderType,
}

/// A `LIMIT` clause: the limit, and the offset (zero where none is written).
#[derive(Clone, Copy, Debug, PartialEq, Eq, Structural)]
pub struct LimitClause {
    pub limit: u64,
    pub offset: u64,
}

/// A `SELECT` statement.
#[derive(Debug, PartialEq)]
pub struct SelectStatement {
    pub table: String,
    pub distinct: bool,
    pub fields: Vec<String>,
    pub where_clause: Option<ConditionExpression>,
    pub group_by: Option<GroupByClause>,
    pub order: Option<OrderClause>,
    pub limit: Option<LimitClause>,
}

/// The mathematical value of a [`GroupByClause`].
pub struct GroupByClauseView {
    pub columns: Seq<Seq<char>>,
    pub having: Seq<char>,
}

/// The mathematical value of an [`OrderClause`].
pub struct OrderClauseView {
    pub order_cols: Seq<Seq<char>>,
    pub order_type: OrderType,
}

/// The mathematical value of a [`SelectStatement`].
pub struct SelectStatementView {
    pub table: Seq<char>,
    pub distinct: bool,
    pub fields: Seq<Seq<char>>,
    pub where_clause: Option<ConditionExpressionView>,
    pub group_by: Option<GroupByClauseView>,
    pub order: Option<OrderClauseView>,
    pub limit: Option<LimitClause>,
}

impl View for GroupByClause {
    type V = GroupByClauseView;

    open spec fn view(&self) -> GroupByClauseView {
        GroupByClauseView { columns: texts(self.columns@), having: self.having@ }
    }
}

impl View for OrderClause {
    type V = OrderClauseView;

    open spec fn view(&self) -> OrderClauseView {
        OrderClauseView { order_cols: texts(self.order_cols@), order_type: self.order_type }
    }
}

impl View for SelectStatement {
    type V = SelectStatementView;

    open spec fn view(&self) -> SelectStatementView {
        SelectStatementView {
            table: self.table@,
            distinct: self.distinct,
            fields: texts(self.fields@),
            where_clause: match self.where_clause {
                Some(condition) => Some(condition@),
                None => None,
            },
            group_by: match self.group_by {
                Some(clause) => Some(clause@),
                None => None,
            },
            order: match self.order {
                Some(clause) => Some(clause@),
                None => None,
            },
            limit: self.limit,
        }
    }
}

impl Default for SelectStatement {
    /// The statement with an empty table name, no fields and no clause.
    fn default() -> (r: SelectStatement)
        ensures
            r@ == (SelectStatementView {
                table: Seq::empty(),
                distinct: false,
                fields: Seq::empty(),
                where_clause: None,
                group_by: None,
                order: None,
                limit: None,
            }),
    {
        let r = SelectStatement {
            table: String::new(),
            distinct: false,
            fields: Vec::new(),
            where_clause: None,
            group_by: None,
            order: None,
            limit: None,
        };
        proof {
            assert(texts(r.fields@) =~= Seq::<Seq<char>>::empty());
        }
        r
    }
}

/// What an optional part yields: its value and the position behind it, or no
/// value and the position unchanged.
pub open spec fn optional<T>(found: Option<(T, int)>, pos: int) -> (Option<T>, int) {
    match found {
        Some((value, end)) => (Some(value), end),
        None => (None, pos),
    }
}

/// The `OFFSET` part of a `LIMIT` clause at `pos`: `offset` in any case,
/// blanks, and an unsigned number.
pub open spec fn spec_offset(s: Seq<u8>, pos: int) -> Option<(u64, int)> {
    match spec_caseless_tag(s, pos, "offset"@) {
        Some(gap) => match spec_run1(s, gap, ByteClass::Space) {
            Some(number) => spec_unsigned_number(s, number),
            None => None,
        },
        None => None,
    }
}

/// The `OFFSET` part of a `LIMIT` clause at `pos`.
pub fn offset(input: &[u8], pos: usize) -> (r: Option<(u64, usize)>)
    ensures
        match r {
            Some((value, end)) => spec_offset(input@, pos as int) == Some((value, end as int))
                && pos < end <= input.len(),
            None => spec_offset(input@, pos as int) is None,
        },
{
    proof {
        reveal_strlit("offset");
    }
    let gap = match caseless_tag(input, pos, "offset") {
        Some(gap) => gap,
        None => {
            return None;
        },
    };
    let number = match run1(input, gap, ByteClass::Space) {
        Some(number) => number,
        None => {
            return None;
        },
    };
    unsigned_number(input, number)
}

/// A `LIMIT` clause at `pos`: blanks, `limit` in any case, blanks, an
/// unsigned number, optional blanks, and an optional `OFFSET` part. Without
/// that part the offset is zero.
pub open spec fn spec_limit_clause(s: Seq<u8>, pos: int) -> Option<(LimitClause, int)> {
    match spec_run1(s, pos, ByteClass::Space) {
        Some(keyword) => match spec_caseless_tag(s, keyword, "limit"@) {
            Some(gap) => match spec_run1(s, gap, ByteClass::Space) {
                Some(number) => match spec_unsigned_number(s, number) {
                    Some((limit, end)) => {
                        let behind = spec_skip(s, end, ByteClass::Space);
                        match spec_offset(s, behind) {
                            Some((offset, last)) => Some((LimitClause { limit, offset }, last)),
                            None => Some((LimitClause { limit, offset: 0 }, behind)),
                        }
                    },
                    None => None,
                },
                None => None,
            },
            None => None,
        },
        None => None,
    }
}

/// A `LIMIT` clause at `pos`.
pub fn limit_clause(input: &[u8], pos: usize) -> (r: Option<(LimitClause, usize)>)
    ensures
        match r {
            Some((clause, end)) => spec_limit_clause(input@, pos as int) == Some(
                (clause, end as int),
            ) && pos < end <= input.len(),
            None => spec_limit_clause(input@, pos as int) is None,
        },
{
    proof {
        reveal_strlit("limit");
    }
    let keyword = match run1(input, pos, ByteClass::Space) {
        Some(keyword) => keyword,
        None => {
            return None;
        },
    };
    let gap = match caseless_tag(input, keyword, "limit") {
        Some(gap) => gap,
        None => {
            return None;
        },
    };
    let number = match run1(input, gap, ByteClass::Space) {
        Some(number) => number,
        None => {
            return None;
        },
    };
    let (limit, end) = match unsigned_number(input, number) {
        Some(found) => found,
        None => {
            return None;
        },
    };
    let behind = skip(input, end, ByteClass::Space);
    match offset(input, behind) {
        Some((offset, last)) => Some((LimitClause { limit, offset }, last)),
        None => Some((LimitClause { limit, offset: 0 }, behind)),
    }
}

/// The direction of an `ORDER BY` clause at `pos`: whitespace, and `desc` or
/// `asc` in any case.
pub open spec fn spec_ordering(s: Seq<u8>, pos: int) -> Option<(OrderType, int)> {
    match spec_run1(s, pos, ByteClass::Multispace) {
        Some(word) => match spec_caseless_tag(s, word, "desc"@) {
            Some(end) => Some((OrderType::OrderDescending, end)),
            None => match spec_caseless_tag(s, word, "asc"@) {
                Some(end) => Some((OrderType::OrderAscending, end)),
                None => None,
            },
        },
        None => None,
    }
}

/// The direction of an `ORDER BY` clause at `pos`.
pub fn ordering(input: &[u8], pos: usize) -> (r: Option<(OrderType, usize)>)
    ensures
        match r {
            Some((direction, end)) => spec_ordering(input@, pos as int) == Some(
                (direction, end as int),
            ) && pos < end <= input.len(),
            None => spec_ordering(input@, pos as int) is None,
        },
{
    proof {
        reveal_strlit("desc");
        reveal_strlit("asc");
    }
    let word = match run1(input, pos, ByteClass::Multispace) {
        Some(word) => word,
        None => {
            return None;
        },
    };
    if let Some(end) = caseless_tag(input, word, "desc") {
        Some((OrderType::OrderDescending, end))
    } else if let Some(end) = caseless_tag(input, word, "asc") {
        Some((OrderType::OrderAscending, end))
    } else {
        None
    }
}

/// An `ORDER BY` clause at `pos`: optional whitespace, `order by` in any case
/// (with one blank between the words), whitespace, a list of fields, and an
/// optional direction. Without one the order is ascending.
pub open spec fn spec_order_clause(s: Seq<u8>, pos: int) -> Option<(OrderClauseView, int)> {
    match spec_caseless_tag(s, spec_skip(s, pos, ByteClass::Multispace), "order by"@) {
        Some(gap) => match spec_run1(s, gap, ByteClass::Multispace) {
            Some(list) => {
                let (order_cols, end) = spec_field_list(s, list);
                match spec_ordering(s, end) {
                    Some((order_type, last)) => Some(
                        (OrderClauseView { order_cols, order_type }, last),
                    ),
                    None => Some(
                        (OrderClauseView { order_cols, order_type: OrderType::OrderAscending }, end),
                    ),
                }
            },
            None => None,
        },
        None => None,
    }
}

/// What a recogniser of an `ORDER BY` clause returned, as a mathematical
/// value.
pub open spec fn order_at(r: Option<(OrderClause, usize)>) -> Option<(OrderClauseView, int)> {
    match r {
        Some((clause, end)) => Some((clause@, end as int)),
        None => None,
    }
}

/// An `ORDER BY` clause at `pos`.
pub fn order_clause(input: &[u8], pos: usize) -> (r: Option<(OrderClause, usize)>)
    ensures
        order_at(r) == spec_order_clause(input@, pos as int),
        r matches Some((_, end)) ==> pos < end <= input.len(),
{
    proof {
        reveal_strlit("order by");
    }
    let gap = match caseless_tag(input, skip(input, pos, ByteClass::Multispace), "order by") {
        Some(gap) => gap,
        None => {
            return None;
        },
    };
    let list = match run1(input, gap, ByteClass::Multispace) {
        Some(list) => list,
        None => {
            return None;
        },
    };
    let (order_cols, end) = field_list(input, list);
    match ordering(input, end) {
        Some((order_type, last)) => Some((OrderClause { order_cols, order_type }, last)),
        None => Some((OrderClause { order_cols, order_type: OrderType::OrderAscending }, end)),
    }
}

/// A `WHERE` clause at `pos`: blanks, `where` in any case, blanks, and a
/// condition.
pub open spec fn spec_where_clause(s: Seq<u8>, pos: int) -> Option<(ConditionExpressionView, int)> {
    match spec_run1(s, pos, ByteClass::Space) {
        Some(keyword) => match spec_caseless_tag(s, keyword, "where"@) {
            Some(gap) => match spec_run1(s, gap, ByteClass::Space) {
                Some(condition) => spec_condition_expr(s, condition),
                None => None,
            },
            None => None,
        },
        None => None,
    }
}

/// A `WHERE` clause at `pos`.
pub fn where_clause(input: &[u8], pos: usize) -> (r: Option<(ConditionExpression, usize)>)
    ensures
        condition_at(r) == spec_where_clause(input@, pos as int),
        r matches Some((_, end)) ==> pos < end <= input.len(),
{
    proof {
        reveal_strlit("where");
    }
    let keyword = match run1(input, pos, ByteClass::Space) {
        Some(keyword) => keyword,
        None => {
            return None;
        },
    };
    let gap = match caseless_tag(input, keyword, "where") {
        Some(gap) => gap,
        None => {
            return None;
        },
    };
    let condition = match run1(input, gap, ByteClass::Space) {
        Some(condition) => condition,
        None => {
            return None;
        },
    };
    condition_expr_at(input, condition)
}

/// The start of a `SELECT` statement at `pos`: `select` in any case, blanks,
/// optionally `distinct` in any case, and optional blanks. The value says
/// whether `distinct` was there.
pub open spec fn spec_select_keyword(s: Seq<u8>, pos: int) -> Option<(bool, int)> {
    match spec_caseless_tag(s, pos, "select"@) {
        Some(gap) => match spec_run1(s, gap, ByteClass::Space) {
            Some(word) => match spec_caseless_tag(s, word, "distinct"@) {
                Some(end) => Some((true, spec_skip(s, end, ByteClass::Space))),
                None => Some((false, spec_skip(s, word, ByteClass::Space))),
            },
            None => None,
        },
        None => None,
    }
}

/// The start of a `SELECT` statement at `pos`.
pub fn select_keyword(input: &[u8], pos: usize) -> (r: Option<(bool, usize)>)
    ensures
        match r {
            Some((distinct, end)) => spec_select_keyword(input@, pos as int) == Some(
                (distinct, end as int),
            ) && pos < end <= input.len(),
            None => spec_select_keyword(input@, pos as int) is None,
        },
{
    proof {
        reveal_strlit("select");
        reveal_strlit("distinct");
    }
    let gap = match caseless_tag(input, pos, "select") {
        Some(gap) => gap,
        None => {
            return None;
        },
    };
    let word = match run1(input, gap, ByteClass::Space) {
        Some(word) => word,
        None => {
            return None;
        },
    };
    match caseless_tag(input, word, "distinct") {
        Some(end) => Some((true, skip(input, end, ByteClass::Space))),
        None => Some((false, skip(input, word, ByteClass::Space))),
    }
}

/// The word `from` at `pos`, in any case, with whitespace on both sides.
pub open spec fn spec_from_keyword(s: Seq<u8>, pos: int) -> Option<int> {
    match spec_run1(s, pos, ByteClass::Multispace) {
        Some(word) => match spec_caseless_tag(s, word, "from"@) {
            Some(gap) => spec_run1(s, gap, ByteClass::Multispace),
            None => None,
        },
        None => None,
    }
}

/// The word `from` at `pos`, with whitespace on both sides.
pub fn from_keyword(input: &[u8], pos: usize) -> (r: Option<usize>)
    ensures
        crate::scan::position(r) == spec_from_keyword(input@, pos as int),
        r matches Some(end) ==> pos < end <= input.len(),
{
    proof {
        reveal_strlit("from");
    }
    let word = match run1(input, pos, ByteClass::Multispace) {
        Some(word) => word,
        None => {
            return None;
        },
    };
    let gap = match caseless_tag(input, word, "from") {
        Some(gap) => gap,
        None => {
            return None;
        },
    };
    run1(input, gap, ByteClass::Multispace)
}

/// A `SELECT` statement at `pos`: the start of the statement, a list of
/// fields, `from`, a reference to a table, an optional `WHERE` clause, an
/// optional `ORDER BY` clause, an optional `LIMIT` clause, and the end of the
/// statement. An optional clause that does not match is left out, and what
/// follows is read from where it would have started.
pub open spec fn spec_selection(s: Seq<u8>, pos: int) -> Option<(SelectStatementView, int)> {
    match spec_select_keyword(s, pos) {
        Some((distinct, list)) => {
            let (fields, from) = spec_field_list(s, list);
            match spec_from_keyword(s, from) {
                Some(name) => match spec_table_reference(s, name) {
                    Some((table, clauses)) => {
                        let (where_clause, ordered) = optional(
                            spec_where_clause(s, clauses),
                            clauses,
                        );
                        let (order, limited) = optional(spec_order_clause(s, ordered), ordered);
                        let (limit, terminator) = optional(spec_limit_clause(s, limited), limited);
                        match spec_statement_terminator(s, terminator) {
                            Some(end) => Some(
                                (
                                    SelectStatementView {
                                        table,
                                        distinct,
                                        fields,
                                        where_clause,
                                        group_by: None,
                                        order,
                                        limit,
                                    },
                                    end,
                                ),
                            ),
                            None => None,
                        }
                    },
                    None => None,
                },
                None => None,
            }
        },
        None => None,
    }
}

/// What a recogniser of a `SELECT` statement returned, as a mathematical
/// value.
pub open spec fn selection_result(r: Option<(SelectStatement, usize)>) -> Option<
    (SelectStatementView, int),
> {
    match r {
        Some((statement, end)) => Some((statement@, end as int)),
        None => None,
    }
}

/// A `SELECT` statement at `pos`.
pub fn selection_at(input: &[u8], pos: usize) -> (r: Option<(SelectStatement, usize)>)
    ensures
        selection_result(r) == spec_selection(input@, pos as int),
        r matches Some((_, end)) ==> pos < end <= input.len(),
{
    let (distinct, list) = match select_keyword(input, pos) {
        Some(found) => found,
        None => {
            return None;
        },
    };
    let (fields, from) = field_list(input, list);
    let name = match from_keyword(input, from) {
        Some(name) => name,
        None => {
            return None;
        },
    };
    let (table, clauses) = match table_reference(input, name) {
        Some(found) => found,
        None => {
            return None;
        },
    };
    let (where_clause, ordered) = match where_clause(input, clauses) {
        Some((condition, end)) => (Some(condition), end),
        None => (None, clauses),
    };
    let (order, limited) = match order_clause(input, ordered) {
        Some((clause, end)) => (Some(clause), end),
        None => (None, ordered),
    };
    let (limit, terminator) = match limit_clause(input, limited) {
        Some((clause, end)) => (Some(clause), end),
        None => (None, limited),
    };
    match statement_terminator(input, terminator) {
        Some(end) => Some(
            (
                SelectStatement {
                    table,
                    distinct,
                    fields,
                    where_clause,
                    group_by: None,
                    order,
                    limit,
                },
                end,
            ),
        ),
        None => None,
    }
}

/// A `SELECT` statement at the start of `input`: the rest of the input and
/// the statement, or nothing where the input starts with no such statement.
pub fn selection(input: &[u8]) -> (r: Option<(&[u8], SelectStatement)>)
    ensures
        match r {
            Some((rest, statement)) => {
                &&& spec_selection(input@, 0) matches Some((value, end))
                &&& value == statement@
                &&& 0 <= end <= input@.len()
                &&& rest@ == input@.subrange(end, input@.len() as int)
            },
            None => spec_selection(input@, 0) is None,
        },
{
    match selection_at(input, 0) {
        Some((statement, end)) => Some((slice_subrange(input, end, input.len()), statement)),
        None => None,
    }
}

} // verus!
