//! A front end for a small subset of SQL: `SELECT` and `INSERT` statements are
//! read from text into a typed syntax tree. Every rule of the grammar is a
//! function on bytes whose result is proved equal to a mathematical description
//! of that rule.

pub mod common;
pub mod condition;
pub mod insert;
pub mod laws;
pub mod parser;
pub mod scan;
pub mod select;
pub mod text;

pub use self::parser::{
    parse_query, ConditionBase, ConditionExpression, ConditionTree, SqlQuery,
};
pub use self::select::SelectStatement;
