//! The `INSERT` statement.

use crate::common::{
    field_list, list_at, spec_field_list, spec_statement_terminator, spec_table_reference,
    spec_value_list, statement_terminator, table_reference, value_list,
};
use crate::scan::{
    byte, caseless_tag, position, run1, spec_byte, spec_caseless_tag, spec_run1, ByteClass,
};
use crate::select::optional;
use crate::text::{decimal_string, decimal_text, texts};
use vstd::prelude::*;
use vstd::slice::slice_subrange;

verus! {

/// An `INSERT` statement: the table, and each column with the value it gets.
#[derive(Debug, PartialEq)]
pub struct InsertStatement {
    pub table: String,
    pub fields: Vec<(String, String)>,
}

/// The mathematical value of an [`InsertStatement`].
pub struct InsertStatementView {
    pub table: Seq<char>,
    pub fields: Seq<(Seq<char>, Seq<char>)>,
}

/// The character sequences of a list of pairs of strings.
pub open spec fn text_pairs(list: Seq<(String, String)>) -> Seq<(Seq<char>, Seq<char>)> {
    Seq::new(list.len(), |i: int| (list[i].0@, list[i].1@))
}

impl View for InsertStatement {
    type V = InsertStatementView;

    open spec fn view(&self) -> InsertStatementView {
        InsertStatementView { table: self.table@, fields: text_pairs(self.fields@) }
    }
}

impl Default for InsertStatement {
    /// The statement with an empty table name and no fields.
    fn default() -> (r: InsertStatement)
        ensures
            r@ == (InsertStatementView { table: Seq::empty(), fields: Seq::empty() }),
    {
        let r = InsertStatement { table: String::new(), fields: Vec::new() };
        proof {
            assert(text_pairs(r.fields@) =~= Seq::<(Seq<char>, Seq<char>)>::empty());
        }
        r
    }
}

/// Columns paired with values by position. Where the two lists differ in
/// length, what the longer one holds beyond the shorter is dropped.
pub open spec fn paired(columns: Seq<Seq<char>>, values: Seq<Seq<char>>) -> Seq<
    (Seq<char>, Seq<char>),
> {
    Seq::new(
        if columns.len() <= values.len() {
            columns.len()
        } else {
            values.len()
        },
        |i: int| (columns[i], values[i]),
    )
}

/// Values paired with their positions `0`, `1`, ... written in decimal.
pub open spec fn numbered(values: Seq<Seq<char>>) -> Seq<(Seq<char>, Seq<char>)> {
    Seq::new(values.len(), |i: int| (decimal_text(i as nat), values[i]))
}

/// Pairs columns with values by position.
pub fn pair_fields(columns: &Vec<String>, values: &Vec<String>) -> (r: Vec<(String, String)>)
    ensures
        text_pairs(r@) == paired(texts(columns@), texts(values@)),
{
    let n: usize = if columns.len() <= values.len() {
        columns.len()
    } else {
        values.len()
    };
    let mut fields: Vec<(String, String)> = Vec::new();
    let mut i: usize = 0;
    while i < n
        invariant
            i <= n,
            n <= columns@.len(),
            n <= values@.len(),
            fields@.len() == i,
            forall|j: int|
                0 <= j < i ==> (#[trigger] fields@[j]).0@ == columns@[j]@ && fields@[j].1@
                    == values@[j]@,
        decreases n - i,
    {
        fields.push((columns[i].clone(), values[i].clone()));
        i = i + 1;
    }
    proof {
        assert(text_pairs(fields@) =~= paired(texts(columns@), texts(values@)));
    }
    fields
}

/// Pairs values with their positions.
pub fn number_fields(values: &Vec<String>) -> (r: Vec<(String, String)>)
    ensures
        text_pairs(r@) == numbered(texts(values@)),
{
    let mut fields: Vec<(String, String)> = Vec::new();
    let mut i: usize = 0;
    while i < values.len()
        invariant
            i <= values@.len(),
            fields@.len() == i,
            forall|j: int|
                0 <= j < i ==> (#[trigger] fields@[j]).0@ == decimal_text(j as nat) && fields@[j].1@
                    == values@[j]@,
        decreases values@.len() - i,
    {
        fields.push((decimal_string(i), values[i].clone()));
        i = i + 1;
    }
    proof {
        assert(text_pairs(fields@) =~= numbered(texts(values@)));
    }
    fields
}

/// The start of an `INSERT` statement at `pos`: `insert`, whitespace, `into`
/// and whitespace, the words in any case.
pub open spec fn spec_insert_keyword(s: Seq<u8>, pos: int) -> Option<int> {
    match spec_caseless_tag(s, pos, "insert"@) {
        Some(gap) => match spec_run1(s, gap, ByteClass::Multispace) {
            Some(word) => match spec_caseless_tag(s, word, "into"@) {
                Some(behind) => spec_run1(s, behind, ByteClass::Multispace),
                None => None,
            },
            None => None,
        },
        None => None,
    }
}

/// The start of an `INSERT` statement at `pos`.
pub fn insert_keyword(input: &[u8], pos: usize) -> (r: Option<usize>)
    ensures
        position(r) == spec_insert_keyword(input@, pos as int),
        r matches Some(end) ==> pos < end <= input.len(),
{
    proof {
        reveal_strlit("insert");
        reveal_strlit("into");
    }
    let gap = match caseless_tag(input, pos, "insert") {
        Some(gap) => gap,
        None => {
            return None;
        },
    };
    let word = match run1(input, gap, ByteClass::Multispace) {
        Some(word) => word,
        None => {
            return None;
        },
    };
    let behind = match caseless_tag(input, word, "into") {
        Some(behind) => behind,
        None => {
            return None;
        },
    };
    run1(input, behind, ByteClass::Multispace)
}

/// The list of columns of an `INSERT` statement at `pos`: `(`, a list of
/// fields, `)` and whitespace.
pub open spec fn spec_insert_columns(s: Seq<u8>, pos: int) -> Option<(Seq<Seq<char>>, int)> {
    match spec_byte(s, pos, 0x28) {
        Some(list) => {
            let (columns, close) = spec_field_list(s, list);
            match spec_byte(s, close, 0x29) {
                Some(gap) => match spec_run1(s, gap, ByteClass::Multispace) {
                    Some(end) => Some((columns, end)),
                    None => None,
                },
                None => None,
            }
        },
        None => None,
    }
}

/// What a recogniser of a list that may fail returned, as a mathematical
/// value.
pub open spec fn found_list(r: Option<(Vec<String>, usize)>) -> Option<(Seq<Seq<char>>, int)> {
    match r {
        Some(list) => Some(list_at(list)),
        None => None,
    }
}

/// The list of columns of an `INSERT` statement at `pos`.
pub fn insert_columns(input: &[u8], pos: usize) -> (r: Option<(Vec<String>, usize)>)
    ensures
        found_list(r) == spec_insert_columns(input@, pos as int),
        r matches Some((_, end)) ==> pos < end <= input.len(),
{
    let list = match byte(input, pos, '(' as u8) {
        Some(list) => list,
        None => {
            return None;
        },
    };
    let (columns, close) = field_list(input, list);
    let gap = match byte(input, close, ')' as u8) {
        Some(gap) => gap,
        None => {
            return None;
        },
    };
    match run1(input, gap, ByteClass::Multispace) {
        Some(end) => Some((columns, end)),
        None => None,
    }
}

/// The values of an `INSERT` statement at `pos`: `values` in any case,
/// whitespace, `(`, a list of values and `)`.
pub open spec fn spec_insert_values(s: Seq<u8>, pos: int) -> Option<(Seq<Seq<char>>, int)> {
    match spec_caseless_tag(s, pos, "values"@) {
        Some(gap) => match spec_run1(s, gap, ByteClass::Multispace) {
            Some(open) => match spec_byte(s, open, 0x28) {
                Some(list) => {
                    let (values, close) = spec_value_list(s, list);
                    match spec_byte(s, close, 0x29) {
                        Some(end) => Some((values, end)),
                        None => None,
                    }
                },
                None => None,
            },
            None => None,
        },
        None => None,
    }
}

/// The values of an `INSERT` statement at `pos`.
pub fn insert_values(input: &[u8], pos: usize) -> (r: Option<(Vec<String>, usize)>)
    ensures
        found_list(r) == spec_insert_values(input@, pos as int),
        r matches Some((_, end)) ==> pos < end <= input.len(),
{
    proof {
        reveal_strlit("values");
    }
    let gap = match caseless_tag(input, pos, "values") {
        Some(gap) => gap,
        None => {
            return None;
        },
    };
    let open = match run1(input, gap, ByteClass::Multispace) {
        Some(open) => open,
        None => {
            return None;
        },
    };
    let list = match byte(input, open, '(' as u8) {
        Some(list) => list,
        None => {
            return None;
        },
    };
    let (values, close) = value_list(input, list);
    match byte(input, close, ')' as u8) {
        Some(end) => Some((values, end)),
        None => None,
    }
}

/// An `INSERT` statement at `pos`: the start of the statement, a reference
/// to a table, whitespace, an optional list of columns, the values, and the
/// end of the statement. With a list of columns each column is paired with
/// the value at its position; without one each value is paired with its
/// position.
pub open spec fn spec_insertion(s: Seq<u8>, pos: int) -> Option<(InsertStatementView, int)> {
    match spec_insert_keyword(s, pos) {
        Some(name) => match spec_table_reference(s, name) {
            Some((table, gap)) => match spec_run1(s, gap, ByteClass::Multispace) {
                Some(list) => {
                    let (columns, keyword) = optional(spec_insert_columns(s, list), list);
                    match spec_insert_values(s, keyword) {
                        Some((values, terminator)) => match spec_statement_terminator(
                            s,
                            terminator,
                        ) {
                            Some(end) => Some(
                                (
                                    InsertStatementView {
                                        table,
                                        fields: match columns {
                                            Some(columns) => paired(columns, values),
                                            None => numbered(values),
                                        },
                                    },
                                    end,
                                ),
                            ),
                            None => None,
                        },
                        None => None,
                    }
                },
                None => None,
            },
            None => None,
        },
        None => None,
    }
}

/// What a recogniser of an `INSERT` statement returned, as a mathematical
/// value.
pub open spec fn insertion_result(r: Option<(InsertStatement, usize)>) -> Option<
    (InsertStatementView, int),
> {
    match r {
        Some((statement, end)) => Some((statement@, end as int)),
        None => None,
    }
}

/// An `INSERT` statement at `pos`.
pub fn insertion_at(input: &[u8], pos: usize) -> (r: Option<(InsertStatement, usize)>)
    ensures
        insertion_result(r) == spec_insertion(input@, pos as int),
        r matches Some((_, end)) ==> pos < end <= input.len(),
{
    let name = match insert_keyword(input, pos) {
        Some(name) => name,
        None => {
            return None;
        },
    };
    let (table, gap) = match table_reference(input, name) {
        Some(found) => found,
        None => {
            return None;
        },
    };
    let list = match run1(input, gap, ByteClass::Multispace) {
        Some(list) => list,
        None => {
            return None;
        },
    };
    let (columns, keyword) = match insert_columns(input, list) {
        Some((columns, end)) => (Some(columns), end),
        None => (None, list),
    };
    let (values, terminator) = match insert_values(input, keyword) {
        Some(found) => found,
        None => {
            return None;
        },
    };
    let end = match statement_terminator(input, terminator) {
        Some(end) => end,
        None => {
            return None;
        },
    };
    let fields = match columns {
        Some(columns) => pair_fields(&columns, &values),
        None => number_fields(&values),
    };
    Some((InsertStatement { table, fields }, end))
}

/// An `INSERT` statement at the start of `input`: the rest of the input and
/// the statement, or nothing where the input starts with no such statement.
pub fn insertion(input: &[u8]) -> (r: Option<(&[u8], InsertStatement)>)
    ensures
        match r {
            Some((rest, statement)) => {
                &&& spec_insertion(input@, 0) matches Some((value, end))
                &&& value == statement@
                &&& 0 <= end <= input@.len()
                &&& rest@ == input@.subrange(end, input@.len() as int)
            },
            None => spec_insertion(input@, 0) is None,
        },
{
    match insertion_at(input, 0) {
        Some((statement, end)) => Some((slice_subrange(input, end, input.len()), statement)),
        None => None,
    }
}

} // verus!
