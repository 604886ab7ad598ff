//! What holds of every input. The three ways to end a statement are
//! interchangeable: a statement that is accepted at the end of the input is
//! accepted, with the same value, when `;` or a line feed is appended to the
//! input. Most of this file compares the grammar on an input with the
//! grammar on that input with one such byte behind it, rule by rule.

use crate::common::{
    spec_binary_comparison_operator, spec_binary_logical_operator, spec_csvlist, spec_field_list,
    spec_list_separator, spec_quoted, spec_sql_identifier, spec_statement_terminator,
    spec_table_reference, spec_unary_negation_operator, spec_unsigned_number, spec_value,
    spec_value_list,
};
use crate::condition::{
    lemma_comparison_consumes, lemma_condition_expr_well_formed, lemma_conjunction_consumes,
    spec_boolean_primary, spec_comparison, spec_comparisons, spec_condition_expr,
    spec_conjunction, spec_conjunctions, spec_predicate,
};
use crate::insert::{spec_insert_columns, spec_insert_keyword, spec_insert_values, spec_insertion};
use crate::parser::{spec_parse_query, well_formed, SqlQueryView};
use crate::scan::{
    ascii_lower, lemma_run_len_accepts, remaining, run_len, spec_byte, spec_caseless_tag,
    spec_eof, spec_line_ending, spec_run1, spec_skip, spec_tag, ByteClass,
};
use crate::select::{
    optional, spec_from_keyword, spec_limit_clause, spec_order_clause, spec_ordering,
    spec_select_keyword, spec_selection, spec_where_clause,
};
use crate::text::lemma_encode_push_ascii;
use vstd::prelude::*;
use vstd::utf8::encode_utf8;

verus! {

/// `longer` is `s` with one `;` or one line feed appended.
pub open spec fn terminated(s: Seq<u8>, longer: Seq<u8>) -> bool {
    longer == s.push(0x3B) || longer == s.push(0x0A)
}

/// A position in the longer input that corresponds to `pos` in the shorter
/// one: the same position, or the end of the longer input for the end of the
/// shorter one.
pub open spec fn corresponds(s: Seq<u8>, pos: int, later: int) -> bool {
    later == pos || (pos == s.len() && later == s.len() + 1)
}

/// A word that neither is empty nor ends in `;` or a line feed, in any case.
pub open spec fn plain_word(word: Seq<char>) -> bool {
    &&& word.len() > 0
    &&& word.last() as u8 != 0x3B
    &&& word.last() as u8 != 0x0A
    &&& ascii_lower(word.last() as u8) != 0x3B
    &&& ascii_lower(word.last() as u8) != 0x0A
}

/// What scanning the longer input has in common with scanning the shorter
/// one, at the same position.
pub open spec fn scans_alike(s: Seq<u8>, longer: Seq<u8>) -> bool {
    &&& longer.len() == s.len() + 1
    &&& forall|pos: int, class: ByteClass|
        0 <= pos <= s.len() ==> pos + #[trigger] run_len(s, pos, class) <= s.len()
    &&& forall|pos: int, class: ByteClass|
        0 <= pos <= s.len() ==> corresponds(
            s,
            pos + run_len(s, pos, class),
            pos + #[trigger] run_len(longer, pos, class),
        )
    &&& forall|pos: int, class: ByteClass|
        0 <= pos <= s.len() && class != ByteClass::Multispace ==> #[trigger] run_len(
            longer,
            pos,
            class,
        ) == run_len(s, pos, class)
    &&& forall|class: ByteClass| #[trigger] run_len(longer, longer.len() as int, class) == 0
    &&& forall|class: ByteClass| #[trigger] run_len(s, s.len() as int, class) == 0
    &&& forall|pos: int, b: u8|
        b != 0x3B && b != 0x0A ==> #[trigger] spec_byte(longer, pos, b) == spec_byte(s, pos, b)
    &&& forall|from: int, to: int|
        0 <= from <= to <= s.len() ==> #[trigger] longer.subrange(from, to) == s.subrange(
            from,
            to,
        )
    &&& forall|pos: int, word: Seq<char>|
        plain_word(word) ==> #[trigger] spec_tag(longer, pos, word) == spec_tag(s, pos, word)
    &&& forall|pos: int, word: Seq<char>|
        plain_word(word) ==> #[trigger] spec_caseless_tag(longer, pos, word) == spec_caseless_tag(
            s,
            pos,
            word,
        )
}

/// A run in the longer input ends where it ends in the shorter one, or one
/// byte later where it reached the end.
proof fn lemma_run_alike(s: Seq<u8>, longer: Seq<u8>, pos: int, class: ByteClass)
    requires
        terminated(s, longer),
        0 <= pos <= s.len(),
    ensures
        pos + run_len(s, pos, class) <= s.len(),
        corresponds(s, pos + run_len(s, pos, class), pos + run_len(longer, pos, class)),
        class != ByteClass::Multispace ==> run_len(longer, pos, class) == run_len(s, pos, class),
    decreases s.len() - pos,
{
    if pos < s.len() {
        assert(longer[pos] == s[pos]);
        if class.accepts(s[pos]) {
            lemma_run_alike(s, longer, pos + 1, class);
        }
    } else {
        assert(run_len(longer, pos + 1, class) == 0);
    }
}

/// A plain word is found in the longer input where it is found in the
/// shorter one.
proof fn lemma_tag_alike(s: Seq<u8>, longer: Seq<u8>, pos: int, word: Seq<char>)
    requires
        terminated(s, longer),
        plain_word(word),
    ensures
        spec_tag(longer, pos, word) == spec_tag(s, pos, word),
        spec_caseless_tag(longer, pos, word) == spec_caseless_tag(s, pos, word),
{
    let n = word.len() as int;
    if 0 <= pos && pos + n <= s.len() {
        if spec_tag(s, pos, word) is Some {
            assert(spec_tag(longer, pos, word) is Some);
        } else {
            let i = choose|i: int| 0 <= i < n && s[pos + i] != #[trigger] word[i] as u8;
            assert(longer[pos + i] != word[i] as u8);
        }
        if spec_caseless_tag(s, pos, word) is Some {
            assert(spec_caseless_tag(longer, pos, word) is Some);
        } else {
            let i = choose|i: int|
                0 <= i < n && ascii_lower(s[pos + i]) != ascii_lower(#[trigger] word[i] as u8);
            assert(ascii_lower(longer[pos + i]) != ascii_lower(word[i] as u8));
        }
    } else if 0 <= pos && pos + n == s.len() + 1 {
        assert(longer[pos + (n - 1)] != word[n - 1] as u8);
        assert(ascii_lower(longer[pos + (n - 1)]) != ascii_lower(word[n - 1] as u8));
    }
}

/// Scanning the longer input is like scanning the shorter one.
pub proof fn lemma_scans_alike(s: Seq<u8>, longer: Seq<u8>)
    requires
        terminated(s, longer),
    ensures
        scans_alike(s, longer),
{
    assert forall|pos: int, class: ByteClass| 0 <= pos <= s.len() implies pos
        + #[trigger] run_len(s, pos, class) <= s.len() by {
        lemma_run_alike(s, longer, pos, class);
    }
    assert forall|pos: int, class: ByteClass| 0 <= pos <= s.len() implies corresponds(
        s,
        pos + run_len(s, pos, class),
        pos + #[trigger] run_len(longer, pos, class),
    ) by {
        lemma_run_alike(s, longer, pos, class);
    }
    assert forall|pos: int, class: ByteClass|
        0 <= pos <= s.len() && class != ByteClass::Multispace implies #[trigger] run_len(
        longer,
        pos,
        class,
    ) == run_len(s, pos, class) by {
        lemma_run_alike(s, longer, pos, class);
    }
    assert forall|class: ByteClass| #[trigger] run_len(longer, longer.len() as int, class) == 0 by {}
    assert forall|class: ByteClass| #[trigger] run_len(s, s.len() as int, class) == 0 by {}
    assert forall|pos: int, b: u8| b != 0x3B && b != 0x0A implies #[trigger] spec_byte(
        longer,
        pos,
        b,
    ) == spec_byte(s, pos, b) by {
        if 0 <= pos < s.len() {
            assert(longer[pos] == s[pos]);
        }
    }
    assert forall|from: int, to: int| 0 <= from <= to <= s.len() implies #[trigger] longer.subrange(
        from,
        to,
    ) == s.subrange(from, to) by {
        assert(longer.subrange(from, to) =~= s.subrange(from, to));
    }
    assert forall|pos: int, word: Seq<char>| plain_word(word) implies #[trigger] spec_tag(
        longer,
        pos,
        word,
    ) == spec_tag(s, pos, word) by {
        lemma_tag_alike(s, longer, pos, word);
    }
    assert forall|pos: int, word: Seq<char>| plain_word(word) implies #[trigger] spec_caseless_tag(
        longer,
        pos,
        word,
    ) == spec_caseless_tag(s, pos, word) by {
        lemma_tag_alike(s, longer, pos, word);
    }
}

/// The two results are the same match, up to corresponding ends, or both
/// are none.
pub open spec fn same_end(s: Seq<u8>, r: Option<int>, r2: Option<int>) -> bool {
    match r {
        Some(end) => r2 matches Some(later) && corresponds(s, end, later),
        None => r2 is None,
    }
}

/// The two results hold the same value, up to corresponding ends, or both
/// are none.
pub open spec fn same_found<T>(s: Seq<u8>, r: Option<(T, int)>, r2: Option<(T, int)>) -> bool {
    match r {
        Some((value, end)) => r2 matches Some((value2, later)) && value2 == value && corresponds(
            s,
            end,
            later,
        ),
        None => r2 is None,
    }
}

/// The two results hold the same value, up to corresponding ends.
pub open spec fn same_list<T>(s: Seq<u8>, r: (T, int), r2: (T, int)) -> bool {
    r2.0 == r.0 && corresponds(s, r.1, r2.1)
}

/// Where the first result is a match, the second is the same match, up to
/// corresponding ends.
pub open spec fn kept_end(s: Seq<u8>, r: Option<int>, r2: Option<int>) -> bool {
    r is Some ==> same_end(s, r, r2)
}

/// Where the first result holds a value, the second holds the same, up to
/// corresponding ends.
pub open spec fn kept_found<T>(s: Seq<u8>, r: Option<(T, int)>, r2: Option<(T, int)>) -> bool {
    r is Some ==> same_found(s, r, r2)
}

/// The words of the grammar are plain.
pub proof fn lemma_plain_words()
    ensures
        plain_word("like"@),
        plain_word("not_like"@),
        plain_word("<>"@),
        plain_word(">="@),
        plain_word("<="@),
        plain_word("and"@),
        plain_word("or"@),
        plain_word("not"@),
        plain_word("CURRENT_TIMESTAMP"@),
        plain_word("as"@),
        plain_word("offset"@),
        plain_word("limit"@),
        plain_word("desc"@),
        plain_word("asc"@),
        plain_word("order by"@),
        plain_word("where"@),
        plain_word("select"@),
        plain_word("distinct"@),
        plain_word("from"@),
        plain_word("insert"@),
        plain_word("into"@),
        plain_word("values"@),
{
    reveal_strlit("like");
    reveal_strlit("not_like");
    reveal_strlit("<>");
    reveal_strlit(">=");
    reveal_strlit("<=");
    reveal_strlit("and");
    reveal_strlit("or");
    reveal_strlit("not");
    reveal_strlit("CURRENT_TIMESTAMP");
    reveal_strlit("as");
    reveal_strlit("offset");
    reveal_strlit("limit");
    reveal_strlit("desc");
    reveal_strlit("asc");
    reveal_strlit("order by");
    reveal_strlit("where");
    reveal_strlit("select");
    reveal_strlit("distinct");
    reveal_strlit("from");
    reveal_strlit("insert");
    reveal_strlit("into");
    reveal_strlit("values");
}

/// A run of blanks, digits, alphanumerics, identifier bytes or value bytes
/// is the same in both inputs.
pub proof fn lemma_run1_alike(s: Seq<u8>, longer: Seq<u8>, pos: int, later: int, class: ByteClass)
    requires
        terminated(s, longer),
        0 <= pos <= s.len(),
        corresponds(s, pos, later),
        class != ByteClass::Multispace,
    ensures
        spec_run1(longer, later, class) == spec_run1(s, pos, class),
        spec_run1(s, pos, class) matches Some(end) ==> later == pos && pos < end <= s.len(),
{
    lemma_scans_alike(s, longer);
}

/// A run of whitespace that is found in the shorter input is found in the
/// longer one; one that is not found there is not found in the longer one
/// either, or reaches its end.
pub proof fn lemma_multispace_alike(s: Seq<u8>, longer: Seq<u8>, pos: int, later: int)
    requires
        terminated(s, longer),
        0 <= pos <= s.len(),
        corresponds(s, pos, later),
    ensures
        kept_end(
            s,
            spec_run1(s, pos, ByteClass::Multispace),
            spec_run1(longer, later, ByteClass::Multispace),
        ),
        spec_run1(s, pos, ByteClass::Multispace) matches Some(end) ==> later == pos && pos < end
            <= s.len(),
        spec_run1(s, pos, ByteClass::Multispace) is None ==> spec_run1(
            longer,
            later,
            ByteClass::Multispace,
        ) is None || spec_run1(longer, later, ByteClass::Multispace) == Some(longer.len() as int),
        corresponds(
            s,
            spec_skip(s, pos, ByteClass::Multispace),
            spec_skip(longer, later, ByteClass::Multispace),
        ),
        pos <= spec_skip(s, pos, ByteClass::Multispace) <= s.len(),
{
    lemma_scans_alike(s, longer);
}

/// Optional blanks end at corresponding positions.
pub proof fn lemma_skip_alike(s: Seq<u8>, longer: Seq<u8>, pos: int, later: int, class: ByteClass)
    requires
        terminated(s, longer),
        0 <= pos <= s.len(),
        corresponds(s, pos, later),
    ensures
        corresponds(s, spec_skip(s, pos, class), spec_skip(longer, later, class)),
        pos <= spec_skip(s, pos, class) <= s.len(),
{
    lemma_scans_alike(s, longer);
}

/// An unsigned number is the same in both inputs.
pub proof fn lemma_unsigned_number_alike(s: Seq<u8>, longer: Seq<u8>, pos: int, later: int)
    requires
        terminated(s, longer),
        0 <= pos <= s.len(),
        corresponds(s, pos, later),
    ensures
        spec_unsigned_number(longer, later) == spec_unsigned_number(s, pos),
        spec_unsigned_number(s, pos) matches Some((_, end)) ==> pos < end <= s.len(),
{
    lemma_scans_alike(s, longer);
    lemma_run1_alike(s, longer, pos, later, ByteClass::Digit);
}

/// A statement that ends in the shorter input ends in the longer one.
pub proof fn lemma_statement_terminator_kept(s: Seq<u8>, longer: Seq<u8>, pos: int, later: int)
    requires
        terminated(s, longer),
        0 <= pos <= s.len(),
        corresponds(s, pos, later),
    ensures
        spec_statement_terminator(s, pos) is Some ==> spec_statement_terminator(longer, later)
            is Some,
{
    lemma_scans_alike(s, longer);
    let mark = spec_skip(s, pos, ByteClass::Multispace);
    let mark2 = spec_skip(longer, later, ByteClass::Multispace);
    lemma_multispace_alike(s, longer, pos, later);
    if mark2 == mark && mark < s.len() {
        assert(longer[mark] == s[mark]);
    }
}

/// The operators are the same in both inputs.
pub proof fn lemma_operators_alike(s: Seq<u8>, longer: Seq<u8>, pos: int, later: int)
    requires
        terminated(s, longer),
        0 <= pos <= s.len(),
        corresponds(s, pos, later),
    ensures
        spec_binary_comparison_operator(longer, later) == spec_binary_comparison_operator(s, pos),
        spec_binary_logical_operator(longer, later) == spec_binary_logical_operator(s, pos),
        spec_unary_negation_operator(longer, later) == spec_unary_negation_operator(s, pos),
        spec_binary_comparison_operator(s, pos) matches Some((_, end)) ==> later == pos && pos
            < end <= s.len(),
        spec_binary_logical_operator(s, pos) matches Some((_, end)) ==> later == pos && pos < end
            <= s.len(),
        spec_unary_negation_operator(s, pos) matches Some((_, end)) ==> later == pos && pos < end
            <= s.len(),
{
    lemma_scans_alike(s, longer);
    lemma_plain_words();
}

/// A list separator ends at corresponding positions in both inputs.
pub proof fn lemma_list_separator_alike(s: Seq<u8>, longer: Seq<u8>, pos: int, later: int)
    requires
        terminated(s, longer),
        0 <= pos <= s.len(),
        corresponds(s, pos, later),
    ensures
        corresponds(s, spec_list_separator(s, pos), spec_list_separator(longer, later)),
        pos <= spec_list_separator(s, pos) <= s.len(),
{
    lemma_scans_alike(s, longer);
    lemma_multispace_alike(s, longer, pos, later);
    let comma = spec_skip(s, pos, ByteClass::Multispace);
    if let Some(end) = spec_byte(s, comma, 0x2C) {
        lemma_multispace_alike(s, longer, end, end);
    }
}

/// A list of identifiers is the same in both inputs.
pub proof fn lemma_csvlist_alike(s: Seq<u8>, longer: Seq<u8>, pos: int, later: int)
    requires
        terminated(s, longer),
        0 <= pos <= s.len(),
        corresponds(s, pos, later),
    ensures
        same_list(s, spec_csvlist(s, pos), spec_csvlist(longer, later)),
        pos <= spec_csvlist(s, pos).1 <= s.len(),
    decreases remaining(s, pos),
{
    lemma_scans_alike(s, longer);
    lemma_run1_alike(s, longer, pos, later, ByteClass::Identifier);
    if let Some(end) = spec_sql_identifier(s, pos) {
        lemma_list_separator_alike(s, longer, end, end);
        lemma_csvlist_alike(
            s,
            longer,
            spec_list_separator(s, end),
            spec_list_separator(longer, end),
        );
    }
}

/// A list of fields is the same in both inputs.
pub proof fn lemma_field_list_alike(s: Seq<u8>, longer: Seq<u8>, pos: int, later: int)
    requires
        terminated(s, longer),
        0 <= pos <= s.len(),
        corresponds(s, pos, later),
    ensures
        same_list(s, spec_field_list(s, pos), spec_field_list(longer, later)),
        pos <= spec_field_list(s, pos).1 <= s.len(),
{
    lemma_scans_alike(s, longer);
    lemma_csvlist_alike(s, longer, pos, later);
}

/// A quoted word is the same in both inputs.
pub proof fn lemma_quoted_alike(s: Seq<u8>, longer: Seq<u8>, pos: int, later: int, quote: u8)
    requires
        terminated(s, longer),
        0 <= pos <= s.len(),
        corresponds(s, pos, later),
        quote != 0x3B,
        quote != 0x0A,
    ensures
        spec_quoted(longer, later, quote) == spec_quoted(s, pos, quote),
        spec_quoted(s, pos, quote) matches Some((_, end)) ==> later == pos && pos < end <= s.len(),
{
    lemma_scans_alike(s, longer);
    if let Some(open) = spec_byte(s, pos, quote) {
        lemma_run1_alike(s, longer, open, open, ByteClass::Alphanumeric);
    }
}

/// A value is the same in both inputs.
pub proof fn lemma_value_alike(s: Seq<u8>, longer: Seq<u8>, pos: int, later: int)
    requires
        terminated(s, longer),
        0 <= pos <= s.len(),
        corresponds(s, pos, later),
    ensures
        spec_value(longer, later) == spec_value(s, pos),
        spec_value(s, pos) matches Some((_, end)) ==> later == pos && pos < end <= s.len(),
{
    lemma_scans_alike(s, longer);
    lemma_plain_words();
    lemma_quoted_alike(s, longer, pos, later, 0x27);
    lemma_run1_alike(s, longer, pos, later, ByteClass::FpNumber);
}

/// A list of values is the same in both inputs.
pub proof fn lemma_value_list_alike(s: Seq<u8>, longer: Seq<u8>, pos: int, later: int)
    requires
        terminated(s, longer),
        0 <= pos <= s.len(),
        corresponds(s, pos, later),
    ensures
        same_list(s, spec_value_list(s, pos), spec_value_list(longer, later)),
        pos <= spec_value_list(s, pos).1 <= s.len(),
    decreases remaining(s, pos),
{
    lemma_scans_alike(s, longer);
    lemma_value_alike(s, longer, pos, later);
    if let Some((_, end)) = spec_value(s, pos) {
        lemma_list_separator_alike(s, longer, end, end);
        let next = spec_list_separator(s, end);
        let next2 = spec_list_separator(longer, end);
        assert(remaining(s, next) < remaining(s, pos));
        assert(remaining(longer, next2) < remaining(longer, pos));
        lemma_value_list_alike(s, longer, next, next2);
    }
}

/// A reference to a table is the same in both inputs.
pub proof fn lemma_table_reference_alike(s: Seq<u8>, longer: Seq<u8>, pos: int, later: int)
    requires
        terminated(s, longer),
        0 <= pos <= s.len(),
        corresponds(s, pos, later),
    ensures
        spec_table_reference(longer, later) == spec_table_reference(s, pos),
        spec_table_reference(s, pos) matches Some((_, end)) ==> later == pos && pos < end
            <= s.len(),
{
    lemma_scans_alike(s, longer);
    lemma_plain_words();
    lemma_run1_alike(s, longer, pos, later, ByteClass::Identifier);
    if let Some(end) = spec_sql_identifier(s, pos) {
        lemma_run1_alike(s, longer, end, end, ByteClass::Space);
        if let Some(keyword) = spec_run1(s, end, ByteClass::Space) {
            if let Some(gap) = spec_caseless_tag(s, keyword, "as"@) {
                lemma_run1_alike(s, longer, gap, gap, ByteClass::Space);
                if let Some(alias) = spec_run1(s, gap, ByteClass::Space) {
                    lemma_run1_alike(s, longer, alias, alias, ByteClass::Identifier);
                }
            }
        }
    }
}

/// A leaf of a condition is the same in both inputs.
pub proof fn lemma_predicate_alike(s: Seq<u8>, longer: Seq<u8>, pos: int, later: int)
    requires
        terminated(s, longer),
        0 <= pos <= s.len(),
        corresponds(s, pos, later),
    ensures
        same_found(s, spec_predicate(s, pos), spec_predicate(longer, later)),
        spec_predicate(s, pos) matches Some((_, end)) ==> pos < end <= s.len(),
{
    lemma_scans_alike(s, longer);
    lemma_multispace_alike(s, longer, pos, later);
    let start = spec_skip(s, pos, ByteClass::Multispace);
    let start2 = spec_skip(longer, later, ByteClass::Multispace);
    lemma_run1_alike(s, longer, start, start2, ByteClass::Digit);
    lemma_quoted_alike(s, longer, start, start2, 0x22);
    lemma_quoted_alike(s, longer, start, start2, 0x27);
    lemma_run1_alike(s, longer, start, start2, ByteClass::Alphanumeric);
    if let Some(leaf) = spec_byte(s, start, 0x3F) {
        lemma_multispace_alike(s, longer, leaf, leaf);
    }
    if let Some(leaf) = spec_run1(s, start, ByteClass::Digit) {
        lemma_multispace_alike(s, longer, leaf, leaf);
    }
    if let Some((_, leaf)) = spec_quoted(s, start, 0x22) {
        lemma_multispace_alike(s, longer, leaf, leaf);
    }
    if let Some((_, leaf)) = spec_quoted(s, start, 0x27) {
        lemma_multispace_alike(s, longer, leaf, leaf);
    }
    if let Some(leaf) = spec_run1(s, start, ByteClass::Alphanumeric) {
        lemma_multispace_alike(s, longer, leaf, leaf);
    }
}

/// A chain of comparisons is the same in both inputs.
pub proof fn lemma_boolean_primary_alike(s: Seq<u8>, longer: Seq<u8>, pos: int, later: int)
    requires
        terminated(s, longer),
        0 <= pos <= s.len(),
        corresponds(s, pos, later),
    ensures
        same_found(s, spec_boolean_primary(s, pos), spec_boolean_primary(longer, later)),
        spec_boolean_primary(s, pos) matches Some((_, end)) ==> pos < end <= s.len(),
    decreases remaining(s, pos), 0nat,
{
    lemma_predicate_alike(s, longer, pos, later);
    if let Some((_, end)) = spec_predicate(s, pos) {
        let end2 = spec_predicate(longer, later).unwrap().1;
        lemma_comparisons_alike(s, longer, end, end2);
    }
}

/// A comparison with its right-hand side is the same in both inputs.
pub proof fn lemma_comparison_alike(s: Seq<u8>, longer: Seq<u8>, pos: int, later: int)
    requires
        terminated(s, longer),
        0 <= pos <= s.len(),
        corresponds(s, pos, later),
    ensures
        same_found(s, spec_comparison(s, pos), spec_comparison(longer, later)),
        spec_comparison(s, pos) matches Some((_, end)) ==> pos < end <= s.len(),
    decreases remaining(s, pos), 1nat,
{
    lemma_multispace_alike(s, longer, pos, later);
    let mark = spec_skip(s, pos, ByteClass::Multispace);
    let mark2 = spec_skip(longer, later, ByteClass::Multispace);
    lemma_operators_alike(s, longer, mark, mark2);
    if let Some((_, end)) = spec_binary_comparison_operator(s, mark) {
        lemma_multispace_alike(s, longer, end, end);
        lemma_boolean_primary_alike(
            s,
            longer,
            spec_skip(s, end, ByteClass::Multispace),
            spec_skip(longer, end, ByteClass::Multispace),
        );
    }
}

/// Comparisons that follow one another are the same in both inputs.
pub proof fn lemma_comparisons_alike(s: Seq<u8>, longer: Seq<u8>, pos: int, later: int)
    requires
        terminated(s, longer),
        0 <= pos <= s.len(),
        corresponds(s, pos, later),
    ensures
        same_list(s, spec_comparisons(s, pos), spec_comparisons(longer, later)),
        pos <= spec_comparisons(s, pos).1 <= s.len(),
    decreases remaining(s, pos), 2nat,
{
    lemma_comparison_alike(s, longer, pos, later);
    lemma_comparison_consumes(s, pos);
    lemma_comparison_consumes(longer, later);
    if let Some((_, next)) = spec_comparison(s, pos) {
        let next2 = spec_comparison(longer, later).unwrap().1;
        lemma_comparisons_alike(s, longer, next, next2);
    }
}

/// A condition is the same in both inputs.
pub proof fn lemma_condition_expr_alike(s: Seq<u8>, longer: Seq<u8>, pos: int, later: int)
    requires
        terminated(s, longer),
        0 <= pos <= s.len(),
        corresponds(s, pos, later),
    ensures
        same_found(s, spec_condition_expr(s, pos), spec_condition_expr(longer, later)),
        spec_condition_expr(s, pos) matches Some((_, end)) ==> pos < end <= s.len(),
    decreases remaining(s, pos), 0nat,
{
    lemma_operators_alike(s, longer, pos, later);
    let start = match spec_unary_negation_operator(s, pos) {
        Some((_, end)) => end,
        None => pos,
    };
    let start2 = match spec_unary_negation_operator(longer, later) {
        Some((_, end)) => end,
        None => later,
    };
    lemma_boolean_primary_alike(s, longer, start, start2);
    if let Some((_, end)) = spec_boolean_primary(s, start) {
        let end2 = spec_boolean_primary(longer, start2).unwrap().1;
        lemma_conjunctions_alike(s, longer, end, end2);
    }
}

/// A logical operator with its right-hand side is the same in both inputs.
pub proof fn lemma_conjunction_alike(s: Seq<u8>, longer: Seq<u8>, pos: int, later: int)
    requires
        terminated(s, longer),
        0 <= pos <= s.len(),
        corresponds(s, pos, later),
    ensures
        same_found(s, spec_conjunction(s, pos), spec_conjunction(longer, later)),
        spec_conjunction(s, pos) matches Some((_, end)) ==> pos < end <= s.len(),
    decreases remaining(s, pos), 1nat,
{
    lemma_multispace_alike(s, longer, pos, later);
    let mark = spec_skip(s, pos, ByteClass::Multispace);
    let mark2 = spec_skip(longer, later, ByteClass::Multispace);
    lemma_operators_alike(s, longer, mark, mark2);
    if let Some((_, end)) = spec_binary_logical_operator(s, mark) {
        lemma_multispace_alike(s, longer, end, end);
        lemma_condition_expr_alike(
            s,
            longer,
            spec_skip(s, end, ByteClass::Multispace),
            spec_skip(longer, end, ByteClass::Multispace),
        );
    }
}

/// Logical operators with their right-hand sides that follow one another
/// are the same in both inputs.
pub proof fn lemma_conjunctions_alike(s: Seq<u8>, longer: Seq<u8>, pos: int, later: int)
    requires
        terminated(s, longer),
        0 <= pos <= s.len(),
        corresponds(s, pos, later),
    ensures
        same_list(s, spec_conjunctions(s, pos), spec_conjunctions(longer, later)),
        pos <= spec_conjunctions(s, pos).1 <= s.len(),
    decreases remaining(s, pos), 2nat,
{
    lemma_conjunction_alike(s, longer, pos, later);
    lemma_conjunction_consumes(s, pos);
    lemma_conjunction_consumes(longer, later);
    if let Some((_, next)) = spec_conjunction(s, pos) {
        let next2 = spec_conjunction(longer, later).unwrap().1;
        lemma_conjunctions_alike(s, longer, next, next2);
    }
}

/// A `LIMIT` clause is the same in both inputs.
pub proof fn lemma_limit_clause_alike(s: Seq<u8>, longer: Seq<u8>, pos: int, later: int)
    requires
        terminated(s, longer),
        0 <= pos <= s.len(),
        corresponds(s, pos, later),
    ensures
        spec_limit_clause(longer, later) == spec_limit_clause(s, pos),
        spec_limit_clause(s, pos) matches Some((_, end)) ==> later == pos && pos < end <= s.len(),
{
    lemma_scans_alike(s, longer);
    lemma_plain_words();
    lemma_run1_alike(s, longer, pos, later, ByteClass::Space);
    if let Some(keyword) = spec_run1(s, pos, ByteClass::Space) {
        if let Some(gap) = spec_caseless_tag(s, keyword, "limit"@) {
            lemma_run1_alike(s, longer, gap, gap, ByteClass::Space);
            if let Some(number) = spec_run1(s, gap, ByteClass::Space) {
                lemma_unsigned_number_alike(s, longer, number, number);
                if let Some((_, end)) = spec_unsigned_number(s, number) {
                    let behind = spec_skip(s, end, ByteClass::Space);
                    lemma_skip_alike(s, longer, end, end, ByteClass::Space);
                    if let Some(gap2) = spec_caseless_tag(s, behind, "offset"@) {
                        lemma_run1_alike(s, longer, gap2, gap2, ByteClass::Space);
                        if let Some(number2) = spec_run1(s, gap2, ByteClass::Space) {
                            lemma_unsigned_number_alike(s, longer, number2, number2);
                        }
                    }
                }
            }
        }
    }
}

/// The direction of an `ORDER BY` clause is the same in both inputs.
pub proof fn lemma_ordering_alike(s: Seq<u8>, longer: Seq<u8>, pos: int, later: int)
    requires
        terminated(s, longer),
        0 <= pos <= s.len(),
        corresponds(s, pos, later),
    ensures
        spec_ordering(longer, later) == spec_ordering(s, pos),
        spec_ordering(s, pos) matches Some((_, end)) ==> later == pos && pos < end <= s.len(),
{
    lemma_scans_alike(s, longer);
    lemma_plain_words();
    lemma_multispace_alike(s, longer, pos, later);
}

/// An `ORDER BY` clause that is found in the shorter input is found in the
/// longer one, with the same value.
pub proof fn lemma_order_clause_kept(s: Seq<u8>, longer: Seq<u8>, pos: int, later: int)
    requires
        terminated(s, longer),
        0 <= pos <= s.len(),
        corresponds(s, pos, later),
    ensures
        kept_found(s, spec_order_clause(s, pos), spec_order_clause(longer, later)),
        spec_order_clause(s, pos) matches Some((_, end)) ==> pos < end <= s.len(),
{
    lemma_scans_alike(s, longer);
    lemma_plain_words();
    lemma_multispace_alike(s, longer, pos, later);
    let mark = spec_skip(s, pos, ByteClass::Multispace);
    if let Some(gap) = spec_caseless_tag(s, mark, "order by"@) {
        lemma_multispace_alike(s, longer, gap, gap);
        if let Some(list) = spec_run1(s, gap, ByteClass::Multispace) {
            let list2 = spec_run1(longer, gap, ByteClass::Multispace).unwrap();
            lemma_field_list_alike(s, longer, list, list2);
            lemma_ordering_alike(
                s,
                longer,
                spec_field_list(s, list).1,
                spec_field_list(longer, list2).1,
            );
        }
    }
}

/// Where an `ORDER BY` clause is found in the longer input only, the shorter
/// input holds neither a `LIMIT` clause nor the end of a statement at that
/// position.
pub proof fn lemma_order_clause_new(s: Seq<u8>, longer: Seq<u8>, pos: int, later: int)
    requires
        terminated(s, longer),
        0 <= pos <= s.len(),
        corresponds(s, pos, later),
        spec_order_clause(s, pos) is None,
        spec_order_clause(longer, later) is Some,
    ensures
        spec_limit_clause(s, pos) is None,
        spec_statement_terminator(s, pos) is None,
{
    lemma_scans_alike(s, longer);
    lemma_plain_words();
    reveal_strlit("order by");
    reveal_strlit("limit");
    lemma_multispace_alike(s, longer, pos, later);
    lemma_run_len_accepts(s, pos, ByteClass::Multispace);
    lemma_run_len_accepts(s, pos, ByteClass::Space);
    let mark = spec_skip(s, pos, ByteClass::Multispace);
    let blank = spec_skip(s, pos, ByteClass::Space);
    assert(spec_caseless_tag(s, mark, "order by"@) is Some);
    assert(ascii_lower(s[mark + 0]) == ascii_lower("order by"@[0] as u8));
    assert(blank <= mark) by {
        if blank > mark {
            assert(ByteClass::Space.accepts(s[mark]));
        }
    }
    if let Some(keyword) = spec_run1(s, pos, ByteClass::Space) {
        if spec_caseless_tag(s, keyword, "limit"@) is Some {
            assert(ascii_lower(s[keyword + 0]) == ascii_lower("limit"@[0] as u8));
            if keyword < mark {
                assert(ByteClass::Multispace.accepts(s[keyword]));
            }
        }
    }
}

/// A `WHERE` clause is the same in both inputs.
pub proof fn lemma_where_clause_alike(s: Seq<u8>, longer: Seq<u8>, pos: int, later: int)
    requires
        terminated(s, longer),
        0 <= pos <= s.len(),
        corresponds(s, pos, later),
    ensures
        same_found(s, spec_where_clause(s, pos), spec_where_clause(longer, later)),
        spec_where_clause(s, pos) matches Some((_, end)) ==> pos < end <= s.len(),
{
    lemma_scans_alike(s, longer);
    lemma_plain_words();
    lemma_run1_alike(s, longer, pos, later, ByteClass::Space);
    if let Some(keyword) = spec_run1(s, pos, ByteClass::Space) {
        if let Some(gap) = spec_caseless_tag(s, keyword, "where"@) {
            lemma_run1_alike(s, longer, gap, gap, ByteClass::Space);
            if let Some(condition) = spec_run1(s, gap, ByteClass::Space) {
                lemma_condition_expr_alike(s, longer, condition, condition);
            }
        }
    }
}

/// A `SELECT` statement that is found in the shorter input is found in the
/// longer one, with the same value.
pub proof fn lemma_selection_kept(s: Seq<u8>, longer: Seq<u8>, pos: int)
    requires
        terminated(s, longer),
        0 <= pos <= s.len(),
        spec_selection(s, pos) is Some,
    ensures
        spec_selection(longer, pos) is Some,
        spec_selection(longer, pos).unwrap().0 == spec_selection(s, pos).unwrap().0,
{
    lemma_scans_alike(s, longer);
    lemma_plain_words();
    let gap = spec_caseless_tag(s, pos, "select"@).unwrap();
    lemma_run1_alike(s, longer, gap, gap, ByteClass::Space);
    let word = spec_run1(s, gap, ByteClass::Space).unwrap();
    let (distinct, list) = spec_select_keyword(s, pos).unwrap();
    let tail = match spec_caseless_tag(s, word, "distinct"@) {
        Some(end) => end,
        None => word,
    };
    lemma_skip_alike(s, longer, tail, tail, ByteClass::Space);
    assert(spec_select_keyword(longer, pos) == Some((distinct, list)));
    lemma_field_list_alike(s, longer, list, list);
    let from = spec_field_list(s, list).1;
    let from2 = spec_field_list(longer, list).1;
    lemma_multispace_alike(s, longer, from, from2);
    let keyword = spec_run1(s, from, ByteClass::Multispace).unwrap();
    let after = spec_caseless_tag(s, keyword, "from"@).unwrap();
    lemma_multispace_alike(s, longer, after, after);
    let name = spec_from_keyword(s, from).unwrap();
    assert(spec_from_keyword(longer, from2) == Some(name));
    lemma_table_reference_alike(s, longer, name, name);
    let clauses = spec_table_reference(s, name).unwrap().1;
    lemma_where_clause_alike(s, longer, clauses, clauses);
    let ordered = optional(spec_where_clause(s, clauses), clauses).1;
    let ordered2 = optional(spec_where_clause(longer, clauses), clauses).1;
    lemma_order_clause_kept(s, longer, ordered, ordered2);
    lemma_limit_clause_alike(s, longer, ordered, ordered2);
    if spec_order_clause(s, ordered) is None && spec_order_clause(longer, ordered2) is Some {
        lemma_order_clause_new(s, longer, ordered, ordered2);
    }
    let limited = optional(spec_order_clause(s, ordered), ordered).1;
    let limited2 = optional(spec_order_clause(longer, ordered2), ordered2).1;
    lemma_limit_clause_alike(s, longer, limited, limited2);
    let terminator = optional(spec_limit_clause(s, limited), limited).1;
    let terminator2 = optional(spec_limit_clause(longer, limited2), limited2).1;
    lemma_statement_terminator_kept(s, longer, terminator, terminator2);
}

/// An `INSERT` statement that is found in the shorter input is found in the
/// longer one, with the same value.
pub proof fn lemma_insertion_kept(s: Seq<u8>, longer: Seq<u8>, pos: int)
    requires
        terminated(s, longer),
        0 <= pos <= s.len(),
        spec_insertion(s, pos) is Some,
    ensures
        spec_insertion(longer, pos) is Some,
        spec_insertion(longer, pos).unwrap().0 == spec_insertion(s, pos).unwrap().0,
{
    lemma_scans_alike(s, longer);
    lemma_plain_words();
    reveal_strlit("values");
    let gap = spec_caseless_tag(s, pos, "insert"@).unwrap();
    lemma_multispace_alike(s, longer, gap, gap);
    let word = spec_run1(s, gap, ByteClass::Multispace).unwrap();
    let behind = spec_caseless_tag(s, word, "into"@).unwrap();
    lemma_multispace_alike(s, longer, behind, behind);
    let name = spec_insert_keyword(s, pos).unwrap();
    assert(spec_insert_keyword(longer, pos) == Some(name));
    lemma_table_reference_alike(s, longer, name, name);
    let after = spec_table_reference(s, name).unwrap().1;
    lemma_multispace_alike(s, longer, after, after);
    let list = spec_run1(s, after, ByteClass::Multispace).unwrap();
    assert(spec_run1(longer, after, ByteClass::Multispace) == Some(list));
    if let Some(fields) = spec_byte(s, list, 0x28) {
        assert(spec_caseless_tag(s, list, "values"@) is None) by {
            if spec_caseless_tag(s, list, "values"@) is Some {
                assert(ascii_lower(s[list + 0]) == ascii_lower("values"@[0] as u8));
            }
        }
        lemma_field_list_alike(s, longer, fields, fields);
        let close = spec_field_list(s, fields).1;
        if let Some(blank) = spec_byte(s, close, 0x29) {
            lemma_multispace_alike(s, longer, blank, blank);
        }
    }
    let keyword = optional(spec_insert_columns(s, list), list).1;
    assert(optional(spec_insert_columns(longer, list), list) == optional(
        spec_insert_columns(s, list),
        list,
    ));
    let blank = spec_caseless_tag(s, keyword, "values"@).unwrap();
    lemma_multispace_alike(s, longer, blank, blank);
    let open = spec_run1(s, blank, ByteClass::Multispace).unwrap();
    let values = spec_byte(s, open, 0x28).unwrap();
    lemma_value_list_alike(s, longer, values, values);
    let close = spec_value_list(s, values).1;
    let terminator = spec_byte(s, close, 0x29).unwrap();
    assert(spec_insert_values(longer, keyword) == spec_insert_values(s, keyword));
    lemma_statement_terminator_kept(s, longer, terminator, terminator);
}

/// The bytes `s` hold the same statement when `;` or a line feed is put
/// behind them, provided that they hold a statement as they are, that is
/// with the end of the input as the end of the statement.
pub proof fn lemma_terminators_interchangeable(s: Seq<u8>)
    requires
        spec_parse_query(s) is Some,
    ensures
        spec_parse_query(s.push(0x3B)) == spec_parse_query(s),
        spec_parse_query(s.push(0x0A)) == spec_parse_query(s),
{
    lemma_terminated_same_query(s, s.push(0x3B));
    lemma_terminated_same_query(s, s.push(0x0A));
}

/// A statement that the shorter input holds is the statement that the longer
/// one holds.
pub proof fn lemma_terminated_same_query(s: Seq<u8>, longer: Seq<u8>)
    requires
        terminated(s, longer),
        spec_parse_query(s) is Some,
    ensures
        spec_parse_query(longer) == spec_parse_query(s),
{
    lemma_scans_alike(s, longer);
    lemma_plain_words();
    if spec_insertion(s, 0) is Some {
        lemma_insertion_kept(s, longer, 0);
    } else {
        lemma_selection_kept(s, longer, 0);
        reveal_strlit("select");
        reveal_strlit("insert");
        assert(spec_caseless_tag(s, 0, "select"@) is Some);
        assert(ascii_lower(s[0int + 0]) == ascii_lower("select"@[0] as u8));
        if spec_caseless_tag(longer, 0, "insert"@) is Some {
            assert(ascii_lower(longer[0int + 0]) == ascii_lower("insert"@[0] as u8));
        }
    }
}

/// A text that holds a statement, with the end of the text as the end of
/// the statement, holds the same statement when `;` or a line feed is put
/// behind it.
pub proof fn lemma_terminators_interchangeable_in_text(text: Seq<char>)
    requires
        spec_parse_query(encode_utf8(text)) is Some,
    ensures
        spec_parse_query(encode_utf8(text.push(';'))) == spec_parse_query(encode_utf8(text)),
        spec_parse_query(encode_utf8(text.push('\n'))) == spec_parse_query(encode_utf8(text)),
{
    lemma_encode_push_ascii(text, ';');
    lemma_encode_push_ascii(text, '\n');
    lemma_terminators_interchangeable(encode_utf8(text));
}

/// A `SELECT` statement that is read from text has no `GROUP BY` clause, and
/// its condition, where it has one, is well-formed.
pub proof fn lemma_parsed_select_shape(s: Seq<u8>)
    ensures
        spec_parse_query(s) matches Some(SqlQueryView::Select(statement)) ==> {
            &&& statement.group_by is None
            &&& statement.where_clause matches Some(condition) ==> well_formed(condition)
        },
{
    if let Some((_, list)) = spec_select_keyword(s, 0) {
        if let Some(name) = spec_from_keyword(s, spec_field_list(s, list).1) {
            if let Some((_, clauses)) = spec_table_reference(s, name) {
                if let Some(keyword) = spec_run1(s, clauses, ByteClass::Space) {
                    if let Some(gap) = spec_caseless_tag(s, keyword, "where"@) {
                        if let Some(condition) = spec_run1(s, gap, ByteClass::Space) {
                            lemma_condition_expr_well_formed(s, condition);
                        }
                    }
                }
            }
        }
    }
}

/// Behind optional whitespace no line feed is left: a statement that does
/// not end in `;` ends where whitespace reaches the end of the input.
pub proof fn lemma_line_feed_is_whitespace(s: Seq<u8>, pos: int)
    requires
        0 <= pos <= s.len(),
    ensures
        spec_line_ending(s, spec_skip(s, pos, ByteClass::Multispace)) is None,
        spec_statement_terminator(s, pos) is Some <==> (spec_byte(
            s,
            spec_skip(s, pos, ByteClass::Multispace),
            0x3B,
        ) is Some || spec_eof(s, spec_skip(s, pos, ByteClass::Multispace)) is Some),
{
    lemma_run_len_accepts(s, pos, ByteClass::Multispace);
}

} // verus!
