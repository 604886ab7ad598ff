//! Lexical primitives and the list grammars built from them.

use crate::scan::{
    byte, caseless_tag, eof, line_ending, lemma_run_is_ascii, lemma_run_len_accepts, position,
    remaining, run1, skip, spec_byte, spec_caseless_tag, spec_eof, spec_is_alphanumeric, spec_is_digit, spec_is_fp_number, spec_is_sql_identifier,
    spec_line_ending, spec_run1, spec_skip, spec_tag, tag, ByteClass,
};
use crate::text::{all_ascii, ascii_string, text_of, texts};
use vstd::string::*;
use vstd::prelude::*;
use vstd::slice::slice_subrange;

verus! {

/// The operators of a condition.
#[derive(Clone, Copy, Debug, PartialEq, Eq, Structural)]
pub enum Operator {
    Not,
    And,
    Or,
    Like,
    NotLike,
    Equal,
    NotEqual,
    Greater,
    GreaterOrEqual,
    Less,
    LessOrEqual,
}

/// `nom::is_alphanumeric`: true exactly of the ASCII letters and the decimal
/// digits.
pub assume_specification[ nom::is_alphanumeric ](chr: u8) -> (r: bool)
    ensures
        r == spec_is_alphanumeric(chr),
;

/// Whether `chr` may stand in an identifier: an alphanumeric, `_` or `.`.
#[inline]
pub fn is_sql_identifier(chr: u8) -> (r: bool)
    ensures
        r == spec_is_sql_identifier(chr),
{
    nom::is_alphanumeric(chr) || chr == '_' as u8 || chr == '.' as u8
}

/// Whether `chr` may stand in a bare value: an alphanumeric or `.`.
#[inline]
pub fn is_fp_number(chr: u8) -> (r: bool)
    ensures
        r == spec_is_fp_number(chr),
{
    nom::is_alphanumeric(chr) || chr == '.' as u8
}

/// The first of two attempts that matched.
pub open spec fn or_else<T>(first: Option<T>, second: Option<T>) -> Option<T> {
    if first is Some {
        first
    } else {
        second
    }
}

/// An identifier at `pos`: a non-empty run of identifier bytes.
pub open spec fn spec_sql_identifier(s: Seq<u8>, pos: int) -> Option<int> {
    spec_run1(s, pos, ByteClass::Identifier)
}

/// A bare value at `pos`: a non-empty run of alphanumerics and `.`.
pub open spec fn spec_fp_number(s: Seq<u8>, pos: int) -> Option<int> {
    spec_run1(s, pos, ByteClass::FpNumber)
}

/// An identifier at `pos`.
pub fn sql_identifier_at(input: &[u8], pos: usize) -> (r: Option<usize>)
    ensures
        position(r) == spec_sql_identifier(input@, pos as int),
        r matches Some(end) ==> pos < end <= input.len(),
{
    run1(input, pos, ByteClass::Identifier)
}

/// An identifier at the start of `input`: the rest of the input and the
/// identifier, or nothing where the input starts with no identifier byte.
pub fn sql_identifier(input: &[u8]) -> (r: Option<(&[u8], &[u8])>)
    ensures
        match r {
            Some((rest, name)) => {
                &&& spec_sql_identifier(input@, 0) == Some(name@.len() as int)
                &&& name@ == input@.subrange(0, name@.len() as int)
                &&& rest@ == input@.subrange(name@.len() as int, input@.len() as int)
            },
            None => spec_sql_identifier(input@, 0) is None,
        },
{
    match sql_identifier_at(input, 0) {
        Some(end) => Some(
            (slice_subrange(input, end, input.len()), slice_subrange(input, 0, end)),
        ),
        None => None,
    }
}

/// A bare value at `pos`.
pub fn fp_number(input: &[u8], pos: usize) -> (r: Option<usize>)
    ensures
        position(r) == spec_fp_number(input@, pos as int),
        r matches Some(end) ==> pos < end <= input.len(),
{
    run1(input, pos, ByteClass::FpNumber)
}

/// The value of a decimal digit; zero for any other byte.
pub open spec fn digit_value(b: u8) -> nat {
    if spec_is_digit(b) {
        (b - 0x30) as nat
    } else {
        0
    }
}

/// The number that a string of decimal digits denotes.
pub open spec fn decimal_value(digits: Seq<u8>) -> nat
    decreases digits.len(),
{
    if digits.len() == 0 {
        0
    } else {
        decimal_value(digits.drop_last()) * 10 + digit_value(digits.last())
    }
}

/// A prefix of a string of digits denotes no more than the whole string.
pub proof fn lemma_decimal_value_prefix(digits: Seq<u8>, k: int)
    requires
        0 <= k <= digits.len(),
    ensures
        decimal_value(digits.subrange(0, k)) <= decimal_value(digits),
    decreases digits.len(),
{
    if k == digits.len() {
        assert(digits.subrange(0, k) =~= digits);
    } else {
        lemma_decimal_value_prefix(digits.drop_last(), k);
        assert(digits.drop_last().subrange(0, k) =~= digits.subrange(0, k));
    }
}

/// An unsigned number at `pos`: a non-empty run of decimal digits whose value
/// fits in 64 bits.
pub open spec fn spec_unsigned_number(s: Seq<u8>, pos: int) -> Option<(u64, int)> {
    match spec_run1(s, pos, ByteClass::Digit) {
        Some(end) => if decimal_value(s.subrange(pos, end)) <= u64::MAX {
            Some((decimal_value(s.subrange(pos, end)) as u64, end))
        } else {
            None
        },
        None => None,
    }
}

/// An unsigned number at `pos`. A run of digits that denotes more than
/// `u64::MAX` is no number.
pub fn unsigned_number(input: &[u8], pos: usize) -> (r: Option<(u64, usize)>)
    ensures
        match r {
            Some((value, end)) => spec_unsigned_number(input@, pos as int) == Some(
                (value, end as int),
            ) && pos < end <= input.len(),
            None => spec_unsigned_number(input@, pos as int) is None,
        },
{
    let end = match run1(input, pos, ByteClass::Digit) {
        Some(end) => end,
        None => {
            return None;
        },
    };
    proof {
        lemma_run_len_accepts(input@, pos as int, ByteClass::Digit);
    }
    let ghost digits = input@.subrange(pos as int, end as int);
    let mut value: u64 = 0;
    let mut i: usize = pos;
    while i < end
        invariant
            pos <= i <= end <= input.len(),
            digits == input@.subrange(pos as int, end as int),
            value == decimal_value(input@.subrange(pos as int, i as int)),
            spec_run1(input@, pos as int, ByteClass::Digit) == Some(end as int),
            forall|j: int| pos <= j < end ==> spec_is_digit(#[trigger] input@[j]),
        decreases end - i,
    {
        let d: u64 = (input[i] - 0x30) as u64;
        proof {
            assert(input@.subrange(pos as int, i + 1).drop_last() =~= input@.subrange(
                pos as int,
                i as int,
            ));
            assert(input@.subrange(pos as int, i + 1) =~= digits.subrange(0, i + 1 - pos));
            lemma_decimal_value_prefix(digits, i + 1 - pos);
            assert(input@.subrange(pos as int, i + 1).last() == input@[i as int]);
            assert(decimal_value(input@.subrange(pos as int, i + 1)) == value * 10 + d);
        }
        if value > (u64::MAX - d) / 10 {
            return None;
        }
        value = value * 10 + d;
        i = i + 1;
    }
    Some((value, end))
}

/// The end of a statement at `pos`: optional whitespace, then `;`, a line
/// feed or the end of the input, then optional whitespace.
pub open spec fn spec_statement_terminator(s: Seq<u8>, pos: int) -> Option<int> {
    let mark = spec_skip(s, pos, ByteClass::Multispace);
    match or_else(spec_byte(s, mark, 0x3B), or_else(spec_line_ending(s, mark), spec_eof(s, mark))) {
        Some(end) => Some(spec_skip(s, end, ByteClass::Multispace)),
        None => None,
    }
}

/// The end of a statement at `pos`.
pub fn statement_terminator(input: &[u8], pos: usize) -> (r: Option<usize>)
    ensures
        position(r) == spec_statement_terminator(input@, pos as int),
        r matches Some(end) ==> pos <= end <= input.len(),
{
    let mark = skip(input, pos, ByteClass::Multispace);
    let end = match byte(input, mark, ';' as u8) {
        Some(end) => end,
        None => match line_ending(input, mark) {
            Some(end) => end,
            None => match eof(input, mark) {
                Some(end) => end,
                None => {
                    return None;
                },
            },
        },
    };
    Some(skip(input, end, ByteClass::Multispace))
}

/// A match of an operator's spelling, with the operator.
pub open spec fn spelled(end: Option<int>, operator: Operator) -> Option<(Operator, int)> {
    match end {
        Some(end) => Some((operator, end)),
        None => None,
    }
}

/// A comparison operator at `pos`. The spellings are tried in this order:
/// `like`, `not_like` (both in any case), `<>`, `>=`, `<=`, `=`, `<`, `>`.
pub open spec fn spec_binary_comparison_operator(s: Seq<u8>, pos: int) -> Option<(Operator, int)> {
    or_else(
        spelled(spec_caseless_tag(s, pos, "like"@), Operator::Like),
        or_else(
            spelled(spec_caseless_tag(s, pos, "not_like"@), Operator::NotLike),
            or_else(
                spelled(spec_tag(s, pos, "<>"@), Operator::NotEqual),
                or_else(
                    spelled(spec_tag(s, pos, ">="@), Operator::GreaterOrEqual),
                    or_else(
                        spelled(spec_tag(s, pos, "<="@), Operator::LessOrEqual),
                        or_else(
                            spelled(spec_byte(s, pos, 0x3D), Operator::Equal),
                            or_else(
                                spelled(spec_byte(s, pos, 0x3C), Operator::Less),
                                spelled(spec_byte(s, pos, 0x3E), Operator::Greater),
                            ),
                        ),
                    ),
                ),
            ),
        ),
    )
}

/// What an operator recogniser returned, as a mathematical value.
pub open spec fn operator_at(r: Option<(Operator, usize)>) -> Option<(Operator, int)> {
    match r {
        Some((operator, end)) => Some((operator, end as int)),
        None => None,
    }
}

/// A comparison operator at `pos`.
pub fn binary_comparison_operator(input: &[u8], pos: usize) -> (r: Option<(Operator, usize)>)
    ensures
        operator_at(r) == spec_binary_comparison_operator(input@, pos as int),
        r matches Some((_, end)) ==> pos <= end <= input.len(),
{
    proof {
        reveal_strlit("like");
        reveal_strlit("not_like");
        reveal_strlit("<>");
        reveal_strlit(">=");
        reveal_strlit("<=");
    }
    if let Some(end) = caseless_tag(input, pos, "like") {
        Some((Operator::Like, end))
    } else if let Some(end) = caseless_tag(input, pos, "not_like") {
        Some((Operator::NotLike, end))
    } else if let Some(end) = tag(input, pos, "<>") {
        Some((Operator::NotEqual, end))
    } else if let Some(end) = tag(input, pos, ">=") {
        Some((Operator::GreaterOrEqual, end))
    } else if let Some(end) = tag(input, pos, "<=") {
        Some((Operator::LessOrEqual, end))
    } else if let Some(end) = byte(input, pos, '=' as u8) {
        Some((Operator::Equal, end))
    } else if let Some(end) = byte(input, pos, '<' as u8) {
        Some((Operator::Less, end))
    } else if let Some(end) = byte(input, pos, '>' as u8) {
        Some((Operator::Greater, end))
    } else {
        None
    }
}

/// A logical operator at `pos`: `and` or `or`, in any case.
pub open spec fn spec_binary_logical_operator(s: Seq<u8>, pos: int) -> Option<(Operator, int)> {
    or_else(
        spelled(spec_caseless_tag(s, pos, "and"@), Operator::And),
        spelled(spec_caseless_tag(s, pos, "or"@), Operator::Or),
    )
}

/// A logical operator at `pos`.
pub fn binary_logical_operator(input: &[u8], pos: usize) -> (r: Option<(Operator, usize)>)
    ensures
        operator_at(r) == spec_binary_logical_operator(input@, pos as int),
        r matches Some((_, end)) ==> pos <= end <= input.len(),
{
    proof {
        reveal_strlit("and");
        reveal_strlit("or");
    }
    if let Some(end) = caseless_tag(input, pos, "and") {
        Some((Operator::And, end))
    } else if let Some(end) = caseless_tag(input, pos, "or") {
        Some((Operator::Or, end))
    } else {
        None
    }
}

/// A negation at `pos`: `not` in any case, or `!`.
pub open spec fn spec_unary_negation_operator(s: Seq<u8>, pos: int) -> Option<(Operator, int)> {
    or_else(
        spelled(spec_caseless_tag(s, pos, "not"@), Operator::Not),
        spelled(spec_byte(s, pos, 0x21), Operator::Not),
    )
}

/// A negation at `pos`.
pub fn unary_negation_operator(input: &[u8], pos: usize) -> (r: Option<(Operator, usize)>)
    ensures
        operator_at(r) == spec_unary_negation_operator(input@, pos as int),
        r matches Some((_, end)) ==> pos <= end <= input.len(),
{
    proof {
        reveal_strlit("not");
    }
    if let Some(end) = caseless_tag(input, pos, "not") {
        Some((Operator::Not, end))
    } else if let Some(end) = byte(input, pos, '!' as u8) {
        Some((Operator::Not, end))
    } else {
        None
    }
}

/// A unary comparison operator at `pos`: `ISNULL`, `NOT` or `-`, spelled
/// exactly so. The text is the operator as it is spelled.
pub open spec fn spec_unary_comparison_operator(s: Seq<u8>, pos: int) -> Option<(Seq<char>, int)> {
    or_else(
        token(s, pos, spec_tag(s, pos, "ISNULL"@)),
        or_else(token(s, pos, spec_tag(s, pos, "NOT"@)), token(s, pos, spec_byte(s, pos, 0x2D))),
    )
}

/// A unary comparison operator at `pos`.
pub fn unary_comparison_operator(input: &[u8], pos: usize) -> (r: Option<(String, usize)>)
    ensures
        text_at(r) == spec_unary_comparison_operator(input@, pos as int),
        r matches Some((_, end)) ==> pos < end <= input.len(),
{
    proof {
        reveal_strlit("ISNULL");
        reveal_strlit("NOT");
    }
    if let Some(end) = tag(input, pos, "ISNULL") {
        proof {
            lemma_tag_is_ascii(input@, pos as int, "ISNULL"@);
        }
        Some((ascii_string(input, pos, end), end))
    } else if let Some(end) = tag(input, pos, "NOT") {
        proof {
            lemma_tag_is_ascii(input@, pos as int, "NOT"@);
        }
        Some((ascii_string(input, pos, end), end))
    } else if let Some(end) = byte(input, pos, '-' as u8) {
        proof {
            assert(all_ascii(input@.subrange(pos as int, end as int)));
        }
        Some((ascii_string(input, pos, end), end))
    } else {
        None
    }
}

/// The position behind an optional list separator at `pos`: a comma, with
/// optional whitespace on both sides. Where no comma follows, nothing is
/// consumed.
pub open spec fn spec_list_separator(s: Seq<u8>, pos: int) -> int {
    match spec_byte(s, spec_skip(s, pos, ByteClass::Multispace), 0x2C) {
        Some(end) => spec_skip(s, end, ByteClass::Multispace),
        None => pos,
    }
}

/// The position behind an optional list separator at `pos`.
pub fn list_separator(input: &[u8], pos: usize) -> (end: usize)
    ensures
        end == spec_list_separator(input@, pos as int),
        pos <= end,
        end <= input.len() || end == pos,
{
    let comma = skip(input, pos, ByteClass::Multispace);
    match byte(input, comma, ',' as u8) {
        Some(end) => skip(input, end, ByteClass::Multispace),
        None => pos,
    }
}

/// The text of a token that starts at `pos`, with the position behind it.
pub open spec fn token(s: Seq<u8>, pos: int, end: Option<int>) -> Option<(Seq<char>, int)> {
    match end {
        Some(end) => Some((text_of(s.subrange(pos, end)), end)),
        None => None,
    }
}

/// What a recogniser of a text returned, as a mathematical value.
pub open spec fn text_at(r: Option<(String, usize)>) -> Option<(Seq<char>, int)> {
    match r {
        Some((text, end)) => Some((text@, end as int)),
        None => None,
    }
}

/// What a recogniser of a list returned, as a mathematical value.
pub open spec fn list_at(r: (Vec<String>, usize)) -> (Seq<Seq<char>>, int) {
    (texts(r.0@), r.1 as int)
}

/// Identifiers at `pos`, each followed by an optional separator: their names
/// in order, and the position behind the last of them.
pub open spec fn spec_csvlist(s: Seq<u8>, pos: int) -> (Seq<Seq<char>>, int)
    decreases remaining(s, pos),
{
    match spec_sql_identifier(s, pos) {
        Some(end) => {
            let (names, last) = spec_csvlist(s, spec_list_separator(s, end));
            (seq![text_of(s.subrange(pos, end))] + names, last)
        },
        None => (Seq::empty(), pos),
    }
}

/// Identifiers at `pos`, separated by commas.
pub fn csvlist(input: &[u8], pos: usize) -> (r: (Vec<String>, usize))
    ensures
        list_at(r) == spec_csvlist(input@, pos as int),
        pos <= r.1,
        r.1 <= input.len() || r.1 == pos,
{
    let mut names: Vec<String> = Vec::new();
    let mut cur: usize = pos;
    let mut found = sql_identifier_at(input, cur);
    while found.is_some()
        invariant
            pos <= cur,
            cur <= input.len() || cur == pos,
            position(found) == spec_sql_identifier(input@, cur as int),
            found matches Some(end) ==> cur < end <= input.len(),
            spec_csvlist(input@, pos as int) == (
                texts(names@) + spec_csvlist(input@, cur as int).0,
                spec_csvlist(input@, cur as int).1,
            ),
        decreases input.len() - cur,
    {
        let end = found.unwrap();
        proof {
            lemma_run_is_ascii(input@, cur as int, ByteClass::Identifier);
        }
        let name = ascii_string(input, cur, end);
        let next = list_separator(input, end);
        proof {
            let rest = spec_csvlist(input@, next as int).0;
            assert(texts(names@.push(name)) + rest =~= texts(names@) + (seq![name@] + rest));
        }
        names.push(name);
        cur = next;
        found = sql_identifier_at(input, cur);
    }
    proof {
        assert(texts(names@) + Seq::<Seq<char>>::empty() =~= texts(names@));
    }
    (names, cur)
}

/// A list of fields at `pos`: `*`, which stands for the one name `ALL`, or
/// identifiers separated by commas (none at all is a list too).
pub open spec fn spec_field_list(s: Seq<u8>, pos: int) -> (Seq<Seq<char>>, int) {
    match spec_byte(s, pos, 0x2A) {
        Some(end) => (seq!["ALL"@], end),
        None => spec_csvlist(s, pos),
    }
}

/// A list of fields at `pos`.
pub fn field_list(input: &[u8], pos: usize) -> (r: (Vec<String>, usize))
    ensures
        list_at(r) == spec_field_list(input@, pos as int),
        pos <= r.1,
        r.1 <= input.len() || r.1 == pos,
{
    match byte(input, pos, '*' as u8) {
        Some(end) => {
            let mut names: Vec<String> = Vec::new();
            names.push("ALL".to_owned());
            proof {
                assert(texts(names@) =~= seq!["ALL"@]);
            }
            (names, end)
        },
        None => csvlist(input, pos),
    }
}

/// A quoted word at `pos`: the byte `quote`, a non-empty run of
/// alphanumerics, and `quote` again. The text is the word without the quotes.
pub open spec fn spec_quoted(s: Seq<u8>, pos: int, quote: u8) -> Option<(Seq<char>, int)> {
    match spec_byte(s, pos, quote) {
        Some(open) => match spec_run1(s, open, ByteClass::Alphanumeric) {
            Some(close) => match spec_byte(s, close, quote) {
                Some(end) => Some((text_of(s.subrange(open, close)), end)),
                None => None,
            },
            None => None,
        },
        None => None,
    }
}

/// A quoted word at `pos`.
pub fn quoted(input: &[u8], pos: usize, quote: u8) -> (r: Option<(String, usize)>)
    ensures
        text_at(r) == spec_quoted(input@, pos as int, quote),
        r matches Some((_, end)) ==> pos < end <= input.len(),
{
    let open = match byte(input, pos, quote) {
        Some(open) => open,
        None => {
            return None;
        },
    };
    let close = match run1(input, open, ByteClass::Alphanumeric) {
        Some(close) => close,
        None => {
            return None;
        },
    };
    let end = match byte(input, close, quote) {
        Some(end) => end,
        None => {
            return None;
        },
    };
    proof {
        lemma_run_is_ascii(input@, open as int, ByteClass::Alphanumeric);
    }
    Some((ascii_string(input, open, close), end))
}

/// One value of a value list at `pos`. The forms are tried in this order:
/// the placeholder `?`, the word `CURRENT_TIMESTAMP`, a word in single
/// quotes (the text is the word without them), a bare value.
pub open spec fn spec_value(s: Seq<u8>, pos: int) -> Option<(Seq<char>, int)> {
    or_else(
        token(s, pos, spec_byte(s, pos, 0x3F)),
        or_else(
            token(s, pos, spec_tag(s, pos, "CURRENT_TIMESTAMP"@)),
            or_else(spec_quoted(s, pos, 0x27), token(s, pos, spec_fp_number(s, pos))),
        ),
    )
}

/// The bytes that spell an ASCII word are ASCII codes.
pub proof fn lemma_tag_is_ascii(s: Seq<u8>, pos: int, word: Seq<char>)
    requires
        spec_tag(s, pos, word) is Some,
        vstd::utf8::is_ascii_chars(word),
    ensures
        all_ascii(s.subrange(pos, pos + word.len())),
{
    let t = s.subrange(pos, pos + word.len());
    assert forall|i: int| 0 <= i < t.len() implies #[trigger] t[i] < 0x80 by {
        assert(s[pos + i] == word[i] as u8);
    }
}

/// One value of a value list at `pos`.
pub fn value(input: &[u8], pos: usize) -> (r: Option<(String, usize)>)
    ensures
        text_at(r) == spec_value(input@, pos as int),
        r matches Some((_, end)) ==> pos < end <= input.len(),
{
    proof {
        reveal_strlit("CURRENT_TIMESTAMP");
    }
    if let Some(end) = byte(input, pos, '?' as u8) {
        proof {
            assert(all_ascii(input@.subrange(pos as int, end as int)));
        }
        Some((ascii_string(input, pos, end), end))
    } else if let Some(end) = tag(input, pos, "CURRENT_TIMESTAMP") {
        proof {
            lemma_tag_is_ascii(input@, pos as int, "CURRENT_TIMESTAMP"@);
        }
        Some((ascii_string(input, pos, end), end))
    } else if let Some(found) = quoted(input, pos, '\'' as u8) {
        Some(found)
    } else if let Some(end) = fp_number(input, pos) {
        proof {
            lemma_run_is_ascii(input@, pos as int, ByteClass::FpNumber);
        }
        Some((ascii_string(input, pos, end), end))
    } else {
        None
    }
}

/// Values at `pos`, each followed by an optional separator: their texts in
/// order, and the position behind the last of them. A value that consumed
/// nothing would end the list.
pub open spec fn spec_value_list(s: Seq<u8>, pos: int) -> (Seq<Seq<char>>, int)
    decreases remaining(s, pos),
{
    match spec_value(s, pos) {
        Some((text, end)) => {
            let next = spec_list_separator(s, end);
            if remaining(s, next) < remaining(s, pos) {
                let (values, last) = spec_value_list(s, next);
                (seq![text] + values, last)
            } else {
                (Seq::empty(), pos)
            }
        },
        None => (Seq::empty(), pos),
    }
}

/// Values at `pos`, separated by commas.
pub fn value_list(input: &[u8], pos: usize) -> (r: (Vec<String>, usize))
    ensures
        list_at(r) == spec_value_list(input@, pos as int),
        pos <= r.1,
        r.1 <= input.len() || r.1 == pos,
{
    let mut values: Vec<String> = Vec::new();
    let mut cur: usize = pos;
    let mut found = value(input, cur);
    while found.is_some()
        invariant
            pos <= cur,
            cur <= input.len() || cur == pos,
            text_at(found) == spec_value(input@, cur as int),
            found matches Some((_, end)) ==> cur < end <= input.len(),
            spec_value_list(input@, pos as int) == (
                texts(values@) + spec_value_list(input@, cur as int).0,
                spec_value_list(input@, cur as int).1,
            ),
        decreases input.len() - cur,
    {
        let (text, end) = found.unwrap();
        let next = list_separator(input, end);
        proof {
            let rest = spec_value_list(input@, next as int).0;
            assert(texts(values@.push(text)) + rest =~= texts(values@) + (seq![text@] + rest));
        }
        values.push(text);
        cur = next;
        found = value(input, cur);
    }
    proof {
        assert(texts(values@) + Seq::<Seq<char>>::empty() =~= texts(values@));
    }
    (values, cur)
}

/// An alias behind a table name at `pos`: blanks, `as` in any case, blanks,
/// and an identifier.
pub open spec fn spec_table_alias(s: Seq<u8>, pos: int) -> Option<int> {
    match spec_run1(s, pos, ByteClass::Space) {
        Some(keyword) => match spec_caseless_tag(s, keyword, "as"@) {
            Some(gap) => match spec_run1(s, gap, ByteClass::Space) {
                Some(alias) => spec_sql_identifier(s, alias),
                None => None,
            },
            None => None,
        },
        None => None,
    }
}

/// An alias behind a table name at `pos`.
pub fn table_alias(input: &[u8], pos: usize) -> (r: Option<usize>)
    ensures
        position(r) == spec_table_alias(input@, pos as int),
        r matches Some(end) ==> pos < end <= input.len(),
{
    proof {
        reveal_strlit("as");
    }
    let keyword = match run1(input, pos, ByteClass::Space) {
        Some(keyword) => keyword,
        None => {
            return None;
        },
    };
    let gap = match caseless_tag(input, keyword, "as") {
        Some(gap) => gap,
        None => {
            return None;
        },
    };
    let alias = match run1(input, gap, ByteClass::Space) {
        Some(alias) => alias,
        None => {
            return None;
        },
    };
    sql_identifier_at(input, alias)
}

/// A reference to a table at `pos`: an identifier, and an optional alias
/// behind it. The alias is read and dropped: the text is the table's name.
pub open spec fn spec_table_reference(s: Seq<u8>, pos: int) -> Option<(Seq<char>, int)> {
    match spec_sql_identifier(s, pos) {
        Some(end) => Some(
            (
                text_of(s.subrange(pos, end)),
                match spec_table_alias(s, end) {
                    Some(behind) => behind,
                    None => end,
                },
            ),
        ),
        None => None,
    }
}

/// A reference to a table at `pos`.
pub fn table_reference(input: &[u8], pos: usize) -> (r: Option<(String, usize)>)
    ensures
        text_at(r) == spec_table_reference(input@, pos as int),
        r matches Some((_, end)) ==> pos < end <= input.len(),
{
    let end = match sql_identifier_at(input, pos) {
        Some(end) => end,
        None => {
            return None;
        },
    };
    proof {
        lemma_run_is_ascii(input@, pos as int, ByteClass::Identifier);
    }
    let table = ascii_string(input, pos, end);
    match table_alias(input, end) {
        Some(behind) => Some((table, behind)),
        None => Some((table, end)),
    }
}

/// References to tables at `pos`, each followed by an optional separator:
/// the names of the tables in order, and the position behind the last
/// reference.
pub open spec fn spec_table_list(s: Seq<u8>, pos: int) -> (Seq<Seq<char>>, int)
    decreases remaining(s, pos),
{
    match spec_table_reference(s, pos) {
        Some((name, end)) => {
            let (names, last) = spec_table_list(s, spec_list_separator(s, end));
            (seq![name] + names, last)
        },
        None => (Seq::empty(), pos),
    }
}

/// References to tables at `pos`, separated by commas.
pub fn table_list(input: &[u8], pos: usize) -> (r: (Vec<String>, usize))
    ensures
        list_at(r) == spec_table_list(input@, pos as int),
        pos <= r.1,
        r.1 <= input.len() || r.1 == pos,
{
    let mut names: Vec<String> = Vec::new();
    let mut cur: usize = pos;
    let mut found = table_reference(input, cur);
    while found.is_some()
        invariant
            pos <= cur,
            cur <= input.len() || cur == pos,
            text_at(found) == spec_table_reference(input@, cur as int),
            found matches Some((_, end)) ==> cur < end <= input.len(),
            spec_table_list(input@, pos as int) == (
                texts(names@) + spec_table_list(input@, cur as int).0,
                spec_table_list(input@, cur as int).1,
            ),
        decreases input.len() - cur,
    {
        let (name, end) = found.unwrap();
        let next = list_separator(input, end);
        proof {
            let rest = spec_table_list(input@, next as int).0;
            assert(texts(names@.push(name)) + rest =~= texts(names@) + (seq![name@] + rest));
        }
        names.push(name);
        cur = next;
        found = table_reference(input, cur);
    }
    proof {
        assert(texts(names@) + Seq::<Seq<char>>::empty() =~= texts(names@));
    }
    (names, cur)
}

} // verus!
