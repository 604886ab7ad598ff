//! The grammar of conditions: leaves, chains of comparisons, and chains of
//! comparisons joined by `and` and `or`, each chain folded into a tree that
//! leans to the left.

use crate::common::{
    binary_comparison_operator, binary_logical_operator, or_else, quoted,
    spec_binary_comparison_operator, spec_binary_logical_operator, spec_quoted,
    spec_unary_negation_operator, token, unary_negation_operator, Operator,
};
use crate::scan::{
    byte, lemma_run_is_ascii, remaining, run1, skip, spec_byte, spec_run1, spec_skip, ByteClass,
};
use crate::text::ascii_string;
use vstd::pervasive::unreached;
use vstd::slice::slice_subrange;
use crate::parser::{
    well_formed, ConditionBase, ConditionBaseView, ConditionExpression, ConditionExpressionView,
    ConditionTree, ConditionTreeView,
};
use vstd::prelude::*;

verus! {

/// The operators that join two conditions.
pub open spec fn is_logical(operator: Operator) -> bool {
    operator == Operator::And || operator == Operator::Or
}

/// The operators that take two operands: all but the negation.
pub open spec fn is_binary(operator: Operator) -> bool {
    operator != Operator::Not
}

/// The node that a binary operator makes of two conditions: a logical node
/// for `and` and `or`, a comparison for the others.
pub open spec fn combine(
    left: ConditionExpressionView,
    operator: Operator,
    right: ConditionExpressionView,
) -> ConditionExpressionView {
    let tree = ConditionTreeView {
        operator,
        left: Some(Box::new(left)),
        right: Some(Box::new(right)),
    };
    if is_logical(operator) {
        ConditionExpressionView::LogicalOp(tree)
    } else {
        ConditionExpressionView::ComparisonOp(tree)
    }
}

/// The values of a list of operators with their right-hand sides.
pub open spec fn pairs_view(pairs: Seq<(Operator, ConditionExpression)>) -> Seq<
    (Operator, ConditionExpressionView),
> {
    Seq::new(pairs.len(), |i: int| (pairs[i].0, pairs[i].1@))
}

/// The tree of a chain: `initial` joined with each pair of `remainder` in
/// turn, from left to right, the tree so far becoming the left operand.
pub open spec fn spec_fold_cond_exprs(
    initial: ConditionExpressionView,
    remainder: Seq<(Operator, ConditionExpressionView)>,
) -> ConditionExpressionView
    decreases remainder.len(),
{
    if remainder.len() == 0 {
        initial
    } else {
        combine(
            spec_fold_cond_exprs(initial, remainder.drop_last()),
            remainder.last().0,
            remainder.last().1,
        )
    }
}

/// Folds a chain into a tree that leans to the left. Every operator of
/// `remainder` takes two operands.
pub fn fold_cond_exprs(
    initial: ConditionExpression,
    remainder: Vec<(Operator, ConditionExpression)>,
) -> (r: ConditionExpression)
    requires
        forall|i: int| 0 <= i < remainder@.len() ==> is_binary(#[trigger] remainder@[i].0),
    ensures
        r@ == spec_fold_cond_exprs(initial@, pairs_view(remainder@)),
{
    let ghost all = pairs_view(remainder@);
    let mut acc = initial;
    for pair in iter: remainder.into_iter()
        invariant
            all == pairs_view(iter.seq()),
            forall|i: int| 0 <= i < iter.seq().len() ==> is_binary(#[trigger] iter.seq()[i].0),
            acc@ == spec_fold_cond_exprs(initial@, all.take(iter.index() as int)),
    {
        let (oper, expr) = pair;
        proof {
            let i = iter.index() as int;
            assert(all.take(i + 1).drop_last() =~= all.take(i));
            assert(all.take(i + 1).last() == (oper, expr@));
        }
        acc =
        match oper {
            Operator::Equal
            | Operator::NotEqual
            | Operator::Greater
            | Operator::Less
            | Operator::GreaterOrEqual
            | Operator::LessOrEqual
            | Operator::Like
            | Operator::NotLike => ConditionExpression::ComparisonOp(
                ConditionTree { operator: oper, left: Some(Box::new(acc)), right: Some(Box::new(expr)) },
            ),
            Operator::And | Operator::Or => ConditionExpression::LogicalOp(
                ConditionTree { operator: oper, left: Some(Box::new(acc)), right: Some(Box::new(expr)) },
            ),
            Operator::Not => {
                proof {
                    assert(is_binary(iter.seq()[iter.index() as int].0));
                }
                unreached()
            },
        };
    }
    proof {
        assert(all.take(all.len() as int) =~= all);
    }
    acc
}

/// A leaf found by a recogniser of a text, as a literal.
pub open spec fn literal(found: Option<(Seq<char>, int)>) -> Option<(ConditionBaseView, int)> {
    match found {
        Some((text, end)) => Some((ConditionBaseView::Literal(text), end)),
        None => None,
    }
}

/// A leaf found by a recogniser of a text, as a field.
pub open spec fn field(found: Option<(Seq<char>, int)>) -> Option<(ConditionBaseView, int)> {
    match found {
        Some((text, end)) => Some((ConditionBaseView::Field(text), end)),
        None => None,
    }
}

/// A placeholder that ends at `found`.
pub open spec fn placeholder(found: Option<int>) -> Option<(ConditionBaseView, int)> {
    match found {
        Some(end) => Some((ConditionBaseView::Placeholder, end)),
        None => None,
    }
}

/// What a recogniser of a condition returned, as a mathematical value.
pub open spec fn condition_at(r: Option<(ConditionExpression, usize)>) -> Option<
    (ConditionExpressionView, int),
> {
    match r {
        Some((condition, end)) => Some((condition@, end as int)),
        None => None,
    }
}

/// A leaf at `pos`, with optional whitespace on both sides. The forms are
/// tried in this order: the placeholder `?`, a run of digits (a literal), a
/// run of alphanumerics in double or in single quotes (a literal, without the
/// quotes), a bare run of alphanumerics (a field).
pub open spec fn spec_predicate(s: Seq<u8>, pos: int) -> Option<(ConditionExpressionView, int)> {
    let start = spec_skip(s, pos, ByteClass::Multispace);
    let leaf = or_else(
        placeholder(spec_byte(s, start, 0x3F)),
        or_else(
            literal(token(s, start, spec_run1(s, start, ByteClass::Digit))),
            or_else(
                literal(spec_quoted(s, start, 0x22)),
                or_else(
                    literal(spec_quoted(s, start, 0x27)),
                    field(token(s, start, spec_run1(s, start, ByteClass::Alphanumeric))),
                ),
            ),
        ),
    );
    match leaf {
        Some((base, end)) => Some(
            (ConditionExpressionView::Base(base), spec_skip(s, end, ByteClass::Multispace)),
        ),
        None => None,
    }
}

/// A leaf at `pos`.
pub fn predicate(input: &[u8], pos: usize) -> (r: Option<(ConditionExpression, usize)>)
    ensures
        condition_at(r) == spec_predicate(input@, pos as int),
        r matches Some((_, end)) ==> pos < end <= input.len(),
{
    let start = skip(input, pos, ByteClass::Multispace);
    let (base, end) = if let Some(end) = byte(input, start, '?' as u8) {
        (ConditionBase::Placeholder, end)
    } else if let Some(end) = run1(input, start, ByteClass::Digit) {
        proof {
            lemma_run_is_ascii(input@, start as int, ByteClass::Digit);
        }
        (ConditionBase::Literal(ascii_string(input, start, end)), end)
    } else if let Some((text, end)) = quoted(input, start, '"' as u8) {
        (ConditionBase::Literal(text), end)
    } else if let Some((text, end)) = quoted(input, start, '\'' as u8) {
        (ConditionBase::Literal(text), end)
    } else if let Some(end) = run1(input, start, ByteClass::Alphanumeric) {
        proof {
            lemma_run_is_ascii(input@, start as int, ByteClass::Alphanumeric);
        }
        (ConditionBase::Field(ascii_string(input, start, end)), end)
    } else {
        return None;
    };
    Some((ConditionExpression::Base(base), skip(input, end, ByteClass::Multispace)))
}

/// A chain of comparisons at `pos`: a leaf, and behind it any number of
/// comparison operators, each with a chain of comparisons of its own as its
/// right-hand side. The chain is folded from left to right.
pub open spec fn spec_boolean_primary(s: Seq<u8>, pos: int) -> Option<
    (ConditionExpressionView, int),
>
    decreases remaining(s, pos), 0nat,
{
    match spec_predicate(s, pos) {
        Some((initial, end)) => {
            let (pairs, last) = spec_comparisons(s, end);
            Some((spec_fold_cond_exprs(initial, pairs), last))
        },
        None => None,
    }
}

/// A comparison operator at `pos`, with optional whitespace on both sides,
/// and the chain of comparisons that is its right-hand side.
pub open spec fn spec_comparison(s: Seq<u8>, pos: int) -> Option<
    ((Operator, ConditionExpressionView), int),
>
    decreases remaining(s, pos), 1nat,
{
    match spec_binary_comparison_operator(s, spec_skip(s, pos, ByteClass::Multispace)) {
        Some((operator, end)) => match spec_boolean_primary(
            s,
            spec_skip(s, end, ByteClass::Multispace),
        ) {
            Some((right, next)) => Some(((operator, right), next)),
            None => None,
        },
        None => None,
    }
}

/// As many comparisons as follow one another at `pos`, and the position
/// behind the last. One that consumed nothing would end the chain.
pub open spec fn spec_comparisons(s: Seq<u8>, pos: int) -> (
    Seq<(Operator, ConditionExpressionView)>,
    int,
)
    decreases remaining(s, pos), 2nat,
{
    match spec_comparison(s, pos) {
        Some((pair, next)) => if remaining(s, next) < remaining(s, pos) {
            let (pairs, last) = spec_comparisons(s, next);
            (seq![pair] + pairs, last)
        } else {
            (Seq::empty(), pos)
        },
        None => (Seq::empty(), pos),
    }
}

/// What a recogniser of one round of a chain returned, as a mathematical
/// value.
pub open spec fn pair_at(r: Option<((Operator, ConditionExpression), usize)>) -> Option<
    ((Operator, ConditionExpressionView), int),
> {
    match r {
        Some(((operator, right), end)) => Some(((operator, right@), end as int)),
        None => None,
    }
}

/// A chain of comparisons at `pos`.
pub fn boolean_primary(input: &[u8], pos: usize) -> (r: Option<(ConditionExpression, usize)>)
    ensures
        condition_at(r) == spec_boolean_primary(input@, pos as int),
        r matches Some((_, end)) ==> pos < end <= input.len(),
    decreases input.len() - pos, 0nat,
{
    let (initial, first) = match predicate(input, pos) {
        Some(found) => found,
        None => {
            return None;
        },
    };
    let mut remainder: Vec<(Operator, ConditionExpression)> = Vec::new();
    let mut cur: usize = first;
    let mut found = comparison(input, cur);
    while found.is_some()
        invariant
            pos < first <= cur <= input.len(),
            pair_at(found) == spec_comparison(input@, cur as int),
            found matches Some((_, end)) ==> cur < end <= input.len(),
            forall|i: int| 0 <= i < remainder@.len() ==> is_binary(#[trigger] remainder@[i].0),
            spec_comparisons(input@, first as int) == (
                pairs_view(remainder@) + spec_comparisons(input@, cur as int).0,
                spec_comparisons(input@, cur as int).1,
            ),
        decreases input.len() - cur,
    {
        let (pair, next) = found.unwrap();
        proof {
            let rest = spec_comparisons(input@, next as int).0;
            assert(pairs_view(remainder@.push(pair)) + rest =~= pairs_view(remainder@) + (seq![
                (pair.0, pair.1@),
            ] + rest));
        }
        remainder.push(pair);
        cur = next;
        found = comparison(input, cur);
    }
    proof {
        assert(pairs_view(remainder@) + Seq::<(Operator, ConditionExpressionView)>::empty()
            =~= pairs_view(remainder@));
    }
    Some((fold_cond_exprs(initial, remainder), cur))
}

/// A comparison operator at `pos` with its right-hand side.
pub fn comparison(input: &[u8], pos: usize) -> (r: Option<
    ((Operator, ConditionExpression), usize),
>)
    ensures
        pair_at(r) == spec_comparison(input@, pos as int),
        r matches Some(((operator, _), end)) ==> is_binary(operator) && pos < end <= input.len(),
    decreases input.len() - pos, 1nat,
{
    let (operator, end) = match binary_comparison_operator(
        input,
        skip(input, pos, ByteClass::Multispace),
    ) {
        Some(found) => found,
        None => {
            return None;
        },
    };
    match boolean_primary(input, skip(input, end, ByteClass::Multispace)) {
        Some((right, next)) => Some(((operator, right), next)),
        None => None,
    }
}

/// A chain of comparisons consumes input.
pub proof fn lemma_boolean_primary_consumes(s: Seq<u8>, pos: int)
    ensures
        spec_boolean_primary(s, pos) matches Some((_, end)) ==> remaining(s, end) < remaining(
            s,
            pos,
        ),
{
    if let Some((_, end)) = spec_predicate(s, pos) {
        lemma_comparisons_end(s, end);
    }
}

/// Comparisons end no earlier than they start.
pub proof fn lemma_comparisons_end(s: Seq<u8>, pos: int)
    ensures
        remaining(s, spec_comparisons(s, pos).1) <= remaining(s, pos),
    decreases remaining(s, pos),
{
    if let Some((_, next)) = spec_comparison(s, pos) {
        if remaining(s, next) < remaining(s, pos) {
            lemma_comparisons_end(s, next);
        }
    }
}

/// A comparison with its right-hand side consumes input.
pub proof fn lemma_comparison_consumes(s: Seq<u8>, pos: int)
    ensures
        spec_comparison(s, pos) matches Some((_, end)) ==> remaining(s, end) < remaining(s, pos),
{
    if let Some((_, end)) = spec_binary_comparison_operator(
        s,
        spec_skip(s, pos, ByteClass::Multispace),
    ) {
        lemma_boolean_primary_consumes(s, spec_skip(s, end, ByteClass::Multispace));
    }
}

/// A condition at `pos`: an optional negation, a chain of comparisons, and
/// behind it any number of logical operators, each with a condition of its
/// own as its right-hand side. The chain is folded from left to right; a
/// negation takes the whole folded chain as its one operand.
pub open spec fn spec_condition_expr(s: Seq<u8>, pos: int) -> Option<
    (ConditionExpressionView, int),
>
    decreases remaining(s, pos), 0nat,
{
    let start = match spec_unary_negation_operator(s, pos) {
        Some((_, end)) => end,
        None => pos,
    };
    match spec_boolean_primary(s, start) {
        Some((initial, end)) => {
            proof {
                lemma_boolean_primary_consumes(s, start);
            }
            let (pairs, last) = spec_conjunctions(s, end);
            let folded = spec_fold_cond_exprs(initial, pairs);
            Some(
                (
                    if spec_unary_negation_operator(s, pos) is Some {
                        ConditionExpressionView::LogicalOp(
                            ConditionTreeView {
                                operator: Operator::Not,
                                left: Some(Box::new(folded)),
                                right: None,
                            },
                        )
                    } else {
                        folded
                    },
                    last,
                ),
            )
        },
        None => None,
    }
}

/// A logical operator at `pos`, with optional whitespace on both sides, and
/// the condition that is its right-hand side.
pub open spec fn spec_conjunction(s: Seq<u8>, pos: int) -> Option<
    ((Operator, ConditionExpressionView), int),
>
    decreases remaining(s, pos), 1nat,
{
    match spec_binary_logical_operator(s, spec_skip(s, pos, ByteClass::Multispace)) {
        Some((operator, end)) => match spec_condition_expr(
            s,
            spec_skip(s, end, ByteClass::Multispace),
        ) {
            Some((right, next)) => Some(((operator, right), next)),
            None => None,
        },
        None => None,
    }
}

/// As many logical operators with their right-hand sides as follow one
/// another at `pos`, and the position behind the last. One that consumed
/// nothing would end the chain.
pub open spec fn spec_conjunctions(s: Seq<u8>, pos: int) -> (
    Seq<(Operator, ConditionExpressionView)>,
    int,
)
    decreases remaining(s, pos), 2nat,
{
    match spec_conjunction(s, pos) {
        Some((pair, next)) => if remaining(s, next) < remaining(s, pos) {
            let (pairs, last) = spec_conjunctions(s, next);
            (seq![pair] + pairs, last)
        } else {
            (Seq::empty(), pos)
        },
        None => (Seq::empty(), pos),
    }
}

/// Logical operators with their right-hand sides end no earlier than they
/// start.
pub proof fn lemma_conjunctions_end(s: Seq<u8>, pos: int)
    ensures
        remaining(s, spec_conjunctions(s, pos).1) <= remaining(s, pos),
    decreases remaining(s, pos),
{
    if let Some((_, next)) = spec_conjunction(s, pos) {
        if remaining(s, next) < remaining(s, pos) {
            lemma_conjunctions_end(s, next);
        }
    }
}

/// A condition consumes input.
pub proof fn lemma_condition_expr_consumes(s: Seq<u8>, pos: int)
    ensures
        spec_condition_expr(s, pos) matches Some((_, end)) ==> remaining(s, end) < remaining(
            s,
            pos,
        ),
{
    let start = match spec_unary_negation_operator(s, pos) {
        Some((_, end)) => end,
        None => pos,
    };
    lemma_boolean_primary_consumes(s, start);
    if let Some((_, end)) = spec_boolean_primary(s, start) {
        lemma_conjunctions_end(s, end);
    }
}

/// A logical operator with its right-hand side consumes input.
pub proof fn lemma_conjunction_consumes(s: Seq<u8>, pos: int)
    ensures
        spec_conjunction(s, pos) matches Some((_, end)) ==> remaining(s, end) < remaining(s, pos),
{
    if let Some((_, end)) = spec_binary_logical_operator(
        s,
        spec_skip(s, pos, ByteClass::Multispace),
    ) {
        lemma_condition_expr_consumes(s, spec_skip(s, end, ByteClass::Multispace));
    }
}

/// A condition at `pos`.
pub fn condition_expr_at(input: &[u8], pos: usize) -> (r: Option<(ConditionExpression, usize)>)
    ensures
        condition_at(r) == spec_condition_expr(input@, pos as int),
        r matches Some((condition, end)) ==> well_formed(condition@) && pos < end <= input.len(),
    decreases input.len() - pos, 0nat,
{
    proof {
        lemma_condition_expr_well_formed(input@, pos as int);
    }
    let negation = unary_negation_operator(input, pos);
    let start = match negation {
        Some((_, end)) => end,
        None => pos,
    };
    let (initial, first) = match boolean_primary(input, start) {
        Some(found) => found,
        None => {
            return None;
        },
    };
    let mut remainder: Vec<(Operator, ConditionExpression)> = Vec::new();
    let mut cur: usize = first;
    let mut found = conjunction(input, cur);
    while found.is_some()
        invariant
            pos < first <= cur <= input.len(),
            pair_at(found) == spec_conjunction(input@, cur as int),
            found matches Some((_, end)) ==> cur < end <= input.len(),
            forall|i: int| 0 <= i < remainder@.len() ==> is_binary(#[trigger] remainder@[i].0),
            spec_conjunctions(input@, first as int) == (
                pairs_view(remainder@) + spec_conjunctions(input@, cur as int).0,
                spec_conjunctions(input@, cur as int).1,
            ),
        decreases input.len() - cur,
    {
        let (pair, next) = found.unwrap();
        proof {
            let rest = spec_conjunctions(input@, next as int).0;
            assert(pairs_view(remainder@.push(pair)) + rest =~= pairs_view(remainder@) + (seq![
                (pair.0, pair.1@),
            ] + rest));
        }
        remainder.push(pair);
        cur = next;
        found = conjunction(input, cur);
    }
    proof {
        assert(pairs_view(remainder@) + Seq::<(Operator, ConditionExpressionView)>::empty()
            =~= pairs_view(remainder@));
    }
    let folded = fold_cond_exprs(initial, remainder);
    match negation {
        Some((operator, _)) => Some(
            (
                ConditionExpression::LogicalOp(
                    ConditionTree { operator, left: Some(Box::new(folded)), right: None },
                ),
                cur,
            ),
        ),
        None => Some((folded, cur)),
    }
}

/// A logical operator at `pos` with its right-hand side.
pub fn conjunction(input: &[u8], pos: usize) -> (r: Option<
    ((Operator, ConditionExpression), usize),
>)
    ensures
        pair_at(r) == spec_conjunction(input@, pos as int),
        r matches Some(((operator, _), end)) ==> is_binary(operator) && pos < end <= input.len(),
    decreases input.len() - pos, 1nat,
{
    let (operator, end) = match binary_logical_operator(
        input,
        skip(input, pos, ByteClass::Multispace),
    ) {
        Some(found) => found,
        None => {
            return None;
        },
    };
    match condition_expr_at(input, skip(input, end, ByteClass::Multispace)) {
        Some((right, next)) => Some(((operator, right), next)),
        None => None,
    }
}

/// A chain of well-formed conditions folds into a well-formed condition.
pub proof fn lemma_fold_well_formed(
    initial: ConditionExpressionView,
    remainder: Seq<(Operator, ConditionExpressionView)>,
)
    requires
        well_formed(initial),
        forall|i: int| 0 <= i < remainder.len() ==> well_formed(#[trigger] remainder[i].1),
    ensures
        well_formed(spec_fold_cond_exprs(initial, remainder)),
    decreases remainder.len(),
{
    if remainder.len() > 0 {
        assert forall|i: int| 0 <= i < remainder.drop_last().len() implies well_formed(
            #[trigger] remainder.drop_last()[i].1,
        ) by {
            assert(remainder.drop_last()[i] == remainder[i]);
        }
        lemma_fold_well_formed(initial, remainder.drop_last());
        assert(well_formed(remainder.last().1));
    }
}

/// Every chain of comparisons that is read from text is well-formed.
pub proof fn lemma_boolean_primary_well_formed(s: Seq<u8>, pos: int)
    ensures
        spec_boolean_primary(s, pos) matches Some((value, _)) ==> well_formed(value),
    decreases remaining(s, pos), 0nat,
{
    if let Some((initial, end)) = spec_predicate(s, pos) {
        lemma_comparisons_well_formed(s, end);
        lemma_fold_well_formed(initial, spec_comparisons(s, end).0);
    }
}

/// The right-hand side of every comparison that is read from text is
/// well-formed.
pub proof fn lemma_comparison_well_formed(s: Seq<u8>, pos: int)
    ensures
        spec_comparison(s, pos) matches Some((pair, _)) ==> well_formed(pair.1),
    decreases remaining(s, pos), 1nat,
{
    if let Some((_, end)) = spec_binary_comparison_operator(
        s,
        spec_skip(s, pos, ByteClass::Multispace),
    ) {
        lemma_boolean_primary_well_formed(s, spec_skip(s, end, ByteClass::Multispace));
    }
}

/// The right-hand sides of comparisons that follow one another are
/// well-formed.
pub proof fn lemma_comparisons_well_formed(s: Seq<u8>, pos: int)
    ensures
        forall|i: int|
            0 <= i < spec_comparisons(s, pos).0.len() ==> well_formed(
                #[trigger] spec_comparisons(s, pos).0[i].1,
            ),
    decreases remaining(s, pos), 2nat,
{
    lemma_comparison_well_formed(s, pos);
    if let Some((pair, next)) = spec_comparison(s, pos) {
        if remaining(s, next) < remaining(s, pos) {
            lemma_comparisons_well_formed(s, next);
            let rest = spec_comparisons(s, next).0;
            assert forall|i: int| 0 <= i < (seq![pair] + rest).len() implies well_formed(
                #[trigger] (seq![pair] + rest)[i].1,
            ) by {
                if i > 0 {
                    assert((seq![pair] + rest)[i] == rest[i - 1]);
                }
            }
        }
    }
}

/// Every condition that is read from text is well-formed.
pub proof fn lemma_condition_expr_well_formed(s: Seq<u8>, pos: int)
    ensures
        spec_condition_expr(s, pos) matches Some((value, _)) ==> well_formed(value),
    decreases remaining(s, pos), 0nat,
{
    let start = match spec_unary_negation_operator(s, pos) {
        Some((_, end)) => end,
        None => pos,
    };
    lemma_boolean_primary_well_formed(s, start);
    lemma_boolean_primary_consumes(s, start);
    if let Some((initial, end)) = spec_boolean_primary(s, start) {
        lemma_conjunctions_well_formed(s, end);
        lemma_fold_well_formed(initial, spec_conjunctions(s, end).0);
    }
}

/// The right-hand side of every logical operator that is read from text is
/// well-formed.
pub proof fn lemma_conjunction_well_formed(s: Seq<u8>, pos: int)
    ensures
        spec_conjunction(s, pos) matches Some((pair, _)) ==> well_formed(pair.1),
    decreases remaining(s, pos), 1nat,
{
    if let Some((_, end)) = spec_binary_logical_operator(
        s,
        spec_skip(s, pos, ByteClass::Multispace),
    ) {
        lemma_condition_expr_well_formed(s, spec_skip(s, end, ByteClass::Multispace));
    }
}

/// The right-hand sides of logical operators that follow one another are
/// well-formed.
pub proof fn lemma_conjunctions_well_formed(s: Seq<u8>, pos: int)
    ensures
        forall|i: int|
            0 <= i < spec_conjunctions(s, pos).0.len() ==> well_formed(
                #[trigger] spec_conjunctions(s, pos).0[i].1,
            ),
    decreases remaining(s, pos), 2nat,
{
    lemma_conjunction_well_formed(s, pos);
    if let Some((pair, next)) = spec_conjunction(s, pos) {
        if remaining(s, next) < remaining(s, pos) {
            lemma_conjunctions_well_formed(s, next);
            let rest = spec_conjunctions(s, next).0;
            assert forall|i: int| 0 <= i < (seq![pair] + rest).len() implies well_formed(
                #[trigger] (seq![pair] + rest)[i].1,
            ) by {
                if i > 0 {
                    assert((seq![pair] + rest)[i] == rest[i - 1]);
                }
            }
        }
    }
}

/// A condition at the start of `input`: the rest of the input and the
/// condition, or nothing where no condition starts there.
pub fn condition_expr(input: &[u8]) -> (r: Option<(&[u8], ConditionExpression)>)
    ensures
        match r {
            Some((rest, condition)) => {
                &&& spec_condition_expr(input@, 0) matches Some((value, end))
                &&& value == condition@
                &&& 0 <= end <= input@.len()
                &&& rest@ == input@.subrange(end, input@.len() as int)
                &&& well_formed(condition@)
            },
            None => spec_condition_expr(input@, 0) is None,
        },
{
    proof {
        lemma_condition_expr_well_formed(input@, 0);
    }
    match condition_expr_at(input, 0) {
        Some((condition, end)) => Some((slice_subrange(input, end, input.len()), condition)),
        None => None,
    }
}

} // verus!
