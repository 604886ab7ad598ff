//! Scanning at the level of bytes: runs of a byte class, literal tags and
//! keywords. A position is an index into the input; a recogniser that matches
//! returns the position just behind what it matched.

use crate::common::{is_fp_number, is_sql_identifier};
use vstd::prelude::*;
use vstd::slice::slice_subrange;
use vstd::string::*;

verus! {

/// Decimal digits `0-9`.
pub open spec fn spec_is_digit(b: u8) -> bool {
    0x30 <= b <= 0x39
}

/// ASCII letters `a-z` and `A-Z`.
pub open spec fn spec_is_alphabetic(b: u8) -> bool {
    (0x41 <= b <= 0x5A) || (0x61 <= b <= 0x7A)
}

/// ASCII letters and decimal digits.
pub open spec fn spec_is_alphanumeric(b: u8) -> bool {
    spec_is_alphabetic(b) || spec_is_digit(b)
}

/// Blank and horizontal tab.
pub open spec fn spec_is_space(b: u8) -> bool {
    b == 0x20 || b == 0x09
}

/// Blank, horizontal tab, carriage return and line feed.
pub open spec fn spec_is_multispace(b: u8) -> bool {
    b == 0x20 || b == 0x09 || b == 0x0D || b == 0x0A
}

/// Bytes of an identifier: alphanumerics, `_` and `.`.
pub open spec fn spec_is_sql_identifier(b: u8) -> bool {
    spec_is_alphanumeric(b) || b == 0x5F || b == 0x2E
}

/// Bytes of a bare value: alphanumerics and `.`.
pub open spec fn spec_is_fp_number(b: u8) -> bool {
    spec_is_alphanumeric(b) || b == 0x2E
}

/// The sets of bytes that the grammar scans runs of.
#[derive(Clone, Copy, Debug, PartialEq, Eq, Structural)]
pub enum ByteClass {
    Digit,
    Alphanumeric,
    Space,
    Multispace,
    Identifier,
    FpNumber,
}

impl ByteClass {
    /// Whether `b` belongs to the class.
    pub open spec fn accepts(self, b: u8) -> bool {
        match self {
            ByteClass::Digit => spec_is_digit(b),
            ByteClass::Alphanumeric => spec_is_alphanumeric(b),
            ByteClass::Space => spec_is_space(b),
            ByteClass::Multispace => spec_is_multispace(b),
            ByteClass::Identifier => spec_is_sql_identifier(b),
            ByteClass::FpNumber => spec_is_fp_number(b),
        }
    }
}

/// The position that a recogniser returned, as a mathematical integer.
pub open spec fn position(r: Option<usize>) -> Option<int> {
    match r {
        Some(end) => Some(end as int),
        None => None,
    }
}

/// How many bytes are left at `pos`; zero outside the input.
pub open spec fn remaining(s: Seq<u8>, pos: int) -> nat {
    if 0 <= pos <= s.len() {
        (s.len() - pos) as nat
    } else {
        0
    }
}

/// The length of the longest run of `class` bytes that starts at `pos`.
pub open spec fn run_len(s: Seq<u8>, pos: int, class: ByteClass) -> nat
    decreases s.len() - pos,
{
    if 0 <= pos < s.len() && class.accepts(s[pos]) {
        1 + run_len(s, pos + 1, class)
    } else {
        0
    }
}

/// The position behind the (possibly empty) run of `class` bytes at `pos`.
pub open spec fn spec_skip(s: Seq<u8>, pos: int, class: ByteClass) -> int {
    pos + run_len(s, pos, class)
}

/// A non-empty run of `class` bytes at `pos`.
pub open spec fn spec_run1(s: Seq<u8>, pos: int, class: ByteClass) -> Option<int> {
    if run_len(s, pos, class) > 0 {
        Some(pos + run_len(s, pos, class))
    } else {
        None
    }
}

/// The single byte `b` at `pos`.
pub open spec fn spec_byte(s: Seq<u8>, pos: int, b: u8) -> Option<int> {
    if 0 <= pos < s.len() && s[pos] == b {
        Some(pos + 1)
    } else {
        None
    }
}

/// The bytes at `pos` spell `word` exactly.
pub open spec fn spec_tag(s: Seq<u8>, pos: int, word: Seq<char>) -> Option<int> {
    if 0 <= pos && pos + word.len() <= s.len() && (forall|i: int|
        0 <= i < word.len() ==> s[pos + i] == #[trigger] word[i] as u8) {
        Some(pos + word.len())
    } else {
        None
    }
}

/// The lower-case form of an ASCII letter; any other byte is left as it is.
pub open spec fn ascii_lower(b: u8) -> u8 {
    if 0x41 <= b <= 0x5A {
        (b + 0x20) as u8
    } else {
        b
    }
}

/// The bytes at `pos` spell `word` when the case of ASCII letters is ignored.
pub open spec fn spec_caseless_tag(s: Seq<u8>, pos: int, word: Seq<char>) -> Option<int> {
    if 0 <= pos && pos + word.len() <= s.len() && (forall|i: int|
        0 <= i < word.len() ==> ascii_lower(s[pos + i]) == ascii_lower(#[trigger] word[i] as u8)) {
        Some(pos + word.len())
    } else {
        None
    }
}

/// One line feed at `pos`.
pub open spec fn spec_line_ending(s: Seq<u8>, pos: int) -> Option<int> {
    spec_byte(s, pos, 0x0A)
}

/// The end of the input at `pos`.
pub open spec fn spec_eof(s: Seq<u8>, pos: int) -> Option<int> {
    if pos == s.len() {
        Some(pos)
    } else {
        None
    }
}

/// A run never leaves the input.
pub proof fn lemma_run_len_bound(s: Seq<u8>, pos: int, class: ByteClass)
    requires
        0 <= pos <= s.len(),
    ensures
        pos + run_len(s, pos, class) <= s.len(),
    decreases s.len() - pos,
{
    if pos < s.len() && class.accepts(s[pos]) {
        lemma_run_len_bound(s, pos + 1, class);
    }
}

/// Every byte of a run is in the class, and the run stops at the end of the
/// input or at a byte outside the class.
pub proof fn lemma_run_len_accepts(s: Seq<u8>, pos: int, class: ByteClass)
    requires
        0 <= pos <= s.len(),
    ensures
        forall|i: int| pos <= i < pos + run_len(s, pos, class) ==> class.accepts(#[trigger] s[i]),
        pos + run_len(s, pos, class) == s.len() || !class.accepts(
            s[pos + run_len(s, pos, class)],
        ),
    decreases s.len() - pos,
{
    if pos < s.len() && class.accepts(s[pos]) {
        lemma_run_len_accepts(s, pos + 1, class);
    }
}

/// A stretch of `class` bytes that ends at the end of the input or at a byte
/// outside the class is the run at its start.
pub proof fn lemma_run_len_is(s: Seq<u8>, pos: int, end: int, class: ByteClass)
    requires
        0 <= pos <= end <= s.len(),
        forall|i: int| pos <= i < end ==> class.accepts(#[trigger] s[i]),
        end == s.len() || !class.accepts(s[end]),
    ensures
        run_len(s, pos, class) == end - pos,
    decreases end - pos,
{
    if pos < end {
        lemma_run_len_is(s, pos + 1, end, class);
    }
}

/// The run at the start of a suffix is the run at that position of the whole.
pub proof fn lemma_run_len_suffix(s: Seq<u8>, pos: int, class: ByteClass)
    requires
        0 <= pos <= s.len(),
    ensures
        run_len(s.subrange(pos, s.len() as int), 0, class) == run_len(s, pos, class),
{
    let t = s.subrange(pos, s.len() as int);
    let n = run_len(s, pos, class) as int;
    lemma_run_len_bound(s, pos, class);
    lemma_run_len_accepts(s, pos, class);
    assert forall|i: int| 0 <= i < n implies class.accepts(#[trigger] t[i]) by {
        assert(t[i] == s[pos + i]);
    }
    if n < t.len() {
        assert(t[n] == s[pos + n]);
    }
    lemma_run_len_is(t, 0, n, class);
}

/// The bytes of every class are ASCII codes.
pub proof fn lemma_run_is_ascii(s: Seq<u8>, pos: int, class: ByteClass)
    requires
        0 <= pos <= s.len(),
    ensures
        crate::text::all_ascii(s.subrange(pos, pos + run_len(s, pos, class))),
{
    lemma_run_len_bound(s, pos, class);
    lemma_run_len_accepts(s, pos, class);
    let t = s.subrange(pos, pos + run_len(s, pos, class));
    assert forall|i: int| 0 <= i < t.len() implies #[trigger] t[i] < 0x80 by {
        assert(class.accepts(s[pos + i]));
    }
}

/// What the recognisers of `nom` for a class of bytes return on `s`: nothing
/// where `s` does not start with a byte of the class, else the longest run of
/// such bytes at the start of `s` as `found`, and what follows it as `rest`.
pub open spec fn splits_leading_run(s: Seq<u8>, class: ByteClass, r: Option<(&[u8], &[u8])>) -> bool {
    match r {
        Some((rest, found)) => {
            &&& run_len(s, 0, class) > 0
            &&& found@ == s.subrange(0, run_len(s, 0, class) as int)
            &&& rest@ == s.subrange(run_len(s, 0, class) as int, s.len() as int)
        },
        None => run_len(s, 0, class) == 0,
    }
}

/// `nom::digit` on bytes: fails on an empty input or one that starts with no
/// decimal digit; else it hands back the leading digits and the rest.
#[verifier::external_body]
fn nom_digit<'a>(input: &'a [u8]) -> (r: Option<(&'a [u8], &'a [u8])>)
    ensures
        splits_leading_run(input@, ByteClass::Digit, r),
{
    match nom::digit(input) {
        nom::IResult::Done(rest, found) => Some((rest, found)),
        nom::IResult::Error(_) => None,
        nom::IResult::Incomplete(_) => None,
    }
}

/// `nom::alphanumeric` on bytes: fails on an empty input or one that starts
/// with no ASCII letter or digit; else it hands back the leading letters and
/// digits and the rest.
#[verifier::external_body]
fn nom_alphanumeric<'a>(input: &'a [u8]) -> (r: Option<(&'a [u8], &'a [u8])>)
    ensures
        splits_leading_run(input@, ByteClass::Alphanumeric, r),
{
    match nom::alphanumeric(input) {
        nom::IResult::Done(rest, found) => Some((rest, found)),
        nom::IResult::Error(_) => None,
        nom::IResult::Incomplete(_) => None,
    }
}

/// `nom::space` on bytes: fails on an empty input or one that starts with
/// neither a blank nor a tab; else it hands back the leading blanks and tabs
/// and the rest.
#[verifier::external_body]
fn nom_space<'a>(input: &'a [u8]) -> (r: Option<(&'a [u8], &'a [u8])>)
    ensures
        splits_leading_run(input@, ByteClass::Space, r),
{
    match nom::space(input) {
        nom::IResult::Done(rest, found) => Some((rest, found)),
        nom::IResult::Error(_) => None,
        nom::IResult::Incomplete(_) => None,
    }
}

/// `nom::multispace` on bytes: fails on an empty input or one that starts
/// with none of blank, tab, carriage return and line feed; else it hands back
/// the leading run of those and the rest.
#[verifier::external_body]
fn nom_multispace<'a>(input: &'a [u8]) -> (r: Option<(&'a [u8], &'a [u8])>)
    ensures
        splits_leading_run(input@, ByteClass::Multispace, r),
{
    match nom::multispace(input) {
        nom::IResult::Done(rest, found) => Some((rest, found)),
        nom::IResult::Error(_) => None,
        nom::IResult::Incomplete(_) => None,
    }
}

/// `nom::line_ending`: matches exactly when the input starts with a line
/// feed, and then hands back that one byte and the rest.
#[verifier::external_body]
fn nom_line_ending<'a>(input: &'a [u8]) -> (r: Option<(&'a [u8], &'a [u8])>)
    ensures
        r is Some <==> (input@.len() > 0 && input@[0] == 0x0A),
        r matches Some((rest, found)) ==> found@ == input@.subrange(0, 1) && rest@
            == input@.subrange(1, input@.len() as int),
{
    match nom::line_ending(input) {
        nom::IResult::Done(rest, found) => Some((rest, found)),
        nom::IResult::Error(_) => None,
        nom::IResult::Incomplete(_) => None,
    }
}

/// `nom::eof`: matches exactly when the input is empty, and then hands the
/// empty input back twice.
#[verifier::external_body]
fn nom_eof<'a>(input: &'a [u8]) -> (r: Option<(&'a [u8], &'a [u8])>)
    ensures
        r is Some <==> input@.len() == 0,
        r matches Some((rest, found)) ==> found@ == input@ && rest@ == input@,
{
    match nom::eof(input) {
        nom::IResult::Done(rest, found) => Some((rest, found)),
        nom::IResult::Error(_) => None,
        nom::IResult::Incomplete(_) => None,
    }
}

/// Whether `b` belongs to `class`, for the two classes of the identifiers and
/// the bare values.
fn in_class(class: ByteClass, b: u8) -> (r: bool)
    requires
        class == ByteClass::Identifier || class == ByteClass::FpNumber,
    ensures
        r == class.accepts(b),
{
    match class {
        ByteClass::Identifier => is_sql_identifier(b),
        _ => is_fp_number(b),
    }
}

/// The longest run of bytes at `pos` for which the predicate of `class` holds.
fn take_while(input: &[u8], pos: usize, class: ByteClass) -> (end: usize)
    requires
        pos <= input.len(),
        class == ByteClass::Identifier || class == ByteClass::FpNumber,
    ensures
        end == spec_skip(input@, pos as int, class),
        pos <= end <= input.len(),
{
    let mut end: usize = pos;
    while end < input.len() && in_class(class, input[end])
        invariant
            pos <= end <= input.len(),
            class == ByteClass::Identifier || class == ByteClass::FpNumber,
            forall|i: int| pos <= i < end ==> class.accepts(#[trigger] input@[i]),
        decreases input.len() - end,
    {
        end = end + 1;
    }
    proof {
        lemma_run_len_is(input@, pos as int, end as int, class);
    }
    end
}

/// The position behind the longest run of `class` bytes at `pos`.
pub fn skip(input: &[u8], pos: usize, class: ByteClass) -> (end: usize)
    ensures
        end == spec_skip(input@, pos as int, class),
        pos <= end,
        end <= input.len() || end == pos,
{
    if pos > input.len() {
        return pos;
    }
    let tail = slice_subrange(input, pos, input.len());
    proof {
        lemma_run_len_suffix(input@, pos as int, class);
        lemma_run_len_bound(input@, pos as int, class);
    }
    let found = match class {
        ByteClass::Digit => nom_digit(tail),
        ByteClass::Alphanumeric => nom_alphanumeric(tail),
        ByteClass::Space => nom_space(tail),
        ByteClass::Multispace => nom_multispace(tail),
        _ => {
            return take_while(input, pos, class);
        },
    };
    match found {
        Some((_, run)) => pos + run.len(),
        None => pos,
    }
}

/// A non-empty run of `class` bytes at `pos`.
pub fn run1(input: &[u8], pos: usize, class: ByteClass) -> (r: Option<usize>)
    ensures
        position(r) == spec_run1(input@, pos as int, class),
        r matches Some(end) ==> pos < end <= input.len(),
{
    let end = skip(input, pos, class);
    if end > pos {
        Some(end)
    } else {
        None
    }
}

/// The single byte `b` at `pos`.
pub fn byte(input: &[u8], pos: usize, b: u8) -> (r: Option<usize>)
    ensures
        position(r) == spec_byte(input@, pos as int, b),
        r matches Some(end) ==> pos < end <= input.len(),
{
    if pos < input.len() && input[pos] == b {
        Some(pos + 1)
    } else {
        None
    }
}

/// The bytes at `pos` spell `word` exactly.
pub(crate) fn tag(input: &[u8], pos: usize, word: &str) -> (r: Option<usize>)
    requires
        word.is_ascii(),
    ensures
        position(r) == spec_tag(input@, pos as int, word@),
        r matches Some(end) ==> pos <= end <= input.len(),
{
    broadcast use is_ascii_spec_bytes;

    let letters = word.as_bytes();
    let n: usize = letters.len();
    if pos > input.len() || n > input.len() - pos {
        return None;
    }
    let mut i: usize = 0;
    while i < n
        invariant
            i <= n,
            n == word@.len(),
            pos + n <= input.len(),
            letters@ == word.spec_bytes(),
            word.is_ascii(),
            forall|j: int| 0 <= j < i ==> input@[pos + j] == #[trigger] word@[j] as u8,
        decreases n - i,
    {
        if input[pos + i] != letters[i] {
            assert(input@[pos + i] != word@[i as int] as u8);
            return None;
        }
        i = i + 1;
    }
    Some(pos + n)
}

/// The lower-case form of an ASCII letter; any other byte is left as it is.
pub fn to_ascii_lower(b: u8) -> (r: u8)
    ensures
        r == ascii_lower(b),
{
    if 0x41 <= b && b <= 0x5A {
        b + 0x20
    } else {
        b
    }
}

/// The bytes at `pos` spell `word` when the case of ASCII letters is ignored.
pub(crate) fn caseless_tag(input: &[u8], pos: usize, word: &str) -> (r: Option<usize>)
    requires
        word.is_ascii(),
    ensures
        position(r) == spec_caseless_tag(input@, pos as int, word@),
        r matches Some(end) ==> pos <= end <= input.len(),
{
    broadcast use is_ascii_spec_bytes;

    let letters = word.as_bytes();
    let n: usize = letters.len();
    if pos > input.len() || n > input.len() - pos {
        return None;
    }
    let mut i: usize = 0;
    while i < n
        invariant
            i <= n,
            n == word@.len(),
            pos + n <= input.len(),
            letters@ == word.spec_bytes(),
            word.is_ascii(),
            forall|j: int|
                0 <= j < i ==> ascii_lower(input@[pos + j]) == ascii_lower(
                    #[trigger] word@[j] as u8,
                ),
        decreases n - i,
    {
        if to_ascii_lower(input[pos + i]) != to_ascii_lower(letters[i]) {
            assert(ascii_lower(input@[pos + i]) != ascii_lower(word@[i as int] as u8));
            return None;
        }
        i = i + 1;
    }
    Some(pos + n)
}

/// One line feed at `pos`.
pub fn line_ending(input: &[u8], pos: usize) -> (r: Option<usize>)
    ensures
        position(r) == spec_line_ending(input@, pos as int),
        r matches Some(end) ==> pos < end <= input.len(),
{
    if pos > input.len() {
        return None;
    }
    let tail = slice_subrange(input, pos, input.len());
    match nom_line_ending(tail) {
        Some((_, found)) => Some(pos + found.len()),
        None => None,
    }
}

/// The end of the input at `pos`.
pub fn eof(input: &[u8], pos: usize) -> (r: Option<usize>)
    ensures
        position(r) == spec_eof(input@, pos as int),
        r matches Some(end) ==> end == pos,
{
    if pos > input.len() {
        return None;
    }
    let tail = slice_subrange(input, pos, input.len());
    match nom_eof(tail) {
        Some((_, found)) => Some(pos + found.len()),
        None => None,
    }
}

} // verus!
