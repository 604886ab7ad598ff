use nom_sql_learning::common::{
    binary_comparison_operator, binary_logical_operator, csvlist, field_list, fp_number,
    is_fp_number, is_sql_identifier, list_separator, quoted, sql_identifier, sql_identifier_at,
    statement_terminator, table_alias, table_list, table_reference, unary_comparison_operator,
    unary_negation_operator, unsigned_number, value, value_list, Operator,
};

#[test]
fn sql_identifiers() {
    let id1 = b"foo";
    let id2 = b"f_o_o";
    let id3 = b"foo12";
    let id4 = b":fo oo";

    assert!(sql_identifier(id1).is_some());
    assert!(sql_identifier(id2).is_some());
    assert!(sql_identifier(id3).is_some());
    assert!(sql_identifier(id4).is_none());
}

#[test]
fn sql_identifier_splits_the_input() {
    let (rest, name) = sql_identifier(b"users.id = 4").unwrap();
    assert_eq!(name, &b"users.id"[..]);
    assert_eq!(rest, &b" = 4"[..]);
    let (rest, name) = sql_identifier(b"foo").unwrap();
    assert_eq!(name, &b"foo"[..]);
    assert_eq!(rest, &b""[..]);
    assert!(sql_identifier(b"").is_none());
    assert_eq!(sql_identifier_at(b"a, bc;", 3), Some(5));
    assert_eq!(sql_identifier_at(b"a, bc;", 5), None);
    assert_eq!(sql_identifier_at(b"a, bc;", 6), None);
}

#[test]
fn identifier_bytes() {
    for b in 0u8..=255 {
        let alnum = b.is_ascii_alphanumeric();
        assert_eq!(is_sql_identifier(b), alnum || b == b'_' || b == b'.');
        assert_eq!(is_fp_number(b), alnum || b == b'.');
    }
    assert!(is_sql_identifier(b'_'));
    assert!(!is_fp_number(b'_'));
    assert!(!is_sql_identifier(b'-'));
    assert!(!is_sql_identifier(0xC3));
}

#[test]
fn bare_values() {
    assert_eq!(fp_number(b"45.6,", 0), Some(4));
    assert_eq!(fp_number(b"test)", 0), Some(4));
    assert_eq!(fp_number(b"a_b", 0), Some(1));
    assert_eq!(fp_number(b"_b", 0), None);
}

#[test]
fn unsigned_numbers() {
    assert_eq!(unsigned_number(b"10;", 0), Some((10, 2)));
    assert_eq!(unsigned_number(b"007", 0), Some((7, 3)));
    assert_eq!(unsigned_number(b"x 42 y", 2), Some((42, 4)));
    assert_eq!(unsigned_number(b"", 0), None);
    assert_eq!(unsigned_number(b"abc", 0), None);
    assert_eq!(unsigned_number(b"-1", 0), None);
    assert_eq!(
        unsigned_number(b"18446744073709551615", 0),
        Some((18446744073709551615, 20))
    );
    assert_eq!(unsigned_number(b"18446744073709551616", 0), None);
    assert_eq!(unsigned_number(b"99999999999999999999999", 0), None);
    assert_eq!(
        unsigned_number(b"000018446744073709551615 ", 0),
        Some((u64::MAX, 24))
    );
}

#[test]
fn statement_terminators() {
    assert_eq!(statement_terminator(b";", 0), Some(1));
    assert_eq!(statement_terminator(b"", 0), Some(0));
    assert_eq!(statement_terminator(b"\n", 0), Some(1));
    assert_eq!(statement_terminator(b"  ;  x", 0), Some(5));
    assert_eq!(statement_terminator(b" \t\r\n ", 0), Some(5));
    assert_eq!(statement_terminator(b" \r\n;\n\nselect", 0), Some(6));
    assert_eq!(statement_terminator(b"x;", 0), None);
    assert_eq!(statement_terminator(b"  x", 0), None);
    assert_eq!(statement_terminator(b"x", 1), Some(1));
}

#[test]
fn comparison_operators() {
    assert_eq!(
        binary_comparison_operator(b"like x", 0),
        Some((Operator::Like, 4))
    );
    assert_eq!(
        binary_comparison_operator(b"LiKe x", 0),
        Some((Operator::Like, 4))
    );
    assert_eq!(
        binary_comparison_operator(b"NOT_LIKE x", 0),
        Some((Operator::NotLike, 8))
    );
    assert_eq!(
        binary_comparison_operator(b"<>1", 0),
        Some((Operator::NotEqual, 2))
    );
    assert_eq!(
        binary_comparison_operator(b">=1", 0),
        Some((Operator::GreaterOrEqual, 2))
    );
    assert_eq!(
        binary_comparison_operator(b"<=1", 0),
        Some((Operator::LessOrEqual, 2))
    );
    assert_eq!(
        binary_comparison_operator(b"=1", 0),
        Some((Operator::Equal, 1))
    );
    assert_eq!(
        binary_comparison_operator(b"<1", 0),
        Some((Operator::Less, 1))
    );
    assert_eq!(
        binary_comparison_operator(b">1", 0),
        Some((Operator::Greater, 1))
    );
    assert_eq!(binary_comparison_operator(b"<", 0), Some((Operator::Less, 1)));
    assert_eq!(binary_comparison_operator(b"!=1", 0), None);
    assert_eq!(binary_comparison_operator(b"lik", 0), None);
    assert_eq!(binary_comparison_operator(b"", 0), None);
}

#[test]
fn logical_and_negation_operators() {
    assert_eq!(
        binary_logical_operator(b"and b", 0),
        Some((Operator::And, 3))
    );
    assert_eq!(
        binary_logical_operator(b"AND b", 0),
        Some((Operator::And, 3))
    );
    assert_eq!(binary_logical_operator(b"Or b", 0), Some((Operator::Or, 2)));
    assert_eq!(binary_logical_operator(b"an", 0), None);
    assert_eq!(binary_logical_operator(b"xor", 0), None);
    assert_eq!(
        unary_negation_operator(b"NOT a", 0),
        Some((Operator::Not, 3))
    );
    assert_eq!(unary_negation_operator(b"!a", 0), Some((Operator::Not, 1)));
    assert_eq!(unary_negation_operator(b"no", 0), None);
}

#[test]
fn list_separators() {
    assert_eq!(list_separator(b",", 0), 1);
    assert_eq!(list_separator(b" , \n b", 0), 5);
    assert_eq!(list_separator(b"  b", 0), 0);
    assert_eq!(list_separator(b"", 0), 0);
}

#[test]
fn comma_separated_lists() {
    assert_eq!(
        csvlist(b"id, name FROM", 0),
        (vec![String::from("id"), String::from("name")], 8)
    );
    assert_eq!(
        csvlist(b"a,b ,c", 0),
        (
            vec![String::from("a"), String::from("b"), String::from("c")],
            6
        )
    );
    assert_eq!(csvlist(b"a,", 0), (vec![String::from("a")], 2));
    assert_eq!(csvlist(b", a", 0), (vec![], 0));
    assert_eq!(csvlist(b"", 0), (vec![], 0));
    assert_eq!(
        csvlist(b"a b", 0),
        (vec![String::from("a")], 1)
    );
}

#[test]
fn field_lists() {
    assert_eq!(field_list(b"* from", 0), (vec![String::from("ALL")], 1));
    assert_eq!(
        field_list(b"Id, t.name from", 0),
        (vec![String::from("Id"), String::from("t.name")], 10)
    );
    assert_eq!(field_list(b" from", 0), (vec![], 0));
}

#[test]
fn quoted_words() {
    assert_eq!(quoted(b"'abc'", 0, b'\''), Some((String::from("abc"), 5)));
    assert_eq!(
        quoted(b"\"hello\" x", 0, b'"'),
        Some((String::from("hello"), 7))
    );
    assert_eq!(quoted(b"'abc", 0, b'\''), None);
    assert_eq!(quoted(b"''", 0, b'\''), None);
    assert_eq!(quoted(b"'a b'", 0, b'\''), None);
    assert_eq!(quoted(b"'abc\"", 0, b'\''), None);
}

#[test]
fn values_in_priority_order() {
    assert_eq!(value(b"?,", 0), Some((String::from("?"), 1)));
    assert_eq!(
        value(b"CURRENT_TIMESTAMP)", 0),
        Some((String::from("CURRENT_TIMESTAMP"), 17))
    );
    assert_eq!(
        value(b"current_timestamp)", 0),
        Some((String::from("current"), 7))
    );
    assert_eq!(value(b"'abc')", 0), Some((String::from("abc"), 5)));
    assert_eq!(value(b"45.6)", 0), Some((String::from("45.6"), 4)));
    assert_eq!(value(b"'abc", 0), None);
    assert_eq!(value(b")", 0), None);
}

#[test]
fn value_lists() {
    assert_eq!(
        value_list(b"42, test)", 0),
        (vec![String::from("42"), String::from("test")], 8)
    );
    assert_eq!(
        value_list(b"?,?)", 0),
        (vec![String::from("?"), String::from("?")], 3)
    );
    assert_eq!(value_list(b")", 0), (vec![], 0));
    assert_eq!(value_list(b"1,)", 0), (vec![String::from("1")], 2));
}

#[test]
fn table_references() {
    assert_eq!(
        table_reference(b"PaperTag as t;", 0),
        Some((String::from("PaperTag"), 13))
    );
    assert_eq!(
        table_reference(b"PaperTag AS t;", 0),
        Some((String::from("PaperTag"), 13))
    );
    assert_eq!(
        table_reference(b"users where", 0),
        Some((String::from("users"), 5))
    );
    assert_eq!(
        table_reference(b"users as ;", 0),
        Some((String::from("users"), 5))
    );
    assert_eq!(
        table_reference(b"users\nas t", 0),
        Some((String::from("users"), 5))
    );
    assert_eq!(table_reference(b" users", 0), None);
    assert_eq!(table_alias(b" as t", 0), Some(5));
    assert_eq!(table_alias(b"as t", 0), None);
}

#[test]
fn unary_comparison_operators() {
    assert_eq!(
        unary_comparison_operator(b"ISNULL x", 0),
        Some((String::from("ISNULL"), 6))
    );
    assert_eq!(
        unary_comparison_operator(b"NOT x", 0),
        Some((String::from("NOT"), 3))
    );
    assert_eq!(
        unary_comparison_operator(b"-1", 0),
        Some((String::from("-"), 1))
    );
    assert_eq!(unary_comparison_operator(b"isnull x", 0), None);
    assert_eq!(unary_comparison_operator(b"not x", 0), None);
    assert_eq!(unary_comparison_operator(b"ISNUL", 0), None);
    assert_eq!(unary_comparison_operator(b"", 0), None);
}

#[test]
fn table_lists() {
    assert_eq!(
        table_list(b"users, PaperTag as t ,orders;", 0),
        (
            vec![
                String::from("users"),
                String::from("PaperTag"),
                String::from("orders")
            ],
            28
        )
    );
    assert_eq!(table_list(b"users where", 0), (vec![String::from("users")], 5));
    assert_eq!(table_list(b"; users", 0), (vec![], 0));
    assert_eq!(table_list(b"", 0), (vec![], 0));
}
