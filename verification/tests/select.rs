use nom_sql_learning::common::Operator;
use nom_sql_learning::parser::{ConditionBase, ConditionExpression, ConditionTree};
use nom_sql_learning::select::{
    from_keyword, offset, ordering, select_keyword, selection, selection_at, LimitClause,
    OrderClause, OrderType, SelectStatement,
};

#[test]
fn simple_select() {
    let qstring = "SELECT id, name FROM users;";
    let res = selection(qstring.as_bytes());
    assert_eq!(
        res.unwrap().1,
        SelectStatement {
            fields: vec!["id".into(), "name".into()],
            table: String::from("users"),
            ..SelectStatement::default()
        }
    );
}

#[test]
fn select_all() {
    let qstring = "SELECT * from users;";

    let res = selection(qstring.as_bytes());
    assert_eq!(
        res.unwrap().1,
        SelectStatement {
            fields: vec!["ALL".into()],
            table: String::from("users"),
            ..SelectStatement::default()
        }
    );
}

#[test]
fn spaces_optional() {
    let qstring = "SELECT id,name FROM users;";

    let res = selection(qstring.as_bytes());
    assert_eq!(
        res.unwrap().1,
        SelectStatement {
            fields: vec!["id".into(), "name".into()],
            table: String::from("users"),
            ..SelectStatement::default()
        }
    );
}

#[test]
fn case_sensitivity() {
    let qstring = "select id, name from users;";

    let res = selection(qstring.as_bytes());
    assert_eq!(
        res.unwrap().1,
        SelectStatement {
            fields: vec!["id".into(), "name".into()],
            table: String::from("users"),
            ..SelectStatement::default()
        }
    )
}

#[test]
fn termination() {
    let qstring_sem = "select id, name from users";
    let qstring_linebreak = "select id, name from users\n";

    assert_eq!(
        selection(qstring_sem.as_bytes()),
        selection(qstring_linebreak.as_bytes())
    );
}

#[test]
fn where_clause() {
    let qstring = "select * from ContactInfo where email = ?;";

    let res = selection(qstring.as_bytes());

    let expected_where_cond = Some(ConditionExpression::ComparisonOp(ConditionTree {
        operator: Operator::Equal,
        left: Some(Box::new(ConditionExpression::Base(ConditionBase::Field(
            String::from("email"),
        )))),
        right: Some(Box::new(ConditionExpression::Base(
            ConditionBase::Placeholder,
        ))),
    }));
    assert_eq!(
        res.unwrap().1,
        SelectStatement {
            fields: vec!["ALL".into()],
            table: String::from("ContactInfo"),
            where_clause: expected_where_cond,
            ..SelectStatement::default()
        }
    )
}

#[test]
fn limit_clause() {
    let qstring1 = "select * from users limit 10;";
    let qstring2 = "select * from users limit 10 offset 10;";

    let expected_lim1 = LimitClause {
        limit: 10,
        offset: 0,
    };
    let expected_lim2 = LimitClause {
        limit: 10,
        offset: 10,
    };

    let res1 = selection(qstring1.as_bytes());
    let res2 = selection(qstring2.as_bytes());

    assert_eq!(res1.unwrap().1.limit, Some(expected_lim1));
    assert_eq!(res2.unwrap().1.limit, Some(expected_lim2));
}

#[test]
fn table_alias() {
    let qstring1 = "select * from PaperTag as t;";

    let res1 = selection(qstring1.as_bytes());

    assert_eq!(
        res1.unwrap().1,
        SelectStatement {
            table: String::from("PaperTag"),
            fields: vec!["ALL".into()],
            ..Default::default()
        }
    );
}

#[test]
fn distinct() {
    let qstring = "select distinct tag from PaperTag where paperId=?;";

    let res = selection(qstring.as_bytes());

    let expected_where_cond = Some(ConditionExpression::ComparisonOp(ConditionTree {
        operator: Operator::Equal,
        left: Some(Box::new(ConditionExpression::Base(ConditionBase::Field(
            String::from("paperId"),
        )))),
        right: Some(Box::new(ConditionExpression::Base(
            ConditionBase::Placeholder,
        ))),
    }));

    assert_eq!(
        res.unwrap().1,
        SelectStatement {
            table: String::from("PaperTag"),
            distinct: true,
            fields: vec!["tag".into()],
            where_clause: expected_where_cond,
            ..Default::default()
        }
    );
}

#[test]
fn simple_condition_expr() {
    let qstring = "select infoJson from PaperStorage where paperId=? and paperStorageId=?;";

    let res = selection(qstring.as_bytes());

    let left_comp = Some(Box::new(ConditionExpression::ComparisonOp(ConditionTree {
        operator: Operator::Equal,
        left: Some(Box::new(ConditionExpression::Base(ConditionBase::Field(
            String::from("paperId"),
        )))),
        right: Some(Box::new(ConditionExpression::Base(
            ConditionBase::Placeholder,
        ))),
    })));

    let right_comp = Some(Box::new(ConditionExpression::ComparisonOp(ConditionTree {
        left: Some(Box::new(ConditionExpression::Base(ConditionBase::Field(
            String::from("paperStorageId"),
        )))),
        right: Some(Box::new(ConditionExpression::Base(
            ConditionBase::Placeholder,
        ))),
        operator: Operator::Equal,
    })));

    let expected_where_cond = Some(ConditionExpression::LogicalOp(ConditionTree {
        operator: Operator::And,
        left: left_comp,
        right: right_comp,
    }));
    assert_eq!(
        res.unwrap().1,
        SelectStatement {
            table: String::from("PaperStorage"),
            fields: vec!["infoJson".into()],
            where_clause: expected_where_cond,
            ..Default::default()
        }
    );
}

#[test]
fn order_clause() {
    let qstring = "select * from users order by id desc;";
    let res = selection(qstring.as_bytes());

    assert_eq!(
        res.unwrap().1,
        SelectStatement {
            table: String::from("users"),
            fields: vec!["ALL".into()],
            order: Some(OrderClause {
                order_type: OrderType::OrderDescending,
                order_cols: vec!["id".into()],
            }),
            ..Default::default()
        }
    );
}

#[test]
fn default_select_is_empty() {
    assert_eq!(
        SelectStatement::default(),
        SelectStatement {
            table: String::new(),
            distinct: false,
            fields: vec![],
            where_clause: None,
            group_by: None,
            order: None,
            limit: None,
        }
    );
}

#[test]
fn order_defaults_to_ascending() {
    let expected = |order_type| {
        Some(OrderClause {
            order_type,
            order_cols: vec!["a".into(), "b".into()],
        })
    };
    assert_eq!(
        selection(b"select * from t order by a, b;").unwrap().1.order,
        expected(OrderType::OrderAscending)
    );
    assert_eq!(
        selection(b"select * from t order by a, b asc;")
            .unwrap()
            .1
            .order,
        expected(OrderType::OrderAscending)
    );
    assert_eq!(
        selection(b"select * from t ORDER BY a, b DESC;")
            .unwrap()
            .1
            .order,
        expected(OrderType::OrderDescending)
    );
    assert_eq!(
        selection(b"select * from t order by a, b")
            .unwrap()
            .1
            .order,
        expected(OrderType::OrderAscending)
    );
    assert_eq!(ordering(b" desc;", 0), Some((OrderType::OrderDescending, 5)));
    assert_eq!(ordering(b"\nASC", 0), Some((OrderType::OrderAscending, 4)));
    assert_eq!(ordering(b"desc", 0), None);
    assert_eq!(ordering(b" up", 0), None);
}

#[test]
fn limit_and_offset() {
    let limit = |text: &str| selection(text.as_bytes()).map(|found| found.1.limit);
    assert_eq!(
        limit("select * from users LIMIT 10 OFFSET 5;"),
        Some(Some(LimitClause {
            limit: 10,
            offset: 5
        }))
    );
    assert_eq!(
        limit("select * from users limit 10"),
        Some(Some(LimitClause {
            limit: 10,
            offset: 0
        }))
    );
    assert_eq!(
        limit("select * from users limit 18446744073709551615 offset 0"),
        Some(Some(LimitClause {
            limit: u64::MAX,
            offset: 0
        }))
    );
    assert_eq!(limit("select * from users;"), Some(None));
    assert_eq!(limit("select * from users limit 18446744073709551616;"), None);
    assert_eq!(limit("select * from users limit 1 offset 18446744073709551616;"), None);
    assert_eq!(limit("select * from users limit;"), None);
    assert_eq!(limit("select * from users limit -1;"), None);
    assert_eq!(offset(b"offset 5;", 0), Some((5, 8)));
    assert_eq!(offset(b"offset5;", 0), None);
}

#[test]
fn select_parts() {
    assert_eq!(select_keyword(b"select * from", 0), Some((false, 7)));
    assert_eq!(select_keyword(b"SELECT  DISTINCT  a", 0), Some((true, 18)));
    assert_eq!(select_keyword(b"select distincta", 0), Some((true, 15)));
    assert_eq!(select_keyword(b"select\n*", 0), None);
    assert_eq!(select_keyword(b"select", 0), None);
    assert_eq!(from_keyword(b" from t", 0), Some(6));
    assert_eq!(from_keyword(b"\nFROM\n t", 0), Some(7));
    assert_eq!(from_keyword(b"from t", 0), None);
    assert_eq!(from_keyword(b" from", 0), None);
}

#[test]
fn select_with_every_clause() {
    let expected = SelectStatement {
        table: String::from("t"),
        distinct: true,
        fields: vec!["a".into(), "b.c".into()],
        where_clause: None,
        group_by: None,
        order: Some(OrderClause {
            order_cols: vec!["a".into()],
            order_type: OrderType::OrderDescending,
        }),
        limit: Some(LimitClause {
            limit: 7,
            offset: 2,
        }),
    };
    let text = b"Select Distinct a, b.c From t As x\nOrder By a Desc Limit 7 Offset 2 ;  rest";
    assert_eq!(selection(text), Some((&b"rest"[..], expected)));
    let filtered = selection(b"select a from t where a > 3 ;").unwrap().1;
    assert_eq!(
        filtered.where_clause,
        Some(ConditionExpression::ComparisonOp(ConditionTree {
            operator: Operator::Greater,
            left: Some(Box::new(ConditionExpression::Base(ConditionBase::Field(
                String::from("a"),
            )))),
            right: Some(Box::new(ConditionExpression::Base(ConditionBase::Literal(
                String::from("3"),
            )))),
        }))
    );
}

#[test]
fn select_at_a_position() {
    assert_eq!(
        selection_at(b"-- select * from t", 3),
        Some((
            SelectStatement {
                table: String::from("t"),
                fields: vec!["ALL".into()],
                ..Default::default()
            },
            18
        ))
    );
    assert_eq!(selection_at(b"select * from t", 15), None);
}

#[test]
fn order_by_nothing() {
    assert_eq!(
        selection(b"select * from users order by ;").unwrap().1.order,
        Some(OrderClause {
            order_cols: vec![],
            order_type: OrderType::OrderAscending,
        })
    );
    assert_eq!(
        selection(b"select \nfrom users;").unwrap().1.fields,
        Vec::<String>::new()
    );
}

#[test]
fn a_condition_takes_the_blanks_and_words_behind_it() {
    assert!(selection(b"select * from t where a = 1 limit 3;").is_none());
    assert!(selection(b"select * from t where a = 1 order by a;").is_none());
    assert!(selection(b"select * from t where a = 1;").is_some());
}

#[test]
fn select_failures() {
    assert!(selection(b"select * from").is_none());
    assert!(selection(b"select * users;").is_none());
    assert!(selection(b"select * from users where;").is_none());
    assert!(selection(b"select * from users where a = ;").is_none());
    assert!(selection(b"select * from users order by;").is_none());
    assert!(selection(b"select * from users order a;").is_none());
    assert!(selection(b"select * from users, t;").is_none());
    assert!(selection(b"select * from users junk").is_none());
    assert!(selection(b"selec * from users").is_none());
    assert!(selection(b"").is_none());
}
