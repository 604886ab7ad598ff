use nom_sql_learning::common::Operator;
use nom_sql_learning::insert::InsertStatement;
use nom_sql_learning::select::LimitClause;
use nom_sql_learning::{
    parse_query, ConditionBase, ConditionExpression, ConditionTree, SelectStatement, SqlQuery,
};

fn select(text: &str) -> SelectStatement {
    match parse_query(text) {
        Ok(SqlQuery::Select(statement)) => statement,
        other => panic!("no select statement: {:?}", other),
    }
}

fn insert(text: &str) -> InsertStatement {
    match parse_query(text) {
        Ok(SqlQuery::Insert(statement)) => statement,
        other => panic!("no insert statement: {:?}", other),
    }
}

fn base(b: ConditionBase) -> Option<Box<ConditionExpression>> {
    Some(Box::new(ConditionExpression::Base(b)))
}

#[test]
fn wildcard_sentinel() {
    assert_eq!(
        parse_query("SELECT * FROM users;"),
        Ok(SqlQuery::Select(SelectStatement {
            table: String::from("users"),
            distinct: false,
            fields: vec![String::from("ALL")],
            where_clause: None,
            group_by: None,
            order: None,
            limit: None,
        }))
    );
}

#[test]
fn field_list_keeps_order() {
    let statement = select("SELECT id, name FROM users;");
    assert_eq!(statement.fields, vec!["id", "name"]);
    assert_eq!(statement.table, "users");
}

#[test]
fn keywords_ignore_case_and_names_keep_it() {
    let statement = select("select Id FROM Users;");
    assert_eq!(statement.table, "Users");
    assert_eq!(statement.fields, vec!["Id"]);
    assert_eq!(select("SeLeCt Id fRoM Users;"), statement);
    assert_eq!(
        insert("INSERT into Users VALUES (Ab)"),
        insert("insert INTO Users values (Ab)")
    );
    assert_eq!(
        insert("INSERT into Users VALUES (Ab)").fields,
        vec![("0".into(), "Ab".into())]
    );
}

#[test]
fn where_comparison_tree_shape() {
    let statement = select("SELECT * FROM ContactInfo WHERE email = ?;");
    assert_eq!(
        statement.where_clause,
        Some(ConditionExpression::ComparisonOp(ConditionTree {
            operator: Operator::Equal,
            left: base(ConditionBase::Field(String::from("email"))),
            right: base(ConditionBase::Placeholder),
        }))
    );
}

#[test]
fn logical_chaining() {
    let statement =
        select("SELECT infoJson FROM PaperStorage WHERE paperId=? AND paperStorageId=?;");
    let equals_placeholder = |name: &str| {
        Some(Box::new(ConditionExpression::ComparisonOp(ConditionTree {
            operator: Operator::Equal,
            left: base(ConditionBase::Field(String::from(name))),
            right: base(ConditionBase::Placeholder),
        })))
    };
    assert_eq!(
        statement.where_clause,
        Some(ConditionExpression::LogicalOp(ConditionTree {
            operator: Operator::And,
            left: equals_placeholder("paperId"),
            right: equals_placeholder("paperStorageId"),
        }))
    );
}

#[test]
fn limit_offset_defaulting() {
    assert_eq!(
        select("SELECT * FROM users LIMIT 10;").limit,
        Some(LimitClause {
            limit: 10,
            offset: 0
        })
    );
    assert_eq!(
        select("SELECT * FROM users LIMIT 10 OFFSET 5;").limit,
        Some(LimitClause {
            limit: 10,
            offset: 5
        })
    );
}

#[test]
fn insert_positional_and_named_columns() {
    assert_eq!(
        insert("INSERT INTO users VALUES (42, test);").fields,
        vec![("0".into(), "42".into()), ("1".into(), "test".into())]
    );
    assert_eq!(
        insert("INSERT INTO users (id, name) VALUES (42, test);").fields,
        vec![("id".into(), "42".into()), ("name".into(), "test".into())]
    );
}

#[test]
fn other_statements_fail() {
    for text in [
        "DELETE FROM users;",
        "UPDATE users SET a = 1;",
        "",
        ";",
        "select",
        "select * from users where",
        "insert into users values (1",
        "insert into users values (1, 'abc);",
        " select * from users;",
        "select * from users where a = 1 limit 3;",
        "select * from users where a = 1 order by a;",
        "select * from users\nx",
        "s\u{e9}lect * from users;",
        "select * from caf\u{e9};",
    ] {
        assert_eq!(parse_query(text), Err("failed to parse query"), "{}", text);
    }
}

#[test]
fn what_follows_the_statement_is_ignored() {
    let statement = select("select a from t");
    assert_eq!(select("select a from t;\n"), statement);
    assert_eq!(select("select a from t; \u{e9}\u{e9}"), statement);
    assert_eq!(select("select a from t; select"), statement);
    assert_eq!(select("select a from t ;\t\nDELETE FROM t"), statement);
}

#[test]
fn terminators_are_interchangeable() {
    for body in [
        "select id, name from users",
        "select * from users",
        "select distinct a from t as x",
        "select * from t where a = 1",
        "select * from t where a = 'x' and b <> ? or not c >= 3",
        "select * from t where a = 1 ",
        "select * from users order by id",
        "select * from users order by id desc",
        "select * from users order by id, name asc",
        "select * from users limit 10",
        "select * from users limit 10 ",
        "select * from users limit 10 offset 5",
        "select * from users ",
        "select * from users \t",
        "select a from t order by a limit 3 offset 4",
        "insert into users values (42, test)",
        "insert into users (id, name) values (42, test)",
        "insert into users values (CURRENT_TIMESTAMP, ?, 'x', 1.5)",
        "insert into users values (1) ",
        "select * from t;",
        "select * from t; tail",
        "select * from t\n",
    ] {
        let plain = parse_query(body);
        assert!(plain.is_ok(), "{}", body);
        assert_eq!(parse_query(&format!("{};", body)), plain, "{}", body);
        assert_eq!(parse_query(&format!("{}\n", body)), plain, "{}", body);
    }
}

#[test]
fn insert_is_tried_first() {
    assert!(matches!(
        parse_query("insert into select values (1)"),
        Ok(SqlQuery::Insert(_))
    ));
    assert!(matches!(
        parse_query("select insert from into"),
        Ok(SqlQuery::Select(_))
    ));
}
