use nom_sql_learning::insert::{
    insert_columns, insert_keyword, insert_values, insertion, insertion_at, number_fields,
    pair_fields, InsertStatement,
};

#[test]
fn simple_insert() {
    let qstring = "INSERT INTO users VALUES (42, test);";

    let res = insertion(qstring.as_bytes());

    let (r1, r2) = res.unwrap();
    println!("left: {:?}", r1);
    assert_eq!(
        r2,
        InsertStatement {
            table: String::from("users"),
            fields: vec![("0".into(), "42".into()), ("1".into(), "test".into())],
            ..Default::default()
        }
    );
}

#[test]
fn placeholder_insert() {
    let qstring = "INSERT INTO users VALUES (?,?);";

    let res = insertion(qstring.as_bytes());

    assert_eq!(
        res.unwrap().1,
        InsertStatement {
            table: String::from("users"),
            fields: vec![("0".into(), "?".into()), ("1".into(), "?".into())],
            ..Default::default()
        }
    );
}

#[test]
fn single_quotes_insert() {
    let qstring = "INSERT INTO users VALUES (45.6,'abc');";

    let res = insertion(qstring.as_bytes());

    assert_eq!(
        res.unwrap().1,
        InsertStatement {
            table: String::from("users"),
            fields: vec![("0".into(), "45.6".into()), ("1".into(), "abc".into())],
            ..Default::default()
        }
    );
}

#[test]
fn insert_with_field_names() {
    let qstring = "insert into users (id, name) values (42, test);";

    let res = insertion(qstring.as_bytes());

    assert_eq!(
        res.unwrap().1,
        InsertStatement {
            table: String::from("users"),
            fields: vec![("id".into(), "42".into()), ("name".into(), "test".into())],
            ..Default::default()
        }
    );
}

#[test]
fn default_insert_is_empty() {
    assert_eq!(
        InsertStatement::default(),
        InsertStatement {
            table: String::new(),
            fields: vec![],
        }
    );
}

#[test]
fn positions_are_written_in_decimal() {
    let values: Vec<String> = (0..12).map(|i| format!("v{}", i)).collect();
    let fields = number_fields(&values);
    assert_eq!(fields.len(), 12);
    for (i, (column, value)) in fields.iter().enumerate() {
        assert_eq!(column, &format!("{}", i));
        assert_eq!(value, &format!("v{}", i));
    }
    assert_eq!(fields[0].0, "0");
    assert_eq!(fields[9].0, "9");
    assert_eq!(fields[10].0, "10");
    assert_eq!(fields[11].0, "11");
    assert_eq!(number_fields(&vec![]), vec![]);
}

#[test]
fn many_values_are_numbered() {
    let mut text = String::from("insert into t values (");
    for i in 0..120 {
        if i > 0 {
            text.push(',');
        }
        text.push_str("x");
    }
    text.push_str(")");
    let statement = insertion(text.as_bytes()).unwrap().1;
    assert_eq!(statement.fields.len(), 120);
    assert_eq!(statement.fields[7], ("7".into(), "x".into()));
    assert_eq!(statement.fields[42], ("42".into(), "x".into()));
    assert_eq!(statement.fields[100], ("100".into(), "x".into()));
    assert_eq!(statement.fields[119], ("119".into(), "x".into()));
}

#[test]
fn columns_and_values_pair_up_to_the_shorter_list() {
    let columns = vec![String::from("a"), String::from("b"), String::from("c")];
    let values = vec![String::from("1"), String::from("2")];
    assert_eq!(
        pair_fields(&columns, &values),
        vec![("a".into(), "1".into()), ("b".into(), "2".into())]
    );
    assert_eq!(
        pair_fields(&values, &columns),
        vec![("1".into(), "a".into()), ("2".into(), "b".into())]
    );
    assert_eq!(pair_fields(&vec![], &values), vec![]);
    assert_eq!(
        insertion(b"insert into t (a, b, c) values (1, 2);")
            .unwrap()
            .1
            .fields,
        vec![("a".into(), "1".into()), ("b".into(), "2".into())]
    );
    assert_eq!(
        insertion(b"insert into t (a) values (1, 2);")
            .unwrap()
            .1
            .fields,
        vec![("a".into(), "1".into())]
    );
}

#[test]
fn insert_parts() {
    assert_eq!(insert_keyword(b"insert into t", 0), Some(12));
    assert_eq!(insert_keyword(b"INSERT\n INTO\tt", 0), Some(13));
    assert_eq!(insert_keyword(b"insertinto t", 0), None);
    assert_eq!(insert_keyword(b"insert into", 0), None);
    assert_eq!(
        insert_columns(b"(id, name) values", 0),
        Some((vec![String::from("id"), String::from("name")], 11))
    );
    assert_eq!(
        insert_columns(b"(*) values", 0),
        Some((vec![String::from("ALL")], 4))
    );
    assert_eq!(insert_columns(b"(id)values", 0), None);
    assert_eq!(insert_columns(b"(id values", 0), None);
    assert_eq!(
        insert_values(b"VALUES (1);", 0),
        Some((vec![String::from("1")], 10))
    );
    assert_eq!(insert_values(b"values(1)", 0), None);
    assert_eq!(insert_values(b"values (1", 0), None);
    assert_eq!(insert_values(b"values (1 2)", 0), None);
}

#[test]
fn insert_forms() {
    let expected = InsertStatement {
        table: String::from("users"),
        fields: vec![("0".into(), "CURRENT_TIMESTAMP".into())],
    };
    assert_eq!(
        insertion(b"insert into users values (CURRENT_TIMESTAMP)"),
        Some((&b""[..], expected))
    );
    let (rest, statement) = insertion(b"insert into users as u values ();\n tail").unwrap();
    assert_eq!(rest, &b"tail"[..]);
    assert_eq!(
        statement,
        InsertStatement {
            table: String::from("users"),
            fields: vec![],
        }
    );
    assert_eq!(
        insertion_at(b"xx insert into t values (1)\n", 3),
        Some((
            InsertStatement {
                table: String::from("t"),
                fields: vec![("0".into(), "1".into())],
            },
            28
        ))
    );
    assert!(insertion(b"insert into users values (1").is_none());
    assert!(insertion(b"insert into users values (1) x").is_none());
    assert!(insertion(b"insert users values (1);").is_none());
    assert!(insertion(b"insert into (a) values (1);").is_none());
    assert!(insertion(b"").is_none());
}
