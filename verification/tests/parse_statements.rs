use rusted_engine::{parse, Command, Operator, Type, Value};

fn err(input: &str) -> String {
    match parse(input) {
        Ok(c) => panic!("expected an error for {:?}, got {:?}", input, c),
        Err(e) => e,
    }
}

fn value_text(v: &Value) -> String {
    v.to_text()
}

#[test]
fn create_table_with_columns() {
    match parse("CREATE TABLE users (id INT, name TEXT)").unwrap() {
        Command::CreateTable { name, columns } => {
            assert_eq!(name, "users");
            assert_eq!(columns.len(), 2);
            assert_eq!(columns[0].name, "id");
            assert_eq!(columns[0].col_type, Type::Int);
            assert_eq!(columns[1].name, "name");
            assert_eq!(columns[1].col_type, Type::Text);
        }
        other => panic!("unexpected {:?}", other),
    }
}

#[test]
fn create_table_lower_case_types_and_no_commas() {
    match parse("create table t (a integer b text)").unwrap() {
        Command::CreateTable { name, columns } => {
            assert_eq!(name, "t");
            assert_eq!(columns.len(), 2);
            assert_eq!(columns[0].col_type, Type::Int);
            assert_eq!(columns[1].col_type, Type::Text);
        }
        other => panic!("unexpected {:?}", other),
    }
}

#[test]
fn create_table_errors() {
    assert_eq!(err("CREATE TABLE t"), "Incomplete CREATE TABLE statement");
    assert_eq!(err("CREATE t x ( a INT )"), "Expected TABLE after CREATE");
    assert_eq!(err("CREATE TABLE TEXT ( a INT )"), "Expected table name after CREATE TABLE");
    assert_eq!(err("CREATE TABLE t a INT , b )"), "Expected ( after table name");
    assert_eq!(err("CREATE TABLE t ( a INT , b"), "Expected ) at end of column definitions");
    assert_eq!(err("CREATE TABLE t (a INT, b)"), "Incomplete column definition");
    assert_eq!(err("CREATE TABLE t (a INT, 5 INT)"), "Expected column name, got IntLit(5)");
    assert_eq!(err("CREATE TABLE t (a FLOAT)"), "Expected type, got Ident(\"FLOAT\")");
    assert_eq!(err("CREATE TABLE t (a STRING)"), "Expected type, got Ident(\"STRING\")");
    assert_eq!(err("CREATE TABLE t (a SET)"), "Unknown type: SET");
}

#[test]
fn insert_values() {
    match parse("INSERT INTO people VALUES ('it''s', 42) trailing").unwrap() {
        Command::Insert { table, values } => {
            assert_eq!(table, "people");
            assert_eq!(values.len(), 2);
            assert!(matches!(&values[0], Value::Text(s) if s == "it's"));
            assert!(matches!(&values[1], Value::Int(42)));
        }
        other => panic!("unexpected {:?}", other),
    }
}

#[test]
fn insert_errors() {
    assert_eq!(err("INSERT INTO t VALUES"), "Incomplete INSERT statement");
    assert_eq!(err("INSERT INTO t VALUES ()"), "Incomplete INSERT statement");
    assert_eq!(err("INSERT t VALUES (1, 2)"), "Expected INTO after INSERT");
    assert_eq!(err("INSERT INTO VALUES VALUES (1, 2)"), "Expected table name after INSERT INTO");
    assert_eq!(err("INSERT INTO t VALUE (1, 2)"), "Expected VALUES");
    assert_eq!(err("INSERT INTO t VALUES 1, 2, 3"), "Expected ( after VALUES");
    assert_eq!(err("INSERT INTO t VALUES (1, 2"), "Expected )");
    assert_eq!(err("INSERT INTO t VALUES (1, x)"), "Expected value, got Ident(\"x\")");
    assert_eq!(
        err("INSERT INTO t VALUES (99999999999999999999, 1)"),
        "Invalid number: 99999999999999999999"
    );
}

#[test]
fn insert_largest_integer() {
    match parse("INSERT INTO t VALUES (9223372036854775807, 0)").unwrap() {
        Command::Insert { values, .. } => {
            assert!(matches!(values[0], Value::Int(i64::MAX)));
        }
        other => panic!("unexpected {:?}", other),
    }
    assert_eq!(
        err("INSERT INTO t VALUES (9223372036854775808, 0)"),
        "Invalid number: 9223372036854775808"
    );
}

#[test]
fn select_star_and_columns() {
    match parse("SELECT * FROM t").unwrap() {
        Command::Select { table, columns, where_clause } => {
            assert_eq!(table, "t");
            assert!(columns.is_none());
            assert!(where_clause.is_none());
        }
        other => panic!("unexpected {:?}", other),
    }
    match parse("SELECT a, b FROM t WHERE a >= 3").unwrap() {
        Command::Select { table, columns, where_clause } => {
            assert_eq!(table, "t");
            assert_eq!(columns.unwrap(), vec!["a".to_string(), "b".to_string()]);
            let (c, op, v) = where_clause.unwrap();
            assert_eq!(c, "a");
            assert_eq!(op, Operator::Gte);
            assert!(matches!(v, Value::Int(3)));
        }
        other => panic!("unexpected {:?}", other),
    }
}

#[test]
fn select_operators() {
    let cases = [
        ("=", Operator::Eq),
        ("!=", Operator::Neq),
        ("<>", Operator::Neq),
        (">", Operator::Gt),
        ("<", Operator::Lt),
        (">=", Operator::Gte),
        ("<=", Operator::Lte),
    ];
    for (text, op) in cases {
        let q = format!("SELECT * FROM t WHERE a {} 'x'", text);
        match parse(&q).unwrap() {
            Command::Select { where_clause: Some((_, o, Value::Text(s))), .. } => {
                assert_eq!(o, op);
                assert_eq!(s, "x");
            }
            other => panic!("unexpected {:?}", other),
        }
    }
}

#[test]
fn select_errors() {
    assert_eq!(err("SELECT"), "Expected column name(s) after SELECT");
    assert_eq!(err("SELECT *"), "Expected FROM");
    assert_eq!(err("SELECT a b FROM t"), "Expected FROM");
    assert_eq!(err("SELECT FROM t"), "Expected column name, got Keyword(\"FROM\")");
    assert_eq!(err("SELECT * FROM"), "Expected table name after FROM");
    assert_eq!(err("SELECT * FROM 5"), "Expected table name");
    assert_eq!(err("SELECT * FROM t LIMIT"), "Unexpected token after table name: Ident(\"LIMIT\")");
    assert_eq!(err("SELECT * FROM t WHERE a ="), "Incomplete WHERE clause");
    assert_eq!(err("SELECT * FROM t WHERE 1 = 2"), "Expected column name in WHERE, got IntLit(1)");
    assert_eq!(err("SELECT * FROM t WHERE a b 2"), "Expected operator in WHERE, got Ident(\"b\")");
    assert_eq!(err("SELECT * FROM t WHERE a = b"), "Expected value in WHERE, got Ident(\"b\")");
}

#[test]
fn delete_with_and_without_where() {
    match parse("delete from t where name != 'bob'").unwrap() {
        Command::Delete { table, where_clause } => {
            assert_eq!(table, "t");
            let (c, op, v) = where_clause.unwrap();
            assert_eq!(c, "name");
            assert_eq!(op, Operator::Neq);
            assert!(matches!(v, Value::Text(s) if s == "bob"));
        }
        other => panic!("unexpected {:?}", other),
    }
    match parse("DELETE FROM t").unwrap() {
        Command::Delete { table, where_clause } => {
            assert_eq!(table, "t");
            assert!(where_clause.is_none());
        }
        other => panic!("unexpected {:?}", other),
    }
}

#[test]
fn delete_errors() {
    assert_eq!(err("DELETE FROM"), "Incomplete DELETE statement");
    assert_eq!(err("DELETE t x"), "Expected FROM after DELETE");
    assert_eq!(err("DELETE FROM 1"), "Expected table name after DELETE FROM");
    assert_eq!(err("DELETE FROM t x"), "Unexpected token: Ident(\"x\")");
    assert_eq!(err("DELETE FROM t WHERE a ="), "Incomplete WHERE clause");
    assert_eq!(
        err("DELETE FROM t WHERE 'a\"b' = 1"),
        "Expected column name in WHERE, got StrLit(\"a\\\"b\")"
    );
}

#[test]
fn exit_and_quit() {
    assert!(matches!(parse("EXIT").unwrap(), Command::Exit));
    assert!(matches!(parse("quit;").unwrap(), Command::Exit));
    assert!(matches!(parse("  Exit  ").unwrap(), Command::Exit));
}

#[test]
fn statement_level_errors() {
    assert_eq!(err(""), "Empty input");
    assert_eq!(err("   "), "Empty input");
    assert_eq!(err(";"), "Empty input");
    assert_eq!(err("FOO"), "Unexpected token: Ident(\"FOO\")");
    assert_eq!(err("42"), "Unexpected token: IntLit(42)");
    assert_eq!(err("AND"), "Unexpected token: Keyword(\"AND\")");
}

#[test]
fn tokenizer_errors() {
    assert_eq!(err("SELECT * FROM t WHERE a ! 1"), "Expected '=' after '!'");
    assert_eq!(err("SELECT * FROM t WHERE a !"), "Expected '=' after '!'");
    assert_eq!(err("SELECT 'abc"), "Unterminated string literal");
    assert_eq!(err("SELECT -1"), "Invalid number: -");
    assert_eq!(err("INSERT INTO t VALUES (-1, 2)"), "Invalid number: -");
    assert_eq!(err("SELECT # FROM t"), "Unexpected character: '#'");
    assert_eq!(err(";;"), "Unexpected character: ';'");
}

#[test]
fn value_display() {
    assert_eq!(value_text(&Value::Int(-42)), "-42");
    assert_eq!(value_text(&Value::Int(0)), "0");
    assert_eq!(value_text(&Value::Int(i64::MIN)), "-9223372036854775808");
    assert_eq!(value_text(&Value::Int(i64::MAX)), "9223372036854775807");
    assert_eq!(value_text(&Value::Text("héllo".to_string())), "héllo");
}

#[test]
fn type_names() {
    assert_eq!(Type::from_name("int"), Ok(Type::Int));
    assert_eq!(Type::from_name("Integer"), Ok(Type::Int));
    assert_eq!(Type::from_name("text"), Ok(Type::Text));
    assert_eq!(Type::from_name("string"), Ok(Type::Text));
    assert_eq!(Type::from_name("float"), Err("Unknown type: float".to_string()));
    assert_eq!("STRING".parse::<Type>(), Ok(Type::Text));
    assert_eq!(Type::from_upper("x", "INT"), Ok(Type::Int));
}
