use rusted_engine::laws::{closing_semicolon_optional, same_upper_case, whitespace_around_is_inert};
use rusted_engine::parser::{parse_delete, parse_select};
use rusted_engine::lexer::{tokenize, Token};
use rusted_engine::text::chars_of;
use rusted_engine::{parse, Command, Type};

fn debug_tokens(s: &str) -> String {
    format!("{:?}", tokenize(&chars_of(s)))
}

#[test]
fn semicolon_condition_is_tested() {
    assert!(closing_semicolon_optional("SELECT * FROM t"));
    assert!(closing_semicolon_optional("  SELECT * FROM t \n"));
    assert!(!closing_semicolon_optional("SELECT * FROM t;"));
    assert!(!closing_semicolon_optional("EXIT ;  "));
    assert!(closing_semicolon_optional(""));
}

#[test]
fn upper_case_comparison() {
    assert!(same_upper_case("select", "SeLeCt"));
    assert!(same_upper_case("integer", "INTEGER"));
    assert!(!same_upper_case("select", "selects"));
    assert!(same_upper_case("straße", "STRASSE"));
}

#[test]
fn tokens_ignore_surrounding_whitespace() {
    assert_eq!(debug_tokens(" \t a <> 'b c' \n "), debug_tokens("a <> 'b c'"));
    assert_eq!(debug_tokens("  'open  "), debug_tokens("'open"));
    assert_eq!(debug_tokens("  x ! "), debug_tokens("x !"));
}

#[test]
fn delete_and_select_share_where() {
    for tail in ["", " WHERE a = 1", " WHERE a <> 'x' extra", " WHERE a =", " LIMIT 3", " WHERE 1 = 2"] {
        let d = parse(&format!("DELETE FROM t{}", tail));
        let s = parse(&format!("SELECT * FROM t{}", tail));
        assert_eq!(d.is_ok(), s.is_ok(), "{:?}", tail);
        if let (Ok(Command::Delete { table: t1, where_clause: w1 }), Ok(Command::Select { table: t2, where_clause: w2, columns })) = (d, s) {
            assert_eq!(t1, t2);
            assert!(columns.is_none());
            assert_eq!(format!("{:?}", w1), format!("{:?}", w2));
        }
    }
}

#[test]
fn type_debug_names_parse_back() {
    for t in [Type::Text, Type::Int] {
        let name = format!("{:?}", t);
        assert_eq!(name.parse::<Type>(), Ok(t));
        assert_eq!(name.to_lowercase().parse::<Type>(), Ok(t));
    }
}

#[test]
fn neq_spellings_agree() {
    let a = tokenize(&chars_of("a != 1")).unwrap();
    let b = tokenize(&chars_of("a <> 1")).unwrap();
    assert!(matches!(a[1], Token::Neq));
    assert!(matches!(b[1], Token::Neq));
    assert_eq!(format!("{:?}", a), format!("{:?}", b));
}

#[test]
fn whitespace_condition_is_tested() {
    assert!(whitespace_around_is_inert(" \t", "a <> 'b'", "\n "));
    assert!(!whitespace_around_is_inert(" x", "a", " "));
    assert!(!whitespace_around_is_inert(" ", "a", " y"));
    assert!(whitespace_around_is_inert("", "", ""));
}

#[test]
fn minus_is_never_a_number() {
    assert_eq!(tokenize(&chars_of("a > -5")).unwrap_err(), "Invalid number: -");
    assert_eq!(tokenize(&chars_of("-")).unwrap_err(), "Invalid number: -");
}

fn kwd(s: &str) -> Token {
    Token::Keyword(s.to_string())
}

#[test]
fn select_on_no_tokens() {
    assert_eq!(parse_select(&vec![]).unwrap_err(), "Expected column name(s) after SELECT");
    assert_eq!(parse_select(&vec![kwd("SELECT")]).unwrap_err(), "Expected column name(s) after SELECT");
}

#[test]
fn delete_and_select_share_where_on_tokens() {
    let tails: Vec<Vec<Token>> = vec![
        vec![],
        vec![kwd("WHERE"), Token::Ident("a".into()), Token::Neq, Token::IntLit(1)],
        vec![kwd("WHERE"), Token::Ident("a".into()), Token::Eq],
        vec![Token::Comma],
        vec![kwd("WHERE"), Token::IntLit(1), Token::Eq, Token::IntLit(2)],
    ];
    for tail in tails {
        let mut d = vec![kwd("DELETE"), kwd("FROM"), Token::Ident("t".into())];
        d.extend(tail.iter().cloned());
        let mut s = vec![kwd("SELECT"), Token::Star, kwd("FROM"), Token::Ident("t".into())];
        s.extend(tail.iter().cloned());
        let rd = parse_delete(&d);
        let rs = parse_select(&s);
        assert_eq!(rd.is_ok(), rs.is_ok());
        if let (Ok(Command::Delete { where_clause: w1, .. }), Ok(Command::Select { where_clause: w2, .. })) = (rd, rs) {
            assert_eq!(format!("{:?}", w1), format!("{:?}", w2));
        }
    }
}
