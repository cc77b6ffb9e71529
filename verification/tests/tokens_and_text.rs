use rusted_engine::lexer::{keyword_or_ident, tokenize, Token};
use rusted_engine::text::{chars_of, int_text, is_space, text_eq};
use rusted_engine::{parse, Command, Value};

fn toks(s: &str) -> Vec<Token> {
    tokenize(&chars_of(s)).unwrap()
}

#[test]
fn whitespace_class_matches_std() {
    for code in 0u32..=0x10FFFF {
        if let Some(c) = char::from_u32(code) {
            assert_eq!(is_space(c), c.is_whitespace(), "U+{:04X}", code);
        }
    }
}

#[test]
fn tokenizer_symbols() {
    let t = toks("( ) , * = != > < >= <= <>");
    let names: Vec<String> = t.iter().map(|x| format!("{:?}", x)).collect();
    assert_eq!(
        names,
        vec!["LParen", "RParen", "Comma", "Star", "Eq", "Neq", "Gt", "Lt", "Gte", "Lte", "Neq"]
    );
}

#[test]
fn tokenizer_words_and_literals() {
    let t = toks("select Name_1 'a''b' 007 _x café");
    assert!(matches!(&t[0], Token::Keyword(k) if k == "SELECT"));
    assert!(matches!(&t[1], Token::Ident(k) if k == "Name_1"));
    assert!(matches!(&t[2], Token::StrLit(k) if k == "a'b"));
    assert!(matches!(&t[3], Token::IntLit(7)));
    assert!(matches!(&t[4], Token::Ident(k) if k == "_x"));
    assert!(matches!(&t[5], Token::Ident(k) if k == "café"));
    assert_eq!(t.len(), 6);
}

#[test]
fn number_followed_by_word() {
    let t = toks("a <> b < > c");
    let names: Vec<String> = t.iter().map(|x| format!("{:?}", x)).collect();
    assert_eq!(names, vec!["Ident(\"a\")", "Neq", "Ident(\"b\")", "Lt", "Gt", "Ident(\"c\")"]);
    let t = toks("12abc");
    assert!(matches!(&t[0], Token::IntLit(12)));
    assert!(matches!(&t[1], Token::Ident(k) if k == "abc"));
}

#[test]
fn upper_casing_is_applied() {
    let t = toks("select straße");
    assert!(matches!(&t[0], Token::Keyword(k) if k == "SELECT"));
    assert!(matches!(&t[1], Token::Ident(k) if k == "straße"));
    assert_eq!(
        parse("SELECT * FROM t WHERE a = 1 x").map(|_| ()),
        Ok(())
    );
    assert_eq!(
        parse("SELECT * FROM t LIMIT").unwrap_err(),
        "Unexpected token after table name: Ident(\"LIMIT\")"
    );
    assert_eq!(
        parse("CREATE TABLE t (a Integer)").map(|_| ()),
        Ok(())
    );
    assert!(matches!(keyword_or_ident("from".to_string(), "FROM".to_string()), Token::Keyword(k) if k == "FROM"));
    assert!(matches!(keyword_or_ident("foo".to_string(), "FOO".to_string()), Token::Ident(k) if k == "foo"));
}

#[test]
fn text_helpers() {
    assert!(text_eq("abc", "abc"));
    assert!(!text_eq("abc", "abd"));
    assert!(!text_eq("ab", "abc"));
    assert_eq!(int_text(-7), "-7");
    assert_eq!(chars_of("héé"), vec!['h', 'é', 'é']);
}

#[test]
fn surrounding_whitespace_is_ignored() {
    let a = format!("{:?}", parse("\t  SELECT a FROM t WHERE a = 1 \n"));
    let b = format!("{:?}", parse("SELECT a FROM t WHERE a = 1"));
    assert_eq!(a, b);
}

#[test]
fn closing_semicolon_is_optional() {
    for q in ["SELECT * FROM t", "SELECT * FROM t  ", "DELETE FROM t WHERE a = 'x'", "EXIT", "FOO", ""] {
        let with = format!("{:?}", parse(&format!("{};", q)));
        let without = format!("{:?}", parse(q));
        assert_eq!(with, without, "{:?}", q);
    }
}

#[test]
fn integer_text_reads_back() {
    for n in [0i64, 7, 10, 12345, i64::MAX] {
        let shown = Value::Int(n).to_text();
        let t = toks(&shown);
        assert_eq!(t.len(), 1);
        assert!(matches!(t[0], Token::IntLit(m) if m == n));
    }
}

#[test]
fn keywords_ignore_case() {
    let a = format!("{:?}", parse("SeLeCt * FrOm t WhErE x = 1"));
    let b = format!("{:?}", parse("SELECT * FROM t WHERE x = 1"));
    assert_eq!(a, b);
}

#[test]
fn parsed_names_are_names() {
    match parse("CREATE TABLE Tbl_9 (ñame TEXT, _n INT)").unwrap() {
        Command::CreateTable { name, columns } => {
            assert_eq!(name, "Tbl_9");
            assert_eq!(columns[0].name, "ñame");
            assert_eq!(columns[1].name, "_n");
        }
        other => panic!("unexpected {:?}", other),
    }
}

fn quote(s: &str) -> String {
    format!("'{}'", s.replace('\'', "''"))
}

#[test]
fn quoted_text_reads_back() {
    for s in ["", "plain", "it's", "''", "a'b'c", "héllo wörld", " spaces "] {
        let t = toks(&quote(s));
        assert_eq!(t.len(), 1);
        assert!(matches!(&t[0], Token::StrLit(x) if x == s), "{:?}", s);
    }
}
