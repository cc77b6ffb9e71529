//! What each kind of statement parses to, for every statement of that shape,
//! and how a quoted literal ends.
use crate::laws::{all_digits, escaped, lemma_digits_of, quoted};
use crate::lexer::{after, digit_run, lex, opt_prepend, quoted_body, scan, TokenView};
use crate::parser::{
    column_defs, command_of, find_rparen, literal_value, name_list, operator_of, value_list,
};
use crate::text::{digits_of, is_digit_spec, is_space_spec};
use crate::types::{type_named, ColumnView, CommandView, ConditionView, Operator, ValueView};
use vstd::prelude::*;

verus! {

// ---------------------------------------------------------------------------
// Token lists of a given shape
// ---------------------------------------------------------------------------

/// The token that writes a comparison operator.
pub open spec fn operator_token(op: Operator) -> TokenView {
    match op {
        Operator::Eq => TokenView::Eq,
        Operator::Neq => TokenView::Neq,
        Operator::Gt => TokenView::Gt,
        Operator::Lt => TokenView::Lt,
        Operator::Gte => TokenView::Gte,
        Operator::Lte => TokenView::Lte,
    }
}

/// The literal token that writes a value.
pub open spec fn literal_token(v: ValueView) -> TokenView {
    match v {
        ValueView::Text(s) => TokenView::StrLit(s),
        ValueView::Int(n) => TokenView::IntLit(n),
    }
}

/// `WHERE column operator value`, or nothing.
pub open spec fn where_tokens(cond: Option<ConditionView>) -> Seq<TokenView> {
    match cond {
        Some((c, op, v)) => seq![
            TokenView::Keyword("WHERE"@),
            TokenView::Ident(c),
            operator_token(op),
            literal_token(v),
        ],
        None => Seq::<TokenView>::empty(),
    }
}

/// The names `c1, c2, ..., ck`.
pub open spec fn name_tokens(cs: Seq<Seq<char>>) -> Seq<TokenView>
    decreases cs.len(),
{
    if cs.len() == 0 {
        Seq::<TokenView>::empty()
    } else if cs.len() == 1 {
        seq![TokenView::Ident(cs[0])]
    } else {
        seq![TokenView::Ident(cs[0]), TokenView::Comma] + name_tokens(cs.drop_first())
    }
}

/// The literals `v1, v2, ..., vk`.
pub open spec fn value_tokens(vs: Seq<ValueView>) -> Seq<TokenView>
    decreases vs.len(),
{
    if vs.len() == 0 {
        Seq::<TokenView>::empty()
    } else if vs.len() == 1 {
        seq![literal_token(vs[0])]
    } else {
        seq![literal_token(vs[0]), TokenView::Comma] + value_tokens(vs.drop_first())
    }
}

/// The column definitions `n1 K1, n2 K2, ..., nk Kk`, each a name and a
/// type keyword.
pub open spec fn column_tokens(defs: Seq<(Seq<char>, Seq<char>)>) -> Seq<TokenView>
    decreases defs.len(),
{
    if defs.len() == 0 {
        Seq::<TokenView>::empty()
    } else if defs.len() == 1 {
        seq![TokenView::Ident(defs[0].0), TokenView::Keyword(defs[0].1)]
    } else {
        seq![TokenView::Ident(defs[0].0), TokenView::Keyword(defs[0].1), TokenView::Comma]
            + column_tokens(defs.drop_first())
    }
}

// ---------------------------------------------------------------------------
// Lemmas
// ---------------------------------------------------------------------------

proof fn lemma_leading_keywords_differ()
    ensures
        "SELECT"@ != "CREATE"@,
        "SELECT"@ != "INSERT"@,
        "DELETE"@ != "CREATE"@,
        "DELETE"@ != "INSERT"@,
        "DELETE"@ != "SELECT"@,
        "INSERT"@ != "CREATE"@,
{
    reveal_strlit("SELECT");
    reveal_strlit("CREATE");
    reveal_strlit("INSERT");
    reveal_strlit("DELETE");
    assert("SELECT"@[0] != "CREATE"@[0]);
    assert("SELECT"@[0] != "INSERT"@[0]);
    assert("DELETE"@[0] != "CREATE"@[0]);
    assert("DELETE"@[0] != "INSERT"@[0]);
    assert("DELETE"@[0] != "SELECT"@[0]);
    assert("INSERT"@[0] != "CREATE"@[0]);
}

proof fn lemma_name_tokens(cs: Seq<Seq<char>>, r: Seq<TokenView>)
    requires
        cs.len() >= 1,
        r.len() == 0 || r[0] != TokenView::Comma,
    ensures
        name_tokens(cs).len() == 2 * cs.len() - 1,
        name_list(name_tokens(cs) + r) == Ok::<(Seq<Seq<char>>, nat), Seq<char>>(
            (cs, name_tokens(cs).len()),
        ),
    decreases cs.len(),
{
    let ts = name_tokens(cs) + r;
    if cs.len() == 1 {
        assert(ts[0] == TokenView::Ident(cs[0]));
        if ts.len() > 1 {
            assert(ts[1] == r[0]);
        }
        assert(seq![cs[0]] =~= cs);
    } else {
        let rest = cs.drop_first();
        lemma_name_tokens(rest, r);
        assert(ts =~= seq![TokenView::Ident(cs[0]), TokenView::Comma] + (name_tokens(rest) + r));
        assert(ts.skip(2) =~= name_tokens(rest) + r);
        assert(seq![cs[0]] + rest =~= cs);
    }
}

proof fn lemma_value_tokens(vs: Seq<ValueView>)
    ensures
        value_tokens(vs).len() == if vs.len() == 0 {
            0
        } else {
            2 * vs.len() - 1
        },
        value_list(value_tokens(vs)) == Ok::<Seq<ValueView>, Seq<char>>(vs),
        forall|i: int|
            0 <= i < value_tokens(vs).len() ==> #[trigger] value_tokens(vs)[i]
                != TokenView::RParen,
    decreases vs.len(),
{
    let ts = value_tokens(vs);
    if vs.len() == 0 {
        assert(vs =~= Seq::<ValueView>::empty());
    } else if vs.len() == 1 {
        assert(literal_value(literal_token(vs[0])) == Some(vs[0]));
        assert(ts.skip(1) =~= Seq::<TokenView>::empty());
        assert(seq![vs[0]] + Seq::<ValueView>::empty() =~= vs);
    } else {
        let rest = vs.drop_first();
        lemma_value_tokens(rest);
        assert(literal_value(literal_token(vs[0])) == Some(vs[0]));
        assert(ts.skip(2) =~= value_tokens(rest));
        assert(seq![vs[0]] + rest =~= vs);
        assert forall|i: int| 0 <= i < ts.len() implies #[trigger] ts[i] != TokenView::RParen by {
            if i >= 2 {
                assert(ts[i] == value_tokens(rest)[i - 2]);
            }
        }
    }
}

proof fn lemma_find_rparen(a: Seq<TokenView>, w: Seq<TokenView>)
    requires
        forall|i: int| 0 <= i < a.len() ==> #[trigger] a[i] != TokenView::RParen,
    ensures
        find_rparen(a + seq![TokenView::RParen] + w) == Some(a.len()),
    decreases a.len(),
{
    let ts = a + seq![TokenView::RParen] + w;
    if a.len() == 0 {
        assert(ts[0] == TokenView::RParen);
    } else {
        assert(ts[0] == a[0]);
        assert forall|i: int| 0 <= i < a.drop_first().len() implies #[trigger] a.drop_first()[i]
            != TokenView::RParen by {
            assert(a.drop_first()[i] == a[i + 1]);
        }
        lemma_find_rparen(a.drop_first(), w);
        assert(ts.drop_first() =~= a.drop_first() + seq![TokenView::RParen] + w);
    }
}

proof fn lemma_column_tokens(defs: Seq<(Seq<char>, Seq<char>)>)
    requires
        forall|i: int| 0 <= i < defs.len() ==> (#[trigger] type_named(defs[i].1)) is Ok,
    ensures
        column_tokens(defs).len() == if defs.len() == 0 {
            0
        } else {
            3 * defs.len() - 1
        },
        column_defs(column_tokens(defs)) matches Ok(cols) && cols.len() == defs.len() && forall|
            i: int,
        |
            0 <= i < defs.len() ==> (#[trigger] cols[i]).name == defs[i].0 && type_named(defs[i].1)
                == Ok::<crate::types::Type, Seq<char>>(cols[i].col_type),
    decreases defs.len(),
{
    let ts = column_tokens(defs);
    if defs.len() == 0 {
    } else {
        assert(type_named(defs[0].1) is Ok);
        let rest = defs.drop_first();
        assert forall|i: int| 0 <= i < rest.len() implies (#[trigger] type_named(rest[i].1)) is Ok by {
            assert(rest[i] == defs[i + 1]);
        }
        lemma_column_tokens(rest);
        if defs.len() == 1 {
            assert(ts.skip(2) =~= Seq::<TokenView>::empty());
        } else {
            assert(ts[2] == TokenView::Comma);
            assert(ts.skip(3) =~= column_tokens(rest));
        }
        let cols = column_defs(ts)->Ok_0;
        let more = column_defs(column_tokens(rest))->Ok_0;
        assert forall|i: int| 0 <= i < defs.len() implies (#[trigger] cols[i]).name == defs[i].0
            && type_named(defs[i].1) == Ok::<crate::types::Type, Seq<char>>(cols[i].col_type) by {
            if i > 0 {
                assert(cols[i] == more[i - 1]);
                assert(defs[i] == rest[i - 1]);
            }
        }
    }
}

proof fn lemma_operator_token(op: Operator)
    ensures
        operator_of(operator_token(op)) == Some(op),
{
}

proof fn lemma_literal_token(v: ValueView)
    ensures
        literal_value(literal_token(v)) == Some(v),
{
}

// ---------------------------------------------------------------------------
// Laws
// ---------------------------------------------------------------------------

/// `SELECT c1, ..., ck FROM t`, with or without `WHERE column op value`,
/// gives a `SELECT` of table `t` whose column list is exactly `c1, ..., ck`
/// (never `*`) and whose condition is exactly the one written: the column
/// named, the operator its token writes, and the value its literal writes.
pub proof fn law_select_columns_and_condition(
    cs: Seq<Seq<char>>,
    t: Seq<char>,
    cond: Option<ConditionView>,
)
    requires
        cs.len() >= 1,
    ensures
        command_of(
            seq![TokenView::Keyword("SELECT"@)] + name_tokens(cs) + seq![
                TokenView::Keyword("FROM"@),
                TokenView::Ident(t),
            ] + where_tokens(cond),
        ) == Ok::<CommandView, Seq<char>>(
            CommandView::Select { table: t, columns: Some(cs), where_clause: cond },
        ),
{
    lemma_leading_keywords_differ();
    let nt = name_tokens(cs);
    let wt = where_tokens(cond);
    let r = seq![TokenView::Keyword("FROM"@), TokenView::Ident(t)] + wt;
    let ts = seq![TokenView::Keyword("SELECT"@)] + nt + seq![
        TokenView::Keyword("FROM"@),
        TokenView::Ident(t),
    ] + wt;
    assert(ts =~= seq![TokenView::Keyword("SELECT"@)] + (nt + r));
    lemma_name_tokens(cs, r);
    assert(ts[0] == TokenView::Keyword("SELECT"@));
    assert(ts[1] == nt[0]);
    assert(ts.skip(1) =~= nt + r);
    let p: int = 1 + nt.len() as int;
    assert(ts[p] == TokenView::Keyword("FROM"@));
    assert(ts[p + 1] == TokenView::Ident(t));
    match cond {
        Some((c, op, v)) => {
            lemma_operator_token(op);
            lemma_literal_token(v);
            assert(ts[p + 2] == TokenView::Keyword("WHERE"@));
            assert(ts.subrange(p + 3, p + 6) =~= seq![
                TokenView::Ident(c),
                operator_token(op),
                literal_token(v),
            ]);
        },
        None => {},
    }
}

/// `SELECT * FROM t`, with or without `WHERE column op value`, gives a
/// `SELECT` of table `t` with no column list and exactly the condition
/// written.
pub proof fn law_select_star(t: Seq<char>, cond: Option<ConditionView>)
    ensures
        command_of(
            seq![
                TokenView::Keyword("SELECT"@),
                TokenView::Star,
                TokenView::Keyword("FROM"@),
                TokenView::Ident(t),
            ] + where_tokens(cond),
        ) == Ok::<CommandView, Seq<char>>(
            CommandView::Select { table: t, columns: None, where_clause: cond },
        ),
{
    lemma_leading_keywords_differ();
    let ts = seq![
        TokenView::Keyword("SELECT"@),
        TokenView::Star,
        TokenView::Keyword("FROM"@),
        TokenView::Ident(t),
    ] + where_tokens(cond);
    assert(ts[0] == TokenView::Keyword("SELECT"@));
    assert(ts[1] == TokenView::Star);
    assert(ts[2] == TokenView::Keyword("FROM"@));
    assert(ts[3] == TokenView::Ident(t));
    match cond {
        Some((c, op, v)) => {
            lemma_operator_token(op);
            lemma_literal_token(v);
            assert(ts[4] == TokenView::Keyword("WHERE"@));
            assert(ts.subrange(5, 8) =~= seq![
                TokenView::Ident(c),
                operator_token(op),
                literal_token(v),
            ]);
        },
        None => {},
    }
}

/// `DELETE FROM t`, with or without `WHERE column op value`, gives a
/// `DELETE` of table `t` with exactly the condition written: the column
/// named, the operator its token writes, and the value its literal writes.
pub proof fn law_delete_condition(t: Seq<char>, cond: Option<ConditionView>)
    ensures
        command_of(
            seq![
                TokenView::Keyword("DELETE"@),
                TokenView::Keyword("FROM"@),
                TokenView::Ident(t),
            ] + where_tokens(cond),
        ) == Ok::<CommandView, Seq<char>>(CommandView::Delete { table: t, where_clause: cond }),
{
    lemma_leading_keywords_differ();
    let ts = seq![
        TokenView::Keyword("DELETE"@),
        TokenView::Keyword("FROM"@),
        TokenView::Ident(t),
    ] + where_tokens(cond);
    assert(ts[0] == TokenView::Keyword("DELETE"@));
    assert(ts[1] == TokenView::Keyword("FROM"@));
    assert(ts[2] == TokenView::Ident(t));
    match cond {
        Some((c, op, v)) => {
            lemma_operator_token(op);
            lemma_literal_token(v);
            assert(ts[3] == TokenView::Keyword("WHERE"@));
            assert(ts.subrange(4, 7) =~= seq![
                TokenView::Ident(c),
                operator_token(op),
                literal_token(v),
            ]);
        },
        None => {},
    }
}

/// `CREATE TABLE t (n1 K1, ..., nk Kk)`, where each `Ki` names a column
/// type, gives a table `t` with exactly `k` columns, in order: the `i`-th is
/// named `ni` and has the type that `Ki` names.
pub proof fn law_create_columns(t: Seq<char>, defs: Seq<(Seq<char>, Seq<char>)>)
    requires
        defs.len() >= 1,
        forall|i: int| 0 <= i < defs.len() ==> (#[trigger] type_named(defs[i].1)) is Ok,
    ensures
        command_of(
            seq![
                TokenView::Keyword("CREATE"@),
                TokenView::Keyword("TABLE"@),
                TokenView::Ident(t),
                TokenView::LParen,
            ] + column_tokens(defs) + seq![TokenView::RParen],
        ) matches Ok(CommandView::CreateTable { name, columns }) && name == t && columns.len()
            == defs.len() && forall|i: int|
            0 <= i < defs.len() ==> (#[trigger] columns[i]).name == defs[i].0 && type_named(
                defs[i].1,
            ) == Ok::<crate::types::Type, Seq<char>>(columns[i].col_type),
{
    let ct = column_tokens(defs);
    let ts = seq![
        TokenView::Keyword("CREATE"@),
        TokenView::Keyword("TABLE"@),
        TokenView::Ident(t),
        TokenView::LParen,
    ] + ct + seq![TokenView::RParen];
    lemma_column_tokens(defs);
    assert(ts[0] == TokenView::Keyword("CREATE"@));
    assert(ts[1] == TokenView::Keyword("TABLE"@));
    assert(ts[2] == TokenView::Ident(t));
    assert(ts[3] == TokenView::LParen);
    assert(ts.last() == TokenView::RParen);
    assert(ts.subrange(4, ts.len() - 1) =~= ct);
}

/// `INSERT INTO t VALUES (v1, ..., vk)` followed by anything gives an
/// insertion into `t` of exactly the values `v1, ..., vk`, in order: each
/// quoted text as its text, each integer as that integer.
pub proof fn law_insert_values(t: Seq<char>, vs: Seq<ValueView>, w: Seq<TokenView>)
    requires
        vs.len() >= 1,
    ensures
        command_of(
            seq![
                TokenView::Keyword("INSERT"@),
                TokenView::Keyword("INTO"@),
                TokenView::Ident(t),
                TokenView::Keyword("VALUES"@),
                TokenView::LParen,
            ] + value_tokens(vs) + seq![TokenView::RParen] + w,
        ) == Ok::<CommandView, Seq<char>>(CommandView::Insert { table: t, values: vs }),
{
    lemma_leading_keywords_differ();
    let vt = value_tokens(vs);
    let ts = seq![
        TokenView::Keyword("INSERT"@),
        TokenView::Keyword("INTO"@),
        TokenView::Ident(t),
        TokenView::Keyword("VALUES"@),
        TokenView::LParen,
    ] + vt + seq![TokenView::RParen] + w;
    lemma_value_tokens(vs);
    lemma_find_rparen(vt, w);
    assert(ts[0] == TokenView::Keyword("INSERT"@));
    assert(ts[1] == TokenView::Keyword("INTO"@));
    assert(ts[2] == TokenView::Ident(t));
    assert(ts[3] == TokenView::Keyword("VALUES"@));
    assert(ts[4] == TokenView::LParen);
    assert(ts.skip(5) =~= vt + seq![TokenView::RParen] + w);
    assert(ts.subrange(5, 5 + vt.len() as int) =~= vt);
}

proof fn lemma_quoted_body_escaped_then(s: Seq<char>, r: Seq<char>)
    requires
        r.len() == 0 || r[0] != '\'',
    ensures
        quoted_body(escaped(s) + seq!['\''] + r) == Some((s, escaped(s).len() + 1)),
    decreases s.len(),
{
    let t = escaped(s) + seq!['\''] + r;
    if s.len() == 0 {
        assert(t =~= seq!['\''] + r);
        assert(t[0] == '\'');
        if t.len() > 1 {
            assert(t[1] == r[0]);
        }
    } else {
        let rest = escaped(s.drop_first()) + seq!['\''] + r;
        lemma_quoted_body_escaped_then(s.drop_first(), r);
        if s[0] == '\'' {
            assert(t =~= seq!['\'', '\''] + rest);
            assert(t.skip(2) =~= rest);
            assert(seq!['\''] + s.drop_first() =~= s);
        } else {
            assert(t =~= seq![s[0]] + rest);
            assert(t.drop_first() =~= rest);
            assert(seq![s[0]] + s.drop_first() =~= s);
        }
    }
}

/// A quoted literal ends at its closing quote: for every text `s` and every
/// text `r` that does not start with a quote, the tokens of the literal
/// that writes `s` followed by `r` are `s` as a text literal followed by
/// the tokens of `r` (and when `r` gives an error, that error).
pub proof fn law_quoted_literal_ends_at_its_quote(s: Seq<char>, r: Seq<char>)
    requires
        r.len() == 0 || r[0] != '\'',
    ensures
        lex(quoted(s) + r) == after(seq![TokenView::StrLit(s)], lex(r)),
{
    let q = quoted(s) + r;
    lemma_quoted_body_escaped_then(s, r);
    assert(q[0] == '\'');
    assert(q.drop_first() =~= escaped(s) + seq!['\''] + r);
    assert(!is_space_spec('\''));
    let n = quoted(s).len();
    assert(scan(q) == Ok::<(Option<TokenView>, nat), Seq<char>>(
        (Some(TokenView::StrLit(s)), n),
    ));
    assert(q.skip(n as int) =~= r);
    match lex(r) {
        Ok(ts) => {
            assert(opt_prepend(Some(TokenView::StrLit(s)), ts) =~= seq![TokenView::StrLit(s)]
                + ts);
        },
        Err(_) => {},
    }
}

// ---------------------------------------------------------------------------
// Symbols and integers followed by more text
// ---------------------------------------------------------------------------

/// The text that writes a comparison operator (`<>` also writes `Neq`).
pub open spec fn operator_text(op: Operator) -> Seq<char> {
    match op {
        Operator::Eq => seq!['='],
        Operator::Neq => seq!['!', '='],
        Operator::Gt => seq!['>'],
        Operator::Lt => seq!['<'],
        Operator::Gte => seq!['>', '='],
        Operator::Lte => seq!['<', '='],
    }
}

proof fn lemma_one_token(head: Seq<char>, t: TokenView, r: Seq<char>)
    requires
        head.len() > 0,
        scan(head + r) == Ok::<(Option<TokenView>, nat), Seq<char>>((Some(t), head.len())),
    ensures
        lex(head + r) == after(seq![t], lex(r)),
{
    let q = head + r;
    assert(q.skip(head.len() as int) =~= r);
    match lex(r) {
        Ok(ts) => {
            assert(opt_prepend(Some(t), ts) =~= seq![t] + ts);
        },
        Err(_) => {},
    }
}

/// Each comparison operator, followed by whitespace or by nothing, is read
/// as the token of that operator, and the rest is read on its own; `<>`
/// is read as `Neq` like `!=`.
pub proof fn law_operator_tokens(op: Operator, r: Seq<char>)
    requires
        r.len() == 0 || is_space_spec(r[0]),
    ensures
        lex(operator_text(op) + r) == after(seq![operator_token(op)], lex(r)),
        lex(seq!['<', '>'] + r) == after(seq![TokenView::Neq], lex(r)),
{
    let h = operator_text(op);
    let q = h + r;
    assert(q[0] == h[0]);
    if h.len() > 1 {
        assert(q[1] == h[1]);
    } else if r.len() > 0 {
        assert(q[1] == r[0]);
    }
    lemma_one_token(h, operator_token(op), r);
    let h2 = seq!['<', '>'];
    let q2 = h2 + r;
    assert(q2[0] == '<');
    assert(q2[1] == '>');
    lemma_one_token(h2, TokenView::Neq, r);
}

/// Each punctuation character is read as its own token, whatever follows.
pub proof fn law_punctuation_tokens(r: Seq<char>)
    ensures
        lex(seq![','] + r) == after(seq![TokenView::Comma], lex(r)),
        lex(seq!['('] + r) == after(seq![TokenView::LParen], lex(r)),
        lex(seq![')'] + r) == after(seq![TokenView::RParen], lex(r)),
        lex(seq!['*'] + r) == after(seq![TokenView::Star], lex(r)),
{
    assert((seq![','] + r)[0] == ',');
    assert((seq!['('] + r)[0] == '(');
    assert((seq![')'] + r)[0] == ')');
    assert((seq!['*'] + r)[0] == '*');
    lemma_one_token(seq![','], TokenView::Comma, r);
    lemma_one_token(seq!['('], TokenView::LParen, r);
    lemma_one_token(seq![')'], TokenView::RParen, r);
    lemma_one_token(seq!['*'], TokenView::Star, r);
}

proof fn lemma_digit_run_then(d: Seq<char>, r: Seq<char>)
    requires
        all_digits(d),
        r.len() == 0 || !is_digit_spec(r[0]),
    ensures
        digit_run(d + r) == d.len(),
    decreases d.len(),
{
    if d.len() == 0 {
        assert(d + r =~= r);
    } else {
        assert((d + r)[0] == d[0]);
        assert(is_digit_spec(d[0]));
        assert((d + r).drop_first() =~= d.drop_first() + r);
        assert forall|i: int| 0 <= i < d.drop_first().len() implies is_digit_spec(
            #[trigger] d.drop_first()[i],
        ) by {
            assert(d.drop_first()[i] == d[i + 1]);
        }
        lemma_digit_run_then(d.drop_first(), r);
    }
}

/// The decimal numeral of a non-negative integer, followed by anything that
/// does not start with a digit, is read as that integer, and the rest is
/// read on its own.
pub proof fn law_integer_then(n: i64, r: Seq<char>)
    requires
        n >= 0,
        r.len() == 0 || !is_digit_spec(r[0]),
    ensures
        lex(digits_of(n as nat) + r) == after(seq![TokenView::IntLit(n)], lex(r)),
{
    let d = digits_of(n as nat);
    lemma_digits_of(n as nat);
    lemma_digit_run_then(d, r);
    let q = d + r;
    assert(q[0] == d[0]);
    assert(is_digit_spec(d[0]));
    assert(q.take(d.len() as int) =~= d);
    lemma_one_token(d, TokenView::IntLit(n), r);
}

} // verus!
