//! The parser: from tokens, and from a line of input, to a [`Command`].
use crate::lexer::{
    debug_token, kw, kw_spec, lex, token_debug, tokenize, tokens_view, Token, TokenView,
};
use crate::text::{chars_of, text, trim, trim_bounds};
use crate::types::{
    type_named, Column, ColumnView, Command, CommandView, ConditionView, Operator, Type, Value,
    ValueView,
};
use vstd::prelude::*;

verus! {

// ---------------------------------------------------------------------------
// The statement grammar
// ---------------------------------------------------------------------------

/// `r` is the outcome `s`: the same command, or the same error message.
pub open spec fn outcome_is(r: Result<Command, String>, s: Result<CommandView, Seq<char>>) -> bool {
    match r {
        Ok(c) => s == Ok::<CommandView, Seq<char>>(c@),
        Err(e) => s == Err::<CommandView, Seq<char>>(e@),
    }
}

/// The value written by a literal token.
pub open spec fn literal_value(t: TokenView) -> Option<ValueView> {
    match t {
        TokenView::StrLit(s) => Some(ValueView::Text(s)),
        TokenView::IntLit(n) => Some(ValueView::Int(n)),
        _ => None,
    }
}

/// The comparison operator written by a token.
pub open spec fn operator_of(t: TokenView) -> Option<Operator> {
    match t {
        TokenView::Eq => Some(Operator::Eq),
        TokenView::Neq => Some(Operator::Neq),
        TokenView::Gt => Some(Operator::Gt),
        TokenView::Lt => Some(Operator::Lt),
        TokenView::Gte => Some(Operator::Gte),
        TokenView::Lte => Some(Operator::Lte),
        _ => None,
    }
}

/// The column definitions `name TYPE, name TYPE, ...` (commas optional).
pub open spec fn column_defs(ts: Seq<TokenView>) -> Result<Seq<ColumnView>, Seq<char>>
    decreases ts.len(),
{
    if ts.len() == 0 {
        Ok(Seq::<ColumnView>::empty())
    } else if ts.len() < 2 {
        Err("Incomplete column definition"@)
    } else {
        match ts[0] {
            TokenView::Ident(name) => match ts[1] {
                TokenView::Keyword(t) => match type_named(t) {
                    Err(e) => Err(e),
                    Ok(ty) => {
                        let rest = if ts.len() > 2 && ts[2] == TokenView::Comma {
                            ts.skip(3)
                        } else {
                            ts.skip(2)
                        };
                        match column_defs(rest) {
                            Ok(cs) => Ok(seq![ColumnView { name: name, col_type: ty }] + cs),
                            Err(e) => Err(e),
                        }
                    },
                },
                t => Err("Expected type, got "@ + token_debug(t)),
            },
            t => Err("Expected column name, got "@ + token_debug(t)),
        }
    }
}

/// `CREATE TABLE name ( column definitions )`.
pub open spec fn create_spec(ts: Seq<TokenView>) -> Result<CommandView, Seq<char>> {
    if ts.len() < 6 {
        Err("Incomplete CREATE TABLE statement"@)
    } else if !kw_spec(ts[1], "TABLE"@) {
        Err("Expected TABLE after CREATE"@)
    } else {
        match ts[2] {
            TokenView::Ident(name) => {
                if ts[3] != TokenView::LParen {
                    Err("Expected ( after table name"@)
                } else if ts.last() != TokenView::RParen {
                    Err("Expected ) at end of column definitions"@)
                } else {
                    match column_defs(ts.subrange(4, ts.len() - 1)) {
                        Ok(cs) => Ok(CommandView::CreateTable { name: name, columns: cs }),
                        Err(e) => Err(e),
                    }
                }
            },
            _ => Err("Expected table name after CREATE TABLE"@),
        }
    }
}

/// The position of the first `)` in `ts`.
pub open spec fn find_rparen(ts: Seq<TokenView>) -> Option<nat>
    decreases ts.len(),
{
    if ts.len() == 0 {
        None
    } else if ts[0] == TokenView::RParen {
        Some(0)
    } else {
        match find_rparen(ts.drop_first()) {
            Some(k) => Some(k + 1),
            None => None,
        }
    }
}

/// The values `v, v, ...` (commas optional).
pub open spec fn value_list(ts: Seq<TokenView>) -> Result<Seq<ValueView>, Seq<char>>
    decreases ts.len(),
{
    if ts.len() == 0 {
        Ok(Seq::<ValueView>::empty())
    } else {
        match literal_value(ts[0]) {
            None => Err("Expected value, got "@ + token_debug(ts[0])),
            Some(v) => {
                let rest = if ts.len() > 1 && ts[1] == TokenView::Comma {
                    ts.skip(2)
                } else {
                    ts.skip(1)
                };
                match value_list(rest) {
                    Ok(vs) => Ok(seq![v] + vs),
                    Err(e) => Err(e),
                }
            },
        }
    }
}

/// `INSERT INTO name VALUES ( values )`; what follows the first `)` is
/// ignored.
pub open spec fn insert_spec(ts: Seq<TokenView>) -> Result<CommandView, Seq<char>> {
    if ts.len() < 7 {
        Err("Incomplete INSERT statement"@)
    } else if !kw_spec(ts[1], "INTO"@) {
        Err("Expected INTO after INSERT"@)
    } else {
        match ts[2] {
            TokenView::Ident(name) => {
                if !kw_spec(ts[3], "VALUES"@) {
                    Err("Expected VALUES"@)
                } else if ts[4] != TokenView::LParen {
                    Err("Expected ( after VALUES"@)
                } else {
                    match find_rparen(ts.skip(5)) {
                        None => Err("Expected )"@),
                        Some(k) => match value_list(ts.subrange(5, 5 + k as int)) {
                            Ok(vs) => Ok(CommandView::Insert { table: name, values: vs }),
                            Err(e) => Err(e),
                        },
                    }
                }
            },
            _ => Err("Expected table name after INSERT INTO"@),
        }
    }
}

/// The column names `c, c, ...` that follow `SELECT`: the names and the
/// number of tokens they take. A name without a comma after it ends the list.
pub open spec fn name_list(ts: Seq<TokenView>) -> Result<(Seq<Seq<char>>, nat), Seq<char>>
    decreases ts.len(),
{
    if ts.len() == 0 {
        Ok((Seq::<Seq<char>>::empty(), 0))
    } else {
        match ts[0] {
            TokenView::Ident(c) => {
                if ts.len() > 1 && ts[1] == TokenView::Comma {
                    match name_list(ts.skip(2)) {
                        Ok((cs, n)) => Ok((seq![c] + cs, n + 2)),
                        Err(e) => Err(e),
                    }
                } else {
                    Ok((seq![c], 1))
                }
            },
            t => Err("Expected column name, got "@ + token_debug(t)),
        }
    }
}

/// The condition `column operator value` of a `WHERE` clause, in the three
/// tokens `ts`.
pub open spec fn condition(ts: Seq<TokenView>) -> Result<ConditionView, Seq<char>> {
    match ts[0] {
        TokenView::Ident(col) => match operator_of(ts[1]) {
            None => Err("Expected operator in WHERE, got "@ + token_debug(ts[1])),
            Some(op) => match literal_value(ts[2]) {
                None => Err("Expected value in WHERE, got "@ + token_debug(ts[2])),
                Some(v) => Ok((col, op, v)),
            },
        },
        t => Err("Expected column name in WHERE, got "@ + token_debug(t)),
    }
}

/// The part of a `SELECT` from position `p` on: `FROM name [WHERE condition]`.
pub open spec fn select_from(
    ts: Seq<TokenView>,
    columns: Option<Seq<Seq<char>>>,
    p: int,
) -> Result<CommandView, Seq<char>> {
    if p >= ts.len() || !kw_spec(ts[p], "FROM"@) {
        Err("Expected FROM"@)
    } else if p + 1 >= ts.len() {
        Err("Expected table name after FROM"@)
    } else {
        match ts[p + 1] {
            TokenView::Ident(table) => {
                let q = p + 2;
                if q < ts.len() {
                    if !kw_spec(ts[q], "WHERE"@) {
                        Err("Unexpected token after table name: "@ + token_debug(ts[q]))
                    } else if q + 3 >= ts.len() {
                        Err("Incomplete WHERE clause"@)
                    } else {
                        match condition(ts.subrange(q + 1, q + 4)) {
                            Ok(w) => Ok(
                                CommandView::Select {
                                    table: table,
                                    columns: columns,
                                    where_clause: Some(w),
                                },
                            ),
                            Err(e) => Err(e),
                        }
                    }
                } else {
                    Ok(CommandView::Select { table: table, columns: columns, where_clause: None })
                }
            },
            _ => Err("Expected table name"@),
        }
    }
}

/// `SELECT * FROM name [WHERE condition]` or
/// `SELECT c, c, ... FROM name [WHERE condition]`; tokens after the
/// condition are ignored.
pub open spec fn select_spec(ts: Seq<TokenView>) -> Result<CommandView, Seq<char>> {
    if ts.len() == 0 {
        Err("Expected column name(s) after SELECT"@)
    } else if ts.len() > 1 && ts[1] == TokenView::Star {
        select_from(ts, None, 2)
    } else {
        match name_list(ts.skip(1)) {
            Err(e) => Err(e),
            Ok((cs, n)) => {
                if cs.len() == 0 {
                    Err("Expected column name(s) after SELECT"@)
                } else {
                    select_from(ts, Some(cs), 1 + n as int)
                }
            },
        }
    }
}

/// `DELETE FROM name [WHERE condition]`; tokens after the condition are
/// ignored.
pub open spec fn delete_spec(ts: Seq<TokenView>) -> Result<CommandView, Seq<char>> {
    if ts.len() < 3 {
        Err("Incomplete DELETE statement"@)
    } else if !kw_spec(ts[1], "FROM"@) {
        Err("Expected FROM after DELETE"@)
    } else {
        match ts[2] {
            TokenView::Ident(table) => {
                if ts.len() > 3 {
                    if !kw_spec(ts[3], "WHERE"@) {
                        Err("Unexpected token: "@ + token_debug(ts[3]))
                    } else if ts.len() < 7 {
                        Err("Incomplete WHERE clause"@)
                    } else {
                        match condition(ts.subrange(4, 7)) {
                            Ok(w) => Ok(CommandView::Delete { table: table, where_clause: Some(w) }),
                            Err(e) => Err(e),
                        }
                    }
                } else {
                    Ok(CommandView::Delete { table: table, where_clause: None })
                }
            },
            _ => Err("Expected table name after DELETE FROM"@),
        }
    }
}

/// The command that a list of tokens states, chosen by its first keyword.
pub open spec fn command_of(ts: Seq<TokenView>) -> Result<CommandView, Seq<char>> {
    if ts.len() == 0 {
        Err("Empty input"@)
    } else if kw_spec(ts[0], "CREATE"@) {
        create_spec(ts)
    } else if kw_spec(ts[0], "INSERT"@) {
        insert_spec(ts)
    } else if kw_spec(ts[0], "SELECT"@) {
        select_spec(ts)
    } else if kw_spec(ts[0], "DELETE"@) {
        delete_spec(ts)
    } else if kw_spec(ts[0], "EXIT"@) || kw_spec(ts[0], "QUIT"@) {
        Ok(CommandView::Exit)
    } else {
        Err("Unexpected token: "@ + token_debug(ts[0]))
    }
}

/// A line of input made ready to tokenize: trimmed, and without one
/// trailing `;`.
pub open spec fn prepare(s: Seq<char>) -> Seq<char> {
    let t = trim(s);
    if t.len() > 0 && t.last() == ';' {
        t.drop_last()
    } else {
        t
    }
}

/// The command that a line of input states, or the message of its error.
pub open spec fn parse_spec(s: Seq<char>) -> Result<CommandView, Seq<char>> {
    match lex(prepare(s)) {
        Ok(ts) => command_of(ts),
        Err(e) => Err(e),
    }
}

// ---------------------------------------------------------------------------
// The parser
// ---------------------------------------------------------------------------

/// `r` with `p` in front of the items it gives.
pub open spec fn prefixed<T>(p: Seq<T>, r: Result<Seq<T>, Seq<char>>) -> Result<Seq<T>, Seq<char>> {
    match r {
        Ok(xs) => Ok(p + xs),
        Err(e) => Err(e),
    }
}

fn is_lparen(t: &Token) -> (r: bool)
    ensures
        r == (t@ == TokenView::LParen),
{
    match t {
        Token::LParen => true,
        _ => false,
    }
}

fn is_rparen(t: &Token) -> (r: bool)
    ensures
        r == (t@ == TokenView::RParen),
{
    match t {
        Token::RParen => true,
        _ => false,
    }
}

fn is_comma(t: &Token) -> (r: bool)
    ensures
        r == (t@ == TokenView::Comma),
{
    match t {
        Token::Comma => true,
        _ => false,
    }
}

fn is_star(t: &Token) -> (r: bool)
    ensures
        r == (t@ == TokenView::Star),
{
    match t {
        Token::Star => true,
        _ => false,
    }
}

/// The message `prefix` followed by the `Debug` text of `t`.
fn got(prefix: &str, t: &Token) -> (r: String)
    ensures
        r@ == prefix@ + token_debug(t@),
{
    let mut m = text(prefix);
    let d = debug_token(t);
    m.append(d.as_str());
    m
}

/// The value written by a literal token.
pub fn literal(t: &Token) -> (r: Option<Value>)
    ensures
        match r {
            Some(v) => literal_value(t@) == Some(v@),
            None => literal_value(t@) is None,
        },
{
    match t {
        Token::StrLit(s) => Some(Value::Text(s.clone())),
        Token::IntLit(n) => Some(Value::Int(*n)),
        _ => None,
    }
}

/// The comparison operator written by a token.
pub fn operator(t: &Token) -> (r: Option<Operator>)
    ensures
        r == operator_of(t@),
{
    match t {
        Token::Eq => Some(Operator::Eq),
        Token::Neq => Some(Operator::Neq),
        Token::Gt => Some(Operator::Gt),
        Token::Lt => Some(Operator::Lt),
        Token::Gte => Some(Operator::Gte),
        Token::Lte => Some(Operator::Lte),
        _ => None,
    }
}

/// The column definitions in `tokens[lo..hi]`.
fn parse_columns(tokens: &Vec<Token>, lo: usize, hi: usize) -> (r: Result<Vec<Column>, String>)
    requires
        lo <= hi <= tokens@.len(),
    ensures
        match r {
            Ok(cs) => column_defs(tokens_view(tokens@).subrange(lo as int, hi as int)) == Ok::<
                Seq<ColumnView>,
                Seq<char>,
            >(crate::types::columns_view(cs@)),
            Err(e) => column_defs(tokens_view(tokens@).subrange(lo as int, hi as int)) == Err::<
                Seq<ColumnView>,
                Seq<char>,
            >(e@),
        },
{
    let ghost tv = tokens_view(tokens@);
    let mut columns: Vec<Column> = Vec::new();
    let mut i = lo;
    proof {
        match column_defs(tv.subrange(lo as int, hi as int)) {
            Ok(cs) => {
                assert(crate::types::columns_view(columns@) + cs =~= cs);
            },
            Err(_) => {},
        }
    }
    while i < hi
        invariant
            tv == tokens_view(tokens@),
            lo <= i <= hi <= tokens@.len(),
            column_defs(tv.subrange(lo as int, hi as int)) == prefixed(
                crate::types::columns_view(columns@),
                column_defs(tv.subrange(i as int, hi as int)),
            ),
        decreases hi - i,
    {
        let ghost t = tv.subrange(i as int, hi as int);
        if i + 1 >= hi {
            return Err(text("Incomplete column definition"));
        }
        assert(t[0] == tokens@[i as int]@);
        assert(t[1] == tokens@[i + 1]@);
        let name = match &tokens[i] {
            Token::Ident(n) => n.clone(),
            other => {
                return Err(got("Expected column name, got ", other));
            },
        };
        let col_type = match &tokens[i + 1] {
            Token::Keyword(k) => match Type::from_name(k.as_str()) {
                Ok(ty) => ty,
                Err(e) => {
                    return Err(e);
                },
            },
            other => {
                return Err(got("Expected type, got ", other));
            },
        };
        let ghost before = crate::types::columns_view(columns@);
        let col = Column { name, col_type };
        columns.push(col);
        assert(crate::types::columns_view(columns@) =~= before + seq![col@]);
        i += 2;
        if i < hi && is_comma(&tokens[i]) {
            assert(t[2] == tokens@[i as int]@);
            i += 1;
            assert(t.skip(3) =~= tv.subrange(i as int, hi as int));
        } else {
            proof {
                if i < hi {
                    assert(t[2] == tokens@[i as int]@);
                }
            }
            assert(t.skip(2) =~= tv.subrange(i as int, hi as int));
        }
        proof {
            match column_defs(tv.subrange(i as int, hi as int)) {
                Ok(cs) => {
                    assert(before + (seq![col@] + cs) =~= crate::types::columns_view(columns@) + cs);
                },
                Err(_) => {},
            }
        }
    }
    assert(tv.subrange(i as int, hi as int) =~= Seq::<TokenView>::empty());
    assert(crate::types::columns_view(columns@) + Seq::<ColumnView>::empty() =~= crate::types::columns_view(columns@));
    Ok(columns)
}

/// `CREATE TABLE name ( column definitions )`.
pub fn parse_create(tokens: &Vec<Token>) -> (r: Result<Command, String>)
    ensures
        outcome_is(r, create_spec(tokens_view(tokens@))),
{
    let ghost tv = tokens_view(tokens@);
    let len = tokens.len();
    if len < 6 {
        return Err(text("Incomplete CREATE TABLE statement"));
    }
    assert(tv[1] == tokens@[1]@);
    assert(tv[2] == tokens@[2]@);
    assert(tv[3] == tokens@[3]@);
    assert(tv.last() == tokens@[len - 1]@);
    if !kw(&tokens[1], "TABLE") {
        return Err(text("Expected TABLE after CREATE"));
    }
    let name = match &tokens[2] {
        Token::Ident(n) => n.clone(),
        _ => {
            return Err(text("Expected table name after CREATE TABLE"));
        },
    };
    if !is_lparen(&tokens[3]) {
        return Err(text("Expected ( after table name"));
    }
    if !is_rparen(&tokens[len - 1]) {
        return Err(text("Expected ) at end of column definitions"));
    }
    match parse_columns(tokens, 4, len - 1) {
        Ok(columns) => Ok(Command::CreateTable { name, columns }),
        Err(e) => Err(e),
    }
}

/// The position of the first `)` at or after `from`.
fn find_close(tokens: &Vec<Token>, from: usize) -> (r: Option<usize>)
    requires
        from <= tokens@.len(),
    ensures
        match r {
            Some(k) => from <= k < tokens@.len() && find_rparen(
                tokens_view(tokens@).skip(from as int),
            ) == Some((k - from) as nat),
            None => find_rparen(tokens_view(tokens@).skip(from as int)) is None,
        },
{
    let ghost tv = tokens_view(tokens@);
    let len = tokens.len();
    let mut k = from;
    while k < len
        invariant
            tv == tokens_view(tokens@),
            from <= k <= len == tokens@.len(),
            find_rparen(tv.skip(from as int)) == (match find_rparen(tv.skip(k as int)) {
                Some(m) => Some((m + (k - from)) as nat),
                None => None,
            }),
        decreases len - k,
    {
        assert(tv.skip(k as int)[0] == tokens@[k as int]@);
        if is_rparen(&tokens[k]) {
            return Some(k);
        }
        assert(tv.skip(k as int).drop_first() =~= tv.skip(k + 1));
        k += 1;
    }
    assert(tv.skip(k as int).len() == 0);
    None
}

/// The values in `tokens[lo..hi]`.
fn parse_values(tokens: &Vec<Token>, lo: usize, hi: usize) -> (r: Result<Vec<Value>, String>)
    requires
        lo <= hi <= tokens@.len(),
    ensures
        match r {
            Ok(vs) => value_list(tokens_view(tokens@).subrange(lo as int, hi as int)) == Ok::<
                Seq<ValueView>,
                Seq<char>,
            >(crate::types::values_view(vs@)),
            Err(e) => value_list(tokens_view(tokens@).subrange(lo as int, hi as int)) == Err::<
                Seq<ValueView>,
                Seq<char>,
            >(e@),
        },
{
    let ghost tv = tokens_view(tokens@);
    let mut values: Vec<Value> = Vec::new();
    let mut i = lo;
    proof {
        match value_list(tv.subrange(lo as int, hi as int)) {
            Ok(vs) => {
                assert(crate::types::values_view(values@) + vs =~= vs);
            },
            Err(_) => {},
        }
    }
    while i < hi
        invariant
            tv == tokens_view(tokens@),
            lo <= i <= hi <= tokens@.len(),
            value_list(tv.subrange(lo as int, hi as int)) == prefixed(
                crate::types::values_view(values@),
                value_list(tv.subrange(i as int, hi as int)),
            ),
        decreases hi - i,
    {
        let ghost t = tv.subrange(i as int, hi as int);
        assert(t[0] == tokens@[i as int]@);
        let v = match literal(&tokens[i]) {
            Some(v) => v,
            None => {
                return Err(got("Expected value, got ", &tokens[i]));
            },
        };
        let ghost before = crate::types::values_view(values@);
        let ghost vv = v@;
        values.push(v);
        assert(crate::types::values_view(values@) =~= before + seq![vv]);
        i += 1;
        if i < hi && is_comma(&tokens[i]) {
            assert(t[1] == tokens@[i as int]@);
            i += 1;
            assert(t.skip(2) =~= tv.subrange(i as int, hi as int));
        } else {
            proof {
                if i < hi {
                    assert(t[1] == tokens@[i as int]@);
                }
            }
            assert(t.skip(1) =~= tv.subrange(i as int, hi as int));
        }
        proof {
            match value_list(tv.subrange(i as int, hi as int)) {
                Ok(vs) => {
                    assert(before + (seq![vv] + vs) =~= crate::types::values_view(values@) + vs);
                },
                Err(_) => {},
            }
        }
    }
    assert(tv.subrange(i as int, hi as int) =~= Seq::<TokenView>::empty());
    assert(crate::types::values_view(values@) + Seq::<ValueView>::empty() =~= crate::types::values_view(values@));
    Ok(values)
}

/// `INSERT INTO name VALUES ( values )`.
pub fn parse_insert(tokens: &Vec<Token>) -> (r: Result<Command, String>)
    ensures
        outcome_is(r, insert_spec(tokens_view(tokens@))),
{
    let ghost tv = tokens_view(tokens@);
    let len = tokens.len();
    if len < 7 {
        return Err(text("Incomplete INSERT statement"));
    }
    assert(tv[1] == tokens@[1]@);
    assert(tv[2] == tokens@[2]@);
    assert(tv[3] == tokens@[3]@);
    assert(tv[4] == tokens@[4]@);
    if !kw(&tokens[1], "INTO") {
        return Err(text("Expected INTO after INSERT"));
    }
    let name = match &tokens[2] {
        Token::Ident(n) => n.clone(),
        _ => {
            return Err(text("Expected table name after INSERT INTO"));
        },
    };
    if !kw(&tokens[3], "VALUES") {
        return Err(text("Expected VALUES"));
    }
    if !is_lparen(&tokens[4]) {
        return Err(text("Expected ( after VALUES"));
    }
    let close = match find_close(tokens, 5) {
        Some(k) => k,
        None => {
            return Err(text("Expected )"));
        },
    };
    match parse_values(tokens, 5, close) {
        Ok(values) => Ok(Command::Insert { table: name, values }),
        Err(e) => Err(e),
    }
}

/// The column names that start at `start`, and the position after them.
fn read_names(tokens: &Vec<Token>, start: usize) -> (r: Result<(Vec<String>, usize), String>)
    requires
        start <= tokens@.len(),
    ensures
        match r {
            Ok((names, end)) => start <= end <= tokens@.len() && name_list(
                tokens_view(tokens@).skip(start as int),
            ) == Ok::<(Seq<Seq<char>>, nat), Seq<char>>(
                (crate::types::texts_view(names@), (end - start) as nat),
            ),
            Err(e) => name_list(tokens_view(tokens@).skip(start as int)) == Err::<
                (Seq<Seq<char>>, nat),
                Seq<char>,
            >(e@),
        },
{
    let ghost tv = tokens_view(tokens@);
    let len = tokens.len();
    let mut names: Vec<String> = Vec::new();
    let mut pos = start;
    while pos < len
        invariant
            tv == tokens_view(tokens@),
            start <= pos <= len == tokens@.len(),
            name_list(tv.skip(start as int)) == (match name_list(tv.skip(pos as int)) {
                Ok((cs, n)) => Ok::<(Seq<Seq<char>>, nat), Seq<char>>(
                    (crate::types::texts_view(names@) + cs, (n + (pos - start)) as nat),
                ),
                Err(e) => Err(e),
            }),
        decreases len - pos,
    {
        let ghost t = tv.skip(pos as int);
        assert(t[0] == tokens@[pos as int]@);
        let c = match &tokens[pos] {
            Token::Ident(c) => c.clone(),
            other => {
                return Err(got("Expected column name, got ", other));
            },
        };
        let ghost before = crate::types::texts_view(names@);
        let ghost cv = c@;
        names.push(c);
        assert(crate::types::texts_view(names@) =~= before + seq![cv]);
        pos += 1;
        if pos < len && is_comma(&tokens[pos]) {
            assert(t[1] == tokens@[pos as int]@);
            pos += 1;
            assert(t.skip(2) =~= tv.skip(pos as int));
            proof {
                match name_list(tv.skip(pos as int)) {
                    Ok((cs, n)) => {
                        assert(before + (seq![cv] + cs) =~= crate::types::texts_view(names@) + cs);
                    },
                    Err(_) => {},
                }
            }
        } else {
            proof {
                if pos < len {
                    assert(t[1] == tokens@[pos as int]@);
                }
                assert(before + seq![cv] =~= crate::types::texts_view(names@));
            }
            return Ok((names, pos));
        }
    }
    assert(tv.skip(pos as int).len() == 0);
    assert(crate::types::texts_view(names@) + Seq::<Seq<char>>::empty() =~= crate::types::texts_view(names@));
    Ok((names, pos))
}

/// The condition `column operator value` in `tokens[at..at + 3]`.
fn parse_condition(tokens: &Vec<Token>, at: usize) -> (r: Result<(String, Operator, Value), String>)
    requires
        at + 3 <= tokens@.len(),
    ensures
        match r {
            Ok(w) => condition(tokens_view(tokens@).subrange(at as int, at + 3)) == Ok::<
                ConditionView,
                Seq<char>,
            >(crate::types::condition_view(Some(w))->0),
            Err(e) => condition(tokens_view(tokens@).subrange(at as int, at + 3)) == Err::<
                ConditionView,
                Seq<char>,
            >(e@),
        },
{
    let ghost t = tokens_view(tokens@).subrange(at as int, at + 3);
    let len = tokens.len();
    assert(at + 3 <= len);
    assert(t[0] == tokens@[at as int]@);
    assert(t[1] == tokens@[at + 1]@);
    assert(t[2] == tokens@[at + 2]@);
    let col = match &tokens[at] {
        Token::Ident(c) => c.clone(),
        other => {
            return Err(got("Expected column name in WHERE, got ", other));
        },
    };
    let op = match operator(&tokens[at + 1]) {
        Some(op) => op,
        None => {
            return Err(got("Expected operator in WHERE, got ", &tokens[at + 1]));
        },
    };
    let val = match literal(&tokens[at + 2]) {
        Some(v) => v,
        None => {
            return Err(got("Expected value in WHERE, got ", &tokens[at + 2]));
        },
    };
    Ok((col, op, val))
}

/// The part of a `SELECT` from position `p` on: `FROM name [WHERE condition]`.
fn parse_select_from(tokens: &Vec<Token>, columns: Option<Vec<String>>, p: usize) -> (r: Result<
    Command,
    String,
>)
    requires
        p <= tokens@.len(),
    ensures
        outcome_is(
            r,
            select_from(
                tokens_view(tokens@),
                match columns {
                    Some(cs) => Some(crate::types::texts_view(cs@)),
                    None => None,
                },
                p as int,
            ),
        ),
{
    let ghost tv = tokens_view(tokens@);
    let len = tokens.len();
    if p >= len || !kw(&tokens[p], "FROM") {
        return Err(text("Expected FROM"));
    }
    if p + 1 >= len {
        return Err(text("Expected table name after FROM"));
    }
    assert(tv[p + 1] == tokens@[p + 1]@);
    let table = match &tokens[p + 1] {
        Token::Ident(t) => t.clone(),
        _ => {
            return Err(text("Expected table name"));
        },
    };
    let q = p + 2;
    if q < len {
        assert(tv[q as int] == tokens@[q as int]@);
        if !kw(&tokens[q], "WHERE") {
            return Err(got("Unexpected token after table name: ", &tokens[q]));
        }
        if len - q <= 3 {
            return Err(text("Incomplete WHERE clause"));
        }
        match parse_condition(tokens, q + 1) {
            Ok(w) => Ok(Command::Select { table, columns, where_clause: Some(w) }),
            Err(e) => Err(e),
        }
    } else {
        Ok(Command::Select { table, columns, where_clause: None })
    }
}

/// `SELECT * FROM ...` or `SELECT c, c, ... FROM ...`.
pub fn parse_select(tokens: &Vec<Token>) -> (r: Result<Command, String>)
    ensures
        outcome_is(r, select_spec(tokens_view(tokens@))),
{
    let ghost tv = tokens_view(tokens@);
    let len = tokens.len();
    if len == 0 {
        return Err(text("Expected column name(s) after SELECT"));
    }
    if 1 < len && is_star(&tokens[1]) {
        assert(tv[1] == tokens@[1]@);
        return parse_select_from(tokens, None, 2);
    }
    proof {
        if 1 < len {
            assert(tv[1] == tokens@[1]@);
        }
    }
    match read_names(tokens, 1) {
        Err(e) => Err(e),
        Ok((names, end)) => {
            if names.len() == 0 {
                Err(text("Expected column name(s) after SELECT"))
            } else {
                parse_select_from(tokens, Some(names), end)
            }
        },
    }
}

/// `DELETE FROM name [WHERE condition]`.
pub fn parse_delete(tokens: &Vec<Token>) -> (r: Result<Command, String>)
    ensures
        outcome_is(r, delete_spec(tokens_view(tokens@))),
{
    let ghost tv = tokens_view(tokens@);
    let len = tokens.len();
    if len < 3 {
        return Err(text("Incomplete DELETE statement"));
    }
    assert(tv[1] == tokens@[1]@);
    assert(tv[2] == tokens@[2]@);
    if !kw(&tokens[1], "FROM") {
        return Err(text("Expected FROM after DELETE"));
    }
    let table = match &tokens[2] {
        Token::Ident(t) => t.clone(),
        _ => {
            return Err(text("Expected table name after DELETE FROM"));
        },
    };
    if len > 3 {
        assert(tv[3] == tokens@[3]@);
        if !kw(&tokens[3], "WHERE") {
            return Err(got("Unexpected token: ", &tokens[3]));
        }
        if len < 7 {
            return Err(text("Incomplete WHERE clause"));
        }
        match parse_condition(tokens, 4) {
            Ok(w) => Ok(Command::Delete { table, where_clause: Some(w) }),
            Err(e) => Err(e),
        }
    } else {
        Ok(Command::Delete { table, where_clause: None })
    }
}

/// The command that a list of tokens states, chosen by its first keyword.
pub fn parse_tokens(tokens: &Vec<Token>) -> (r: Result<Command, String>)
    ensures
        outcome_is(r, command_of(tokens_view(tokens@))),
{
    let ghost tv = tokens_view(tokens@);
    if tokens.len() == 0 {
        return Err(text("Empty input"));
    }
    assert(tv[0] == tokens@[0]@);
    let first = &tokens[0];
    if kw(first, "CREATE") {
        parse_create(tokens)
    } else if kw(first, "INSERT") {
        parse_insert(tokens)
    } else if kw(first, "SELECT") {
        parse_select(tokens)
    } else if kw(first, "DELETE") {
        parse_delete(tokens)
    } else if kw(first, "EXIT") || kw(first, "QUIT") {
        Ok(Command::Exit)
    } else {
        Err(got("Unexpected token: ", first))
    }
}

/// The characters `v[lo..hi]`.
fn chars_between(v: &Vec<char>, lo: usize, hi: usize) -> (r: Vec<char>)
    requires
        lo <= hi <= v@.len(),
    ensures
        r@ == v@.subrange(lo as int, hi as int),
{
    let mut r: Vec<char> = Vec::new();
    let mut i = lo;
    while i < hi
        invariant
            lo <= i <= hi <= v@.len(),
            r@ == v@.subrange(lo as int, i as int),
        decreases hi - i,
    {
        r.push(v[i]);
        i += 1;
        assert(r@ =~= v@.subrange(lo as int, i as int));
    }
    r
}

/// Parses one statement: the line is trimmed, one trailing `;` is dropped,
/// and the rest is tokenized and parsed. The result is the command, or the
/// message of the first error.
pub fn parse(input: &str) -> (r: Result<Command, String>)
    ensures
        outcome_is(r, parse_spec(input@)),
{
    let chars = chars_of(input);
    let (lo, hi) = trim_bounds(&chars);
    let ghost t = trim(input@);
    let end = if hi > lo && chars[hi - 1] == ';' {
        assert(t.last() == chars@[hi - 1]);
        hi - 1
    } else {
        hi
    };
    let line = chars_between(&chars, lo, end);
    assert(line@ =~= prepare(input@));
    match tokenize(&line) {
        Err(e) => Err(e),
        Ok(tokens) => parse_tokens(&tokens),
    }
}

} // verus!
