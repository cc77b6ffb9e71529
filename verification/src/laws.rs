//! Properties of the language as a whole: what holds of every statement.
use crate::lexer::{
    digit_run, is_keyword, lemma_scan_progress, lex, opt_prepend, quoted_body, scan, word_char,
    word_run, word_start, word_token, TokenView,
};
use crate::parser::{
    column_defs, condition, delete_spec, name_list, parse_spec, prepare, select_from, select_spec,
    value_list,
};
use crate::text::{
    chars_of, is_alphanumeric, is_space, text_eq, to_upper, trim_bounds, alphanumeric, digit_char, digit_value, digits_of, is_digit_spec, is_space_spec, numeral_value,
    trim, trim_end, trim_start, upper_case,
};
use crate::types::{type_named, value_text, CommandView, ConditionView, ValueView};
use vstd::prelude::*;

verus! {

/// Every character of `w` is whitespace.
pub open spec fn all_space(w: Seq<char>) -> bool {
    forall|i: int| 0 <= i < w.len() ==> is_space_spec(#[trigger] w[i])
}

// ---------------------------------------------------------------------------
// Whitespace around a statement
// ---------------------------------------------------------------------------

proof fn lemma_trim_start_space_prefix(w: Seq<char>, x: Seq<char>)
    requires
        all_space(w),
    ensures
        trim_start(w + x) == trim_start(x),
    decreases w.len(),
{
    if w.len() > 0 {
        assert((w + x)[0] == w[0]);
        assert((w + x).drop_first() =~= w.drop_first() + x);
        lemma_trim_start_space_prefix(w.drop_first(), x);
    } else {
        assert(w + x =~= x);
    }
}

proof fn lemma_trim_end_space_suffix(x: Seq<char>, w: Seq<char>)
    requires
        all_space(w),
    ensures
        trim_end(x + w) == trim_end(x),
    decreases w.len(),
{
    if w.len() > 0 {
        assert((x + w).last() == w.last());
        assert((x + w).drop_last() =~= x + w.drop_last());
        lemma_trim_end_space_suffix(x, w.drop_last());
    } else {
        assert(x + w =~= x);
    }
}

proof fn lemma_trim_space_suffix(s: Seq<char>, w: Seq<char>)
    requires
        all_space(w),
    ensures
        trim(s + w) == trim(s),
    decreases s.len(),
{
    if s.len() == 0 {
        assert(s + w =~= w + Seq::<char>::empty());
        lemma_trim_start_space_prefix(w, Seq::<char>::empty());
        assert(trim_start(Seq::<char>::empty()) =~= Seq::<char>::empty());
    } else if is_space_spec(s[0]) {
        assert((s + w)[0] == s[0]);
        assert((s + w).drop_first() =~= s.drop_first() + w);
        lemma_trim_space_suffix(s.drop_first(), w);
    } else {
        assert((s + w)[0] == s[0]);
        lemma_trim_end_space_suffix(s, w);
    }
}

/// Whitespace before and after a statement does not change what it parses
/// to, nor the error it gives.
pub proof fn law_surrounding_whitespace(before: Seq<char>, s: Seq<char>, after: Seq<char>)
    requires
        all_space(before),
        all_space(after),
    ensures
        parse_spec(before + s + after) == parse_spec(s),
{
    assert(before + s + after =~= before + (s + after));
    lemma_trim_start_space_prefix(before, s + after);
    lemma_trim_space_suffix(s, after);
    assert(trim(before + s + after) == trim(s));
    assert(prepare(before + s + after) == prepare(s));
}

// ---------------------------------------------------------------------------
// Displayed integers read back
// ---------------------------------------------------------------------------

/// Every character of `s` is an ASCII digit.
pub open spec fn all_digits(s: Seq<char>) -> bool {
    forall|i: int| 0 <= i < s.len() ==> is_digit_spec(#[trigger] s[i])
}

pub(crate) proof fn lemma_digits_of(n: nat)
    ensures
        digits_of(n).len() > 0,
        all_digits(digits_of(n)),
        numeral_value(digits_of(n)) == n,
    decreases n,
{
    let c = digit_char((n % 10) as int);
    assert(digit_value(c) == n % 10);
    if n >= 10 {
        lemma_digits_of(n / 10);
        let d = digits_of(n / 10);
        assert(digits_of(n) == d.push(c));
        assert(d.push(c).drop_last() =~= d);
        assert(d.push(c).last() == c);
        assert(numeral_value(d.push(c)) == numeral_value(d) * 10 + digit_value(c));
        assert(n == (n / 10) * 10 + n % 10);
        assert forall|i: int| 0 <= i < d.push(c).len() implies is_digit_spec(#[trigger] d.push(c)[i]) by {
            if i < d.len() {
                assert(d.push(c)[i] == d[i]);
            }
        }
    } else {
        assert(seq![c].drop_last() =~= Seq::<char>::empty());
        assert(seq![c].last() == c);
        assert(numeral_value(seq![c]) == numeral_value(Seq::<char>::empty()) * 10 + digit_value(c));
    }
}

proof fn lemma_digit_run_all(s: Seq<char>)
    requires
        all_digits(s),
    ensures
        digit_run(s) == s.len(),
    decreases s.len(),
{
    if s.len() > 0 {
        assert(is_digit_spec(s[0]));
        assert forall|i: int| 0 <= i < s.drop_first().len() implies is_digit_spec(
            #[trigger] s.drop_first()[i],
        ) by {
            assert(s.drop_first()[i] == s[i + 1]);
        }
        lemma_digit_run_all(s.drop_first());
    }
}

/// The text of a non-negative integer value, read as a statement's tokens,
/// is that integer: `Value::to_text` and the tokenizer agree.
pub proof fn law_integer_text_reads_back(n: i64)
    requires
        n >= 0,
    ensures
        lex(value_text(ValueView::Int(n))) == Ok::<Seq<TokenView>, Seq<char>>(
            seq![TokenView::IntLit(n)],
        ),
{
    let d = digits_of(n as nat);
    assert(value_text(ValueView::Int(n)) == d);
    lemma_digits_of(n as nat);
    lemma_digit_run_all(d);
    assert(is_digit_spec(d[0]));
    assert(d.take(d.len() as int) =~= d);
    assert(scan(d) == Ok::<(Option<TokenView>, nat), Seq<char>>(
        (Some(TokenView::IntLit(n)), d.len()),
    ));
    assert(d.skip(d.len() as int) =~= Seq::<char>::empty());
    assert(lex(d.skip(d.len() as int)) == Ok::<Seq<TokenView>, Seq<char>>(
        Seq::<TokenView>::empty(),
    ));
    assert(opt_prepend(Some(TokenView::IntLit(n)), Seq::<TokenView>::empty()) =~= seq![
        TokenView::IntLit(n),
    ]);
}

// ---------------------------------------------------------------------------
// Letter case
// ---------------------------------------------------------------------------

/// Keywords and type names are matched without regard to letter case: two
/// spellings that upper-case alike give the same keyword token, and name
/// the same column type.
pub proof fn law_keywords_ignore_case(w1: Seq<char>, w2: Seq<char>)
    requires
        upper_case(w1) == upper_case(w2),
    ensures
        is_keyword(upper_case(w1)) ==> word_token(w1, upper_case(w1)) == word_token(
            w2,
            upper_case(w2),
        ),
        type_named(w1) is Ok ==> type_named(w1) == type_named(w2),
{
}

// ---------------------------------------------------------------------------
// What a parsed command holds
// ---------------------------------------------------------------------------

/// `w` is a name: it starts with a letter or `_`, goes on with letters,
/// digits or `_`, and is not a reserved word in any letter case.
pub open spec fn is_name(w: Seq<char>) -> bool {
    &&& w.len() > 0
    &&& word_start(w[0])
    &&& forall|i: int| 1 <= i < w.len() ==> word_char(#[trigger] w[i])
    &&& !is_keyword(upper_case(w))
}

/// A token as the tokenizer makes it: a keyword is a reserved word, a name
/// is a name, an integer is not negative.
pub open spec fn token_wf(t: TokenView) -> bool {
    match t {
        TokenView::Keyword(k) => is_keyword(k),
        TokenView::Ident(w) => is_name(w),
        TokenView::IntLit(n) => n >= 0,
        _ => true,
    }
}

/// Every token of `ts` is as the tokenizer makes it.
pub open spec fn all_wf(ts: Seq<TokenView>) -> bool {
    forall|i: int| 0 <= i < ts.len() ==> token_wf(#[trigger] ts[i])
}

/// A value as a statement can write it: integers are not negative.
pub open spec fn value_wf(v: ValueView) -> bool {
    v matches ValueView::Int(n) ==> n >= 0
}

/// A `WHERE` condition as a statement can write it.
pub open spec fn condition_wf(c: ConditionView) -> bool {
    is_name(c.0) && value_wf(c.2)
}

/// A command as a statement can state it: every table and column it names
/// is a name, every integer in it is non-negative, and a column list of a
/// `SELECT` is never empty.
pub open spec fn command_wf(c: CommandView) -> bool {
    match c {
        CommandView::CreateTable { name, columns } => is_name(name) && forall|i: int|
            0 <= i < columns.len() ==> is_name(#[trigger] columns[i].name),
        CommandView::Insert { table, values } => is_name(table) && forall|i: int|
            0 <= i < values.len() ==> value_wf(#[trigger] values[i]),
        CommandView::Select { table, columns, where_clause } => {
            &&& is_name(table)
            &&& columns matches Some(cs) ==> cs.len() > 0 && forall|i: int|
                0 <= i < cs.len() ==> is_name(#[trigger] cs[i])
            &&& where_clause matches Some(w) ==> condition_wf(w)
        },
        CommandView::Delete { table, where_clause } => is_name(table) && (
        where_clause matches Some(w) ==> condition_wf(w)),
        CommandView::Exit => true,
    }
}

proof fn lemma_word_run_chars(t: Seq<char>)
    ensures
        word_run(t) <= t.len(),
        forall|j: int| 0 <= j < word_run(t) ==> word_char(#[trigger] t[j]),
    decreases t.len(),
{
    if t.len() > 0 && word_char(t[0]) {
        lemma_word_run_chars(t.drop_first());
        assert forall|j: int| 0 <= j < word_run(t) implies word_char(#[trigger] t[j]) by {
            if j > 0 {
                assert(t[j] == t.drop_first()[j - 1]);
            }
        }
    }
}

proof fn lemma_scan_wf(s: Seq<char>)
    requires
        s.len() > 0,
    ensures
        scan(s) matches Ok((Some(t), _)) ==> token_wf(t),
{
    let c = s[0];
    if !is_space_spec(c) && c != ',' && c != '(' && c != ')' && c != '*' && c != '=' && c != '!'
        && c != '>' && c != '<' && c != '\'' && c != '-' && !is_digit_spec(c) && word_start(c) {
        let t = s.drop_first();
        lemma_word_run_chars(t);
        let w = s.take((1 + word_run(t)) as int);
        assert(w[0] == c);
        assert forall|i: int| 1 <= i < w.len() implies word_char(#[trigger] w[i]) by {
            assert(w[i] == t[i - 1]);
        }
    }
}

proof fn lemma_lex_wf(s: Seq<char>)
    ensures
        lex(s) matches Ok(ts) ==> all_wf(ts),
    decreases s.len(),
{
    if s.len() > 0 {
        lemma_scan_wf(s);
        match scan(s) {
            Err(_) => {},
            Ok((t, n)) => {
                if 0 < n <= s.len() {
                    lemma_lex_wf(s.skip(n as int));
                    match lex(s.skip(n as int)) {
                        Err(_) => {},
                        Ok(rest) => {
                            let ts = opt_prepend(t, rest);
                            assert forall|i: int| 0 <= i < ts.len() implies token_wf(
                                #[trigger] ts[i],
                            ) by {
                                match t {
                                    Some(x) => {
                                        if i > 0 {
                                            assert(ts[i] == rest[i - 1]);
                                        }
                                    },
                                    None => {},
                                }
                            }
                        },
                    }
                }
            },
        }
    }
}

proof fn lemma_all_wf_subrange(ts: Seq<TokenView>, a: int, b: int)
    requires
        all_wf(ts),
        0 <= a <= b <= ts.len(),
    ensures
        all_wf(ts.subrange(a, b)),
{
    assert forall|i: int| 0 <= i < ts.subrange(a, b).len() implies token_wf(
        #[trigger] ts.subrange(a, b)[i],
    ) by {
        assert(ts.subrange(a, b)[i] == ts[a + i]);
    }
}

proof fn lemma_condition_wf(ts: Seq<TokenView>)
    requires
        ts.len() == 3,
        all_wf(ts),
    ensures
        condition(ts) matches Ok(w) ==> condition_wf(w),
{
    assert(token_wf(ts[0]));
    assert(token_wf(ts[2]));
}

proof fn lemma_column_defs_wf(ts: Seq<TokenView>)
    requires
        all_wf(ts),
    ensures
        column_defs(ts) matches Ok(cs) ==> forall|i: int|
            0 <= i < cs.len() ==> is_name(#[trigger] cs[i].name),
    decreases ts.len(),
{
    if ts.len() >= 2 {
        assert(token_wf(ts[0]));
        let rest = if ts.len() > 2 && ts[2] == TokenView::Comma {
            ts.skip(3)
        } else {
            ts.skip(2)
        };
        if ts.len() > 2 && ts[2] == TokenView::Comma {
            lemma_all_wf_subrange(ts, 3, ts.len() as int);
            assert(ts.skip(3) =~= ts.subrange(3, ts.len() as int));
        } else {
            lemma_all_wf_subrange(ts, 2, ts.len() as int);
            assert(ts.skip(2) =~= ts.subrange(2, ts.len() as int));
        }
        lemma_column_defs_wf(rest);
        match column_defs(ts) {
            Ok(cs) => {
                match column_defs(rest) {
                    Ok(more) => {
                        assert forall|i: int| 0 <= i < cs.len() implies is_name(
                            #[trigger] cs[i].name,
                        ) by {
                            if i > 0 {
                                assert(cs[i] == more[i - 1]);
                            }
                        }
                    },
                    Err(_) => {},
                }
            },
            Err(_) => {},
        }
    }
}

proof fn lemma_value_list_wf(ts: Seq<TokenView>)
    requires
        all_wf(ts),
    ensures
        value_list(ts) matches Ok(vs) ==> forall|i: int|
            0 <= i < vs.len() ==> value_wf(#[trigger] vs[i]),
    decreases ts.len(),
{
    if ts.len() > 0 {
        assert(token_wf(ts[0]));
        let rest = if ts.len() > 1 && ts[1] == TokenView::Comma {
            ts.skip(2)
        } else {
            ts.skip(1)
        };
        if ts.len() > 1 && ts[1] == TokenView::Comma {
            lemma_all_wf_subrange(ts, 2, ts.len() as int);
            assert(ts.skip(2) =~= ts.subrange(2, ts.len() as int));
        } else {
            lemma_all_wf_subrange(ts, 1, ts.len() as int);
            assert(ts.skip(1) =~= ts.subrange(1, ts.len() as int));
        }
        lemma_value_list_wf(rest);
        match value_list(ts) {
            Ok(vs) => {
                match value_list(rest) {
                    Ok(more) => {
                        assert forall|i: int| 0 <= i < vs.len() implies value_wf(
                            #[trigger] vs[i],
                        ) by {
                            if i > 0 {
                                assert(vs[i] == more[i - 1]);
                            }
                        }
                    },
                    Err(_) => {},
                }
            },
            Err(_) => {},
        }
    }
}

proof fn lemma_name_list_wf(ts: Seq<TokenView>)
    requires
        all_wf(ts),
    ensures
        name_list(ts) matches Ok((cs, _)) ==> forall|i: int|
            0 <= i < cs.len() ==> is_name(#[trigger] cs[i]),
    decreases ts.len(),
{
    if ts.len() > 0 {
        assert(token_wf(ts[0]));
        if ts.len() > 1 && ts[1] == TokenView::Comma {
            lemma_all_wf_subrange(ts, 2, ts.len() as int);
            assert(ts.skip(2) =~= ts.subrange(2, ts.len() as int));
            lemma_name_list_wf(ts.skip(2));
            match name_list(ts) {
                Ok((cs, _)) => {
                    match name_list(ts.skip(2)) {
                        Ok((more, _)) => {
                            assert forall|i: int| 0 <= i < cs.len() implies is_name(
                                #[trigger] cs[i],
                            ) by {
                                if i > 0 {
                                    assert(cs[i] == more[i - 1]);
                                }
                            }
                        },
                        Err(_) => {},
                    }
                },
                Err(_) => {},
            }
        }
    }
}

proof fn lemma_select_from_wf(ts: Seq<TokenView>, columns: Option<Seq<Seq<char>>>, p: int)
    requires
        all_wf(ts),
        0 <= p,
        columns matches Some(cs) ==> cs.len() > 0 && forall|i: int|
            0 <= i < cs.len() ==> is_name(#[trigger] cs[i]),
    ensures
        select_from(ts, columns, p) matches Ok(c) ==> command_wf(c),
{
    if 0 <= p && p + 1 < ts.len() {
        assert(token_wf(ts[p + 1]));
        let q = p + 2;
        if q + 3 < ts.len() {
            lemma_all_wf_subrange(ts, q + 1, q + 4);
            lemma_condition_wf(ts.subrange(q + 1, q + 4));
        }
    }
}

/// Every command that a statement parses to is well formed: the tables and
/// columns it names are names (a letter or `_`, then letters, digits or
/// `_`, never a reserved word), its integers are non-negative, and a
/// `SELECT` lists at least one column or `*`.
pub proof fn law_parsed_commands_are_well_formed(s: Seq<char>)
    ensures
        parse_spec(s) matches Ok(c) ==> command_wf(c),
{
    lemma_lex_wf(prepare(s));
    match lex(prepare(s)) {
        Err(_) => {},
        Ok(ts) => {
            if ts.len() > 0 {
                assert(token_wf(ts[0]));
                if ts.len() >= 3 {
                    assert(token_wf(ts[2]));
                }
                if ts.len() >= 7 {
                    lemma_all_wf_subrange(ts, 4, 7);
                    lemma_condition_wf(ts.subrange(4, 7));
                }
                if ts.len() >= 6 {
                    lemma_all_wf_subrange(ts, 4, ts.len() - 1);
                    lemma_column_defs_wf(ts.subrange(4, ts.len() - 1));
                    lemma_all_wf_subrange(ts, 5, ts.len() as int);
                    assert(ts.skip(5) =~= ts.subrange(5, ts.len() as int));
                    match crate::parser::find_rparen(ts.skip(5)) {
                        Some(k) => {
                            lemma_rparen_bound(ts.skip(5));
                            lemma_all_wf_subrange(ts, 5, 5 + k as int);
                            lemma_value_list_wf(ts.subrange(5, 5 + k as int));
                        },
                        None => {},
                    }
                }
                lemma_all_wf_subrange(ts, 1, ts.len() as int);
                assert(ts.skip(1) =~= ts.subrange(1, ts.len() as int));
                lemma_name_list_wf(ts.skip(1));
                lemma_select_from_wf(ts, None, 2);
                match name_list(ts.skip(1)) {
                    Ok((cs, n)) => {
                        if cs.len() > 0 {
                            lemma_select_from_wf(ts, Some(cs), 1 + n as int);
                        }
                    },
                    Err(_) => {},
                }
            }
        },
    }
}

proof fn lemma_rparen_bound(ts: Seq<TokenView>)
    ensures
        crate::parser::find_rparen(ts) matches Some(k) ==> k < ts.len(),
    decreases ts.len(),
{
    if ts.len() > 0 {
        lemma_rparen_bound(ts.drop_first());
    }
}

// ---------------------------------------------------------------------------
// The closing semicolon
// ---------------------------------------------------------------------------

/// No character of `w` is alphanumeric.
pub open spec fn none_alphanumeric(w: Seq<char>) -> bool {
    forall|i: int| 0 <= i < w.len() ==> !alphanumeric(#[trigger] w[i])
}

proof fn lemma_trim_start_push(s: Seq<char>, c: char)
    requires
        !is_space_spec(c),
    ensures
        trim_start(s.push(c)) == trim_start(s).push(c),
    decreases s.len(),
{
    if s.len() > 0 {
        assert(s.push(c)[0] == s[0]);
        if is_space_spec(s[0]) {
            assert(s.push(c).drop_first() =~= s.drop_first().push(c));
            lemma_trim_start_push(s.drop_first(), c);
        }
    } else {
        assert(s.push(c)[0] == c);
    }
}

proof fn lemma_trim_start_suffix(s: Seq<char>) -> (j: int)
    ensures
        0 <= j <= s.len(),
        trim_start(s) == s.skip(j),
    decreases s.len(),
{
    if s.len() > 0 && is_space_spec(s[0]) {
        let k = lemma_trim_start_suffix(s.drop_first());
        assert(s.drop_first().skip(k) =~= s.skip(k + 1));
        k + 1
    } else {
        assert(s.skip(0) =~= s);
        0
    }
}

proof fn lemma_trim_end_prefix(x: Seq<char>)
    ensures
        trim_end(x).len() <= x.len(),
        trim_end(x) == x.take(trim_end(x).len() as int),
        all_space(x.skip(trim_end(x).len() as int)),
        trim_end(x).len() == 0 || !is_space_spec(trim_end(x).last()),
    decreases x.len(),
{
    if x.len() > 0 && is_space_spec(x.last()) {
        lemma_trim_end_prefix(x.drop_last());
        let k = trim_end(x).len() as int;
        assert(x.drop_last().take(k) =~= x.take(k));
        assert forall|i: int| 0 <= i < x.skip(k).len() implies is_space_spec(
            #[trigger] x.skip(k)[i],
        ) by {
            if k + i < x.len() - 1 {
                assert(x.skip(k)[i] == x.drop_last().skip(k)[i]);
            }
        }
    } else {
        assert(x.take(x.len() as int) =~= x);
    }
}

proof fn lemma_quoted_body_space(w: Seq<char>)
    requires
        all_space(w),
    ensures
        quoted_body(w) is None,
    decreases w.len(),
{
    if w.len() > 0 {
        assert(is_space_spec(w[0]));
        assert forall|i: int| 0 <= i < w.drop_first().len() implies is_space_spec(
            #[trigger] w.drop_first()[i],
        ) by {
            assert(w.drop_first()[i] == w[i + 1]);
        }
        lemma_quoted_body_space(w.drop_first());
    }
}

proof fn lemma_quoted_body_space_suffix(t: Seq<char>, w: Seq<char>)
    requires
        all_space(w),
    ensures
        quoted_body(t + w) == quoted_body(t),
    decreases t.len(),
{
    if t.len() == 0 {
        assert(t + w =~= w);
        lemma_quoted_body_space(w);
    } else {
        let s = t + w;
        assert(s[0] == t[0]);
        if t.len() > 1 {
            assert(s[1] == t[1]);
        } else if w.len() > 0 {
            assert(s[1] == w[0]);
            assert(is_space_spec(w[0]));
        }
        if t[0] == '\'' {
            if t.len() > 1 && t[1] == '\'' {
                assert(s.skip(2) =~= t.skip(2) + w);
                lemma_quoted_body_space_suffix(t.skip(2), w);
            }
        } else {
            assert(s.drop_first() =~= t.drop_first() + w);
            lemma_quoted_body_space_suffix(t.drop_first(), w);
        }
    }
}

proof fn lemma_digit_run_space_suffix(t: Seq<char>, w: Seq<char>)
    requires
        all_space(w),
    ensures
        digit_run(t + w) == digit_run(t),
    decreases t.len(),
{
    if t.len() == 0 {
        assert(t + w =~= w);
        if w.len() > 0 {
            assert(is_space_spec(w[0]));
        }
    } else {
        assert((t + w)[0] == t[0]);
        assert((t + w).drop_first() =~= t.drop_first() + w);
        lemma_digit_run_space_suffix(t.drop_first(), w);
    }
}

proof fn lemma_word_run_space_suffix(t: Seq<char>, w: Seq<char>)
    requires
        all_space(w),
        none_alphanumeric(w),
    ensures
        word_run(t + w) == word_run(t),
    decreases t.len(),
{
    if t.len() == 0 {
        assert(t + w =~= w);
        if w.len() > 0 {
            assert(is_space_spec(w[0]));
            assert(!alphanumeric(w[0]));
        }
    } else {
        assert((t + w)[0] == t[0]);
        assert((t + w).drop_first() =~= t.drop_first() + w);
        lemma_word_run_space_suffix(t.drop_first(), w);
    }
}

proof fn lemma_lex_all_space(w: Seq<char>)
    requires
        all_space(w),
    ensures
        lex(w) == Ok::<Seq<TokenView>, Seq<char>>(Seq::<TokenView>::empty()),
    decreases w.len(),
{
    if w.len() > 0 {
        assert(is_space_spec(w[0]));
        assert forall|i: int| 0 <= i < w.skip(1).len() implies is_space_spec(
            #[trigger] w.skip(1)[i],
        ) by {
            assert(w.skip(1)[i] == w[i + 1]);
        }
        lemma_lex_all_space(w.skip(1));
    }
}

proof fn lemma_scan_space_suffix(y: Seq<char>, w: Seq<char>)
    requires
        y.len() > 0,
        all_space(w),
        none_alphanumeric(w),
    ensures
        scan(y + w) == scan(y),
{
    let s = y + w;
    assert(s[0] == y[0]);
    if y.len() > 1 {
        assert(s[1] == y[1]);
    } else if w.len() > 0 {
        assert(s[1] == w[0]);
        assert(is_space_spec(w[0]));
    }
    assert(s.drop_first() =~= y.drop_first() + w);
    lemma_quoted_body_space_suffix(y.drop_first(), w);
    lemma_digit_run_space_suffix(y, w);
    crate::lexer::lemma_digit_run_bound(y);
    assert(s.take(digit_run(y) as int) =~= y.take(digit_run(y) as int));
    lemma_word_run_space_suffix(y.drop_first(), w);
    crate::lexer::lemma_word_run_bound(y.drop_first());
    let k = (1 + word_run(y.drop_first())) as int;
    assert(s.take(k) =~= y.take(k));
}

proof fn lemma_lex_space_suffix(y: Seq<char>, w: Seq<char>)
    requires
        all_space(w),
        none_alphanumeric(w),
        y.len() == 0 || !is_space_spec(y.last()),
    ensures
        lex(y + w) == lex(y),
    decreases y.len(),
{
    if y.len() == 0 {
        assert(y + w =~= w);
        lemma_lex_all_space(w);
    } else {
        let s = y + w;
        lemma_scan_space_suffix(y, w);
        lemma_scan_progress(y);
        lemma_scan_progress(s);
        match scan(y) {
            Err(_) => {},
            Ok((t, n)) => {
                assert(s.skip(n as int) =~= y.skip(n as int) + w);
                if n < y.len() {
                    assert(y.skip(n as int).last() == y.last());
                }
                lemma_lex_space_suffix(y.skip(n as int), w);
            },
        }
    }
}

/// A statement parses the same with one `;` at its end as without it — as
/// long as its trimmed text does not already end with `;` (then the one `;`
/// dropped is that one). The condition that no whitespace character of the
/// statement is alphanumeric holds of every text in Unicode; it is stated
/// because the character classes come from std's tables, which are named,
/// not stated, here.
pub proof fn law_closing_semicolon_optional(s: Seq<char>)
    requires
        !(trim(s).len() > 0 && trim(s).last() == ';'),
        forall|i: int| 0 <= i < s.len() && is_space_spec(s[i]) ==> !alphanumeric(#[trigger] s[i]),
    ensures
        parse_spec(s.push(';')) == parse_spec(s),
{
    let ts = trim_start(s);
    lemma_trim_start_push(s, ';');
    assert(trim(s.push(';')) == ts.push(';'));
    assert(ts.push(';').drop_last() =~= ts);
    assert(prepare(s.push(';')) == ts);
    let y = trim_end(ts);
    assert(prepare(s) == y);
    lemma_trim_end_prefix(ts);
    let k = y.len() as int;
    let w = ts.skip(k);
    assert(ts =~= y + w);
    let j = lemma_trim_start_suffix(s);
    assert forall|i: int| 0 <= i < w.len() implies !alphanumeric(#[trigger] w[i]) by {
        assert(w[i] == s[j + k + i]);
        assert(is_space_spec(w[i]));
    }
    lemma_lex_space_suffix(y, w);
}

// ---------------------------------------------------------------------------
// Quoted texts
// ---------------------------------------------------------------------------

/// `s` with each quote doubled, as a text is written inside a quoted
/// literal.
pub open spec fn escaped(s: Seq<char>) -> Seq<char>
    decreases s.len(),
{
    if s.len() == 0 {
        Seq::<char>::empty()
    } else if s[0] == '\'' {
        seq!['\'', '\''] + escaped(s.drop_first())
    } else {
        seq![s[0]] + escaped(s.drop_first())
    }
}

/// The quoted literal that writes `s`.
pub open spec fn quoted(s: Seq<char>) -> Seq<char> {
    seq!['\''] + escaped(s) + seq!['\'']
}

proof fn lemma_quoted_body_escaped(s: Seq<char>)
    ensures
        quoted_body(escaped(s) + seq!['\'']) == Some((s, escaped(s).len() + 1)),
    decreases s.len(),
{
    let t = escaped(s) + seq!['\''];
    if s.len() == 0 {
        assert(t =~= seq!['\'']);
    } else {
        let rest = escaped(s.drop_first()) + seq!['\''];
        lemma_quoted_body_escaped(s.drop_first());
        if s[0] == '\'' {
            assert(t =~= seq!['\'', '\''] + rest);
            assert(t.skip(2) =~= rest);
            assert(seq!['\''] + s.drop_first() =~= s);
        } else {
            assert(t =~= seq![s[0]] + rest);
            assert(t.drop_first() =~= rest);
            assert(seq![s[0]] + s.drop_first() =~= s);
        }
    }
}

/// Every text can be written as a quoted literal by doubling its quotes:
/// the tokenizer reads that literal back as exactly that text.
pub proof fn law_quoted_text_reads_back(s: Seq<char>)
    ensures
        lex(quoted(s)) == Ok::<Seq<TokenView>, Seq<char>>(seq![TokenView::StrLit(s)]),
{
    let q = quoted(s);
    lemma_quoted_body_escaped(s);
    assert(q[0] == '\'');
    assert(q.drop_first() =~= escaped(s) + seq!['\'']);
    assert(scan(q) == Ok::<(Option<TokenView>, nat), Seq<char>>(
        (Some(TokenView::StrLit(s)), q.len()),
    ));
    assert(q.skip(q.len() as int) =~= Seq::<char>::empty());
    assert(lex(q.skip(q.len() as int)) == Ok::<Seq<TokenView>, Seq<char>>(
        Seq::<TokenView>::empty(),
    ));
    assert(opt_prepend(Some(TokenView::StrLit(s)), Seq::<TokenView>::empty()) =~= seq![
        TokenView::StrLit(s),
    ]);
}

// ---------------------------------------------------------------------------
// Whitespace around the tokens
// ---------------------------------------------------------------------------

proof fn lemma_lex_space_prefix(w: Seq<char>, x: Seq<char>)
    requires
        all_space(w),
    ensures
        lex(w + x) == lex(x),
    decreases w.len(),
{
    if w.len() == 0 {
        assert(w + x =~= x);
    } else {
        let s = w + x;
        assert(s[0] == w[0]);
        assert(is_space_spec(w[0]));
        assert(s.skip(1) =~= w.skip(1) + x);
        assert forall|i: int| 0 <= i < w.skip(1).len() implies is_space_spec(
            #[trigger] w.skip(1)[i],
        ) by {
            assert(w.skip(1)[i] == w[i + 1]);
        }
        lemma_lex_space_prefix(w.skip(1), x);
    }
}

/// Whitespace before and after a text does not change its tokens, nor the
/// error the tokenizer gives. The condition that the whitespace characters
/// are not alphanumeric holds of every text in Unicode; it is stated because
/// the character classes come from std's tables, which are named, not
/// stated, here.
pub proof fn law_lex_surrounding_whitespace(before: Seq<char>, s: Seq<char>, after: Seq<char>)
    requires
        all_space(before),
        all_space(after),
        none_alphanumeric(after),
        forall|i: int| 0 <= i < s.len() && is_space_spec(s[i]) ==> !alphanumeric(#[trigger] s[i]),
    ensures
        lex(before + s + after) == lex(s),
{
    assert(before + s + after =~= before + (s + after));
    lemma_lex_space_prefix(before, s + after);
    let y = trim_end(s);
    lemma_trim_end_prefix(s);
    let k = y.len() as int;
    let w1 = s.skip(k);
    assert(s =~= y + w1);
    assert forall|i: int| 0 <= i < w1.len() implies !alphanumeric(#[trigger] w1[i]) by {
        assert(w1[i] == s[k + i]);
        assert(is_space_spec(w1[i]));
    }
    let w2 = w1 + after;
    assert forall|i: int| 0 <= i < w2.len() implies is_space_spec(#[trigger] w2[i]) by {
        if i < w1.len() {
            assert(w2[i] == w1[i]);
        } else {
            assert(w2[i] == after[i - w1.len()]);
        }
    }
    assert forall|i: int| 0 <= i < w2.len() implies !alphanumeric(#[trigger] w2[i]) by {
        if i < w1.len() {
            assert(w2[i] == w1[i]);
        } else {
            assert(w2[i] == after[i - w1.len()]);
        }
    }
    assert(s + after =~= y + w2);
    lemma_lex_space_suffix(y, w2);
    lemma_lex_space_suffix(y, w1);
}

// ---------------------------------------------------------------------------
// Laws applied where their conditions are tested
// ---------------------------------------------------------------------------

/// What [`law_closing_semicolon_optional`] asks of a statement.
pub open spec fn semicolon_law_holds_for(s: Seq<char>) -> bool {
    &&& !(trim(s).len() > 0 && trim(s).last() == ';')
    &&& forall|i: int| 0 <= i < s.len() && is_space_spec(s[i]) ==> !alphanumeric(#[trigger] s[i])
}

/// Tests whether `input` meets the conditions of
/// [`law_closing_semicolon_optional`]; where it does, `input` and `input`
/// followed by `;` parse alike.
pub fn closing_semicolon_optional(input: &str) -> (r: bool)
    ensures
        r == semicolon_law_holds_for(input@),
        r ==> parse_spec(input@.push(';')) == parse_spec(input@),
{
    let chars = chars_of(input);
    let (lo, hi) = trim_bounds(&chars);
    if hi > lo && chars[hi - 1] == ';' {
        assert(trim(input@).last() == chars@[hi - 1]);
        return false;
    }
    let n = chars.len();
    let mut i: usize = 0;
    while i < n
        invariant
            n == chars@.len(),
            chars@ == input@,
            i <= n,
            forall|k: int|
                0 <= k < i && is_space_spec(input@[k]) ==> !alphanumeric(#[trigger] input@[k]),
        decreases n - i,
    {
        let c = chars[i];
        if is_space(c) && is_alphanumeric(c) {
            return false;
        }
        i += 1;
    }
    proof {
        law_closing_semicolon_optional(input@);
    }
    true
}

/// Tests whether `w1` and `w2` upper-case alike; where they do, they give
/// the same keyword token (when that is a keyword) and name the same column
/// type (when that is one), as [`law_keywords_ignore_case`] states.
pub fn same_upper_case(w1: &str, w2: &str) -> (r: bool)
    ensures
        r == (upper_case(w1@) == upper_case(w2@)),
        r ==> (is_keyword(upper_case(w1@)) ==> word_token(w1@, upper_case(w1@)) == word_token(
            w2@,
            upper_case(w2@),
        )),
        r ==> (type_named(w1@) is Ok ==> type_named(w1@) == type_named(w2@)),
{
    let u1 = to_upper(w1);
    let u2 = to_upper(w2);
    let r = text_eq(u1.as_str(), u2.as_str());
    if r {
        proof {
            law_keywords_ignore_case(w1@, w2@);
        }
    }
    r
}

// ---------------------------------------------------------------------------
// DELETE and SELECT agree on their WHERE clause
// ---------------------------------------------------------------------------

/// `DELETE FROM t ...` and `SELECT * FROM t ...` with the same tokens after
/// the table name both succeed or both fail, and when they succeed they hold
/// the same table and the same `WHERE` clause.
pub proof fn law_delete_where_matches_select(t: Seq<char>, w: Seq<TokenView>)
    ensures
        ({
            let d = seq![
                TokenView::Keyword("DELETE"@),
                TokenView::Keyword("FROM"@),
                TokenView::Ident(t),
            ] + w;
            let q = seq![
                TokenView::Keyword("SELECT"@),
                TokenView::Star,
                TokenView::Keyword("FROM"@),
                TokenView::Ident(t),
            ] + w;
            &&& (delete_spec(d) is Ok <==> select_spec(q) is Ok)
            &&& match (delete_spec(d), select_spec(q)) {
                (
                    Ok(CommandView::Delete { table: t1, where_clause: w1 }),
                    Ok(CommandView::Select { table: t2, columns: c2, where_clause: w2 }),
                ) => t1 == t && t2 == t && c2 is None && w1 == w2,
                (Ok(_), _) => false,
                (_, Ok(_)) => false,
                _ => true,
            }
        }),
{
    let d = seq![TokenView::Keyword("DELETE"@), TokenView::Keyword("FROM"@), TokenView::Ident(t)]
        + w;
    let q = seq![
        TokenView::Keyword("SELECT"@),
        TokenView::Star,
        TokenView::Keyword("FROM"@),
        TokenView::Ident(t),
    ] + w;
    assert(d[1] == TokenView::Keyword("FROM"@));
    assert(d[2] == TokenView::Ident(t));
    assert(q[1] == TokenView::Star);
    assert(q[2] == TokenView::Keyword("FROM"@));
    assert(q[3] == TokenView::Ident(t));
    assert(select_spec(q) == select_from(q, None, 2));
    if w.len() > 0 {
        assert(d[3] == w[0]);
        assert(q[4] == w[0]);
        if w.len() >= 4 {
            assert(d.subrange(4, 7) =~= w.subrange(1, 4));
            assert(q.subrange(5, 8) =~= w.subrange(1, 4));
        }
    }
}

// ---------------------------------------------------------------------------
// The whitespace law on tokens, applied where its conditions are tested
// ---------------------------------------------------------------------------

/// No whitespace character of `s` is alphanumeric.
pub open spec fn spaces_not_alphanumeric(s: Seq<char>) -> bool {
    forall|i: int| 0 <= i < s.len() && is_space_spec(s[i]) ==> !alphanumeric(#[trigger] s[i])
}

/// What [`law_lex_surrounding_whitespace`] asks of its texts.
pub open spec fn lex_whitespace_law_holds_for(
    before: Seq<char>,
    s: Seq<char>,
    after: Seq<char>,
) -> bool {
    &&& all_space(before)
    &&& all_space(after)
    &&& none_alphanumeric(after)
    &&& spaces_not_alphanumeric(s)
}

fn all_space_chars(v: &Vec<char>) -> (r: bool)
    ensures
        r == all_space(v@),
{
    let n = v.len();
    let mut i: usize = 0;
    while i < n
        invariant
            n == v@.len(),
            i <= n,
            forall|k: int| 0 <= k < i ==> is_space_spec(#[trigger] v@[k]),
        decreases n - i,
    {
        if !is_space(v[i]) {
            return false;
        }
        i += 1;
    }
    true
}

fn spaces_not_alphanumeric_chars(v: &Vec<char>) -> (r: bool)
    ensures
        r == spaces_not_alphanumeric(v@),
{
    let n = v.len();
    let mut i: usize = 0;
    while i < n
        invariant
            n == v@.len(),
            i <= n,
            forall|k: int| 0 <= k < i && is_space_spec(v@[k]) ==> !alphanumeric(#[trigger] v@[k]),
        decreases n - i,
    {
        let c = v[i];
        if is_space(c) && is_alphanumeric(c) {
            return false;
        }
        i += 1;
    }
    true
}

/// Tests whether `before`, `s` and `after` meet the conditions of
/// [`law_lex_surrounding_whitespace`]; where they do, `s` with `before` in
/// front and `after` behind has the same tokens, or the same error, as `s`.
pub fn whitespace_around_is_inert(before: &str, s: &str, after: &str) -> (r: bool)
    ensures
        r == lex_whitespace_law_holds_for(before@, s@, after@),
        r ==> lex(before@ + s@ + after@) == lex(s@),
{
    let b = chars_of(before);
    let m = chars_of(s);
    let a = chars_of(after);
    let r = all_space_chars(&b) && all_space_chars(&a) && spaces_not_alphanumeric_chars(&m)
        && spaces_not_alphanumeric_chars(&a);
    proof {
        if all_space(after@) {
            assert(none_alphanumeric(after@) == spaces_not_alphanumeric(after@));
        }
        if r {
            law_lex_surrounding_whitespace(before@, s@, after@);
        }
    }
    r
}

} // verus!
