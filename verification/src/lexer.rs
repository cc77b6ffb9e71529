//! The tokenizer: from the characters of a statement to its tokens.
use crate::text::{
    alphabetic, alphanumeric, debug_quoted, debug_text, int_text, is_alphabetic, is_alphanumeric,
    is_digit, is_digit_spec, is_space, is_space_spec, numeral_value, push_char, text,
    text_eq, text_from, to_upper, upper_case, decimal,
};
use vstd::prelude::*;

verus! {

/// A token of the query language.
#[derive(Debug, Clone)]
pub enum Token {
    /// A reserved word, upper-cased.
    Keyword(String),
    /// A name: of a table or of a column.
    Ident(String),
    /// A quoted text, with its doubled quotes undone.
    StrLit(String),
    /// A non-negative decimal integer.
    IntLit(i64),
    Star,
    Comma,
    LParen,
    RParen,
    Eq,
    /// `!=` or `<>`.
    Neq,
    Gt,
    Lt,
    Gte,
    Lte,
}

/// The view of a [`Token`].
pub enum TokenView {
    Keyword(Seq<char>),
    Ident(Seq<char>),
    StrLit(Seq<char>),
    IntLit(i64),
    Star,
    Comma,
    LParen,
    RParen,
    Eq,
    Neq,
    Gt,
    Lt,
    Gte,
    Lte,
}

impl View for Token {
    type V = TokenView;

    open spec fn view(&self) -> TokenView {
        match self {
            Token::Keyword(s) => TokenView::Keyword(s@),
            Token::Ident(s) => TokenView::Ident(s@),
            Token::StrLit(s) => TokenView::StrLit(s@),
            Token::IntLit(n) => TokenView::IntLit(*n),
            Token::Star => TokenView::Star,
            Token::Comma => TokenView::Comma,
            Token::LParen => TokenView::LParen,
            Token::RParen => TokenView::RParen,
            Token::Eq => TokenView::Eq,
            Token::Neq => TokenView::Neq,
            Token::Gt => TokenView::Gt,
            Token::Lt => TokenView::Lt,
            Token::Gte => TokenView::Gte,
            Token::Lte => TokenView::Lte,
        }
    }
}

/// The view of a list of tokens.
pub open spec fn tokens_view(v: Seq<Token>) -> Seq<TokenView> {
    v.map_values(|t: Token| t@)
}

/// The `Debug` text of a token, as error messages quote it.
pub open spec fn token_debug(t: TokenView) -> Seq<char> {
    match t {
        TokenView::Keyword(s) => "Keyword("@ + debug_quoted(s) + ")"@,
        TokenView::Ident(s) => "Ident("@ + debug_quoted(s) + ")"@,
        TokenView::StrLit(s) => "StrLit("@ + debug_quoted(s) + ")"@,
        TokenView::IntLit(n) => "IntLit("@ + decimal(n as int) + ")"@,
        TokenView::Star => "Star"@,
        TokenView::Comma => "Comma"@,
        TokenView::LParen => "LParen"@,
        TokenView::RParen => "RParen"@,
        TokenView::Eq => "Eq"@,
        TokenView::Neq => "Neq"@,
        TokenView::Gt => "Gt"@,
        TokenView::Lt => "Lt"@,
        TokenView::Gte => "Gte"@,
        TokenView::Lte => "Lte"@,
    }
}

fn wrapped(name: &str, inner: String) -> (r: String)
    ensures
        r@ == name@ + inner@ + ")"@,
{
    let mut m = text(name);
    m.append(inner.as_str());
    m.append(")");
    m
}

/// The `Debug` text of a token.
pub fn debug_token(t: &Token) -> (r: String)
    ensures
        r@ == token_debug(t@),
{
    match t {
        Token::Keyword(s) => wrapped("Keyword(", debug_text(s.as_str())),
        Token::Ident(s) => wrapped("Ident(", debug_text(s.as_str())),
        Token::StrLit(s) => wrapped("StrLit(", debug_text(s.as_str())),
        Token::IntLit(n) => wrapped("IntLit(", int_text(*n)),
        Token::Star => text("Star"),
        Token::Comma => text("Comma"),
        Token::LParen => text("LParen"),
        Token::RParen => text("RParen"),
        Token::Eq => text("Eq"),
        Token::Neq => text("Neq"),
        Token::Gt => text("Gt"),
        Token::Lt => text("Lt"),
        Token::Gte => text("Gte"),
        Token::Lte => text("Lte"),
    }
}

/// `t` is the keyword `s`.
pub open spec fn kw_spec(t: TokenView, s: Seq<char>) -> bool {
    t matches TokenView::Keyword(k) && k == s
}

/// Whether `t` is the keyword `s`.
pub fn kw(t: &Token, s: &str) -> (r: bool)
    ensures
        r == kw_spec(t@, s@),
{
    match t {
        Token::Keyword(k) => text_eq(k.as_str(), s),
        _ => false,
    }
}

// ---------------------------------------------------------------------------
// Words
// ---------------------------------------------------------------------------

/// `s` is one of the reserved words (in upper case).
pub open spec fn is_keyword(s: Seq<char>) -> bool {
    ||| s == "CREATE"@
    ||| s == "TABLE"@
    ||| s == "INSERT"@
    ||| s == "INTO"@
    ||| s == "VALUES"@
    ||| s == "SELECT"@
    ||| s == "FROM"@
    ||| s == "WHERE"@
    ||| s == "DELETE"@
    ||| s == "TEXT"@
    ||| s == "INT"@
    ||| s == "INTEGER"@
    ||| s == "AND"@
    ||| s == "OR"@
    ||| s == "SET"@
    ||| s == "EXIT"@
    ||| s == "QUIT"@
}

/// Whether `s` is one of the reserved words (in upper case).
pub fn is_keyword_text(s: &str) -> (r: bool)
    ensures
        r == is_keyword(s@),
{
    text_eq(s, "CREATE") || text_eq(s, "TABLE") || text_eq(s, "INSERT") || text_eq(s, "INTO")
        || text_eq(s, "VALUES") || text_eq(s, "SELECT") || text_eq(s, "FROM") || text_eq(
        s,
        "WHERE",
    ) || text_eq(s, "DELETE") || text_eq(s, "TEXT") || text_eq(s, "INT") || text_eq(
        s,
        "INTEGER",
    ) || text_eq(s, "AND") || text_eq(s, "OR") || text_eq(s, "SET") || text_eq(s, "EXIT")
        || text_eq(s, "QUIT")
}

/// The token of a word whose upper-cased form is `upper`: the keyword
/// `upper` when that is a reserved word, else the name `word` as written.
pub open spec fn word_token(word: Seq<char>, upper: Seq<char>) -> TokenView {
    if is_keyword(upper) {
        TokenView::Keyword(upper)
    } else {
        TokenView::Ident(word)
    }
}

/// The token of `word`, given its upper-cased form `upper`.
pub fn keyword_or_ident(word: String, upper: String) -> (t: Token)
    ensures
        t@ == word_token(word@, upper@),
{
    if is_keyword_text(upper.as_str()) {
        Token::Keyword(upper)
    } else {
        Token::Ident(word)
    }
}

/// `c` may continue a word.
pub open spec fn word_char(c: char) -> bool {
    alphanumeric(c) || c == '_'
}

/// `c` may start a word.
pub open spec fn word_start(c: char) -> bool {
    alphabetic(c) || c == '_'
}

/// The number of leading characters of `s` that may continue a word.
pub open spec fn word_run(s: Seq<char>) -> nat
    decreases s.len(),
{
    if s.len() > 0 && word_char(s[0]) {
        1 + word_run(s.drop_first())
    } else {
        0
    }
}

/// The number of leading ASCII digits of `s`.
pub open spec fn digit_run(s: Seq<char>) -> nat
    decreases s.len(),
{
    if s.len() > 0 && is_digit_spec(s[0]) {
        1 + digit_run(s.drop_first())
    } else {
        0
    }
}

/// The body of a quoted text that starts right after its opening quote:
/// `Some((text, n))` when a closing quote ends it, where `n` counts the
/// characters read up to and with the closing quote and a doubled quote
/// stands for one quote; `None` when the input ends first.
pub open spec fn quoted_body(t: Seq<char>) -> Option<(Seq<char>, nat)>
    decreases t.len(),
{
    if t.len() == 0 {
        None
    } else if t[0] == '\'' {
        if t.len() > 1 && t[1] == '\'' {
            match quoted_body(t.skip(2)) {
                Some((b, n)) => Some((seq!['\''] + b, n + 2)),
                None => None,
            }
        } else {
            Some((Seq::<char>::empty(), 1))
        }
    } else {
        match quoted_body(t.drop_first()) {
            Some((b, n)) => Some((seq![t[0]] + b, n + 1)),
            None => None,
        }
    }
}

// ---------------------------------------------------------------------------
// The token grammar
// ---------------------------------------------------------------------------

/// The step of the tokenizer at the start of `s` (which is not empty): the
/// token read, if any (whitespace gives none), and the number of characters
/// read; or the error message.
pub open spec fn scan(s: Seq<char>) -> Result<(Option<TokenView>, nat), Seq<char>> {
    let c = s[0];
    if is_space_spec(c) {
        Ok((None, 1))
    } else if c == ',' {
        Ok((Some(TokenView::Comma), 1))
    } else if c == '(' {
        Ok((Some(TokenView::LParen), 1))
    } else if c == ')' {
        Ok((Some(TokenView::RParen), 1))
    } else if c == '*' {
        Ok((Some(TokenView::Star), 1))
    } else if c == '=' {
        Ok((Some(TokenView::Eq), 1))
    } else if c == '!' {
        if s.len() > 1 && s[1] == '=' {
            Ok((Some(TokenView::Neq), 2))
        } else {
            Err("Expected '=' after '!'"@)
        }
    } else if c == '>' {
        if s.len() > 1 && s[1] == '=' {
            Ok((Some(TokenView::Gte), 2))
        } else {
            Ok((Some(TokenView::Gt), 1))
        }
    } else if c == '<' {
        if s.len() > 1 && s[1] == '=' {
            Ok((Some(TokenView::Lte), 2))
        } else if s.len() > 1 && s[1] == '>' {
            Ok((Some(TokenView::Neq), 2))
        } else {
            Ok((Some(TokenView::Lt), 1))
        }
    } else if c == '\'' {
        match quoted_body(s.drop_first()) {
            Some((b, n)) => Ok((Some(TokenView::StrLit(b)), n + 1)),
            None => Err("Unterminated string literal"@),
        }
    } else if c == '-' {
        Err("Invalid number: -"@)
    } else if is_digit_spec(c) {
        let d = s.take(digit_run(s) as int);
        if numeral_value(d) <= i64::MAX {
            Ok((Some(TokenView::IntLit(numeral_value(d) as i64)), digit_run(s)))
        } else {
            Err("Invalid number: "@ + d)
        }
    } else if word_start(c) {
        let w = s.take((1 + word_run(s.drop_first())) as int);
        Ok((Some(word_token(w, upper_case(w))), 1 + word_run(s.drop_first())))
    } else {
        Err("Unexpected character: '"@.push(c) + "'"@)
    }
}

/// `ts` with `t` in front, when there is a `t`.
pub open spec fn opt_prepend(t: Option<TokenView>, ts: Seq<TokenView>) -> Seq<TokenView> {
    match t {
        Some(x) => seq![x] + ts,
        None => ts,
    }
}

/// The tokens of `s`, read left to right; the first error stops it.
pub open spec fn lex(s: Seq<char>) -> Result<Seq<TokenView>, Seq<char>>
    decreases s.len(),
{
    if s.len() == 0 {
        Ok(Seq::<TokenView>::empty())
    } else {
        match scan(s) {
            Err(e) => Err(e),
            Ok((t, n)) => {
                if 0 < n <= s.len() {
                    match lex(s.skip(n as int)) {
                        Err(e) => Err(e),
                        Ok(ts) => Ok(opt_prepend(t, ts)),
                    }
                } else {
                    // never taken: each step reads at least one character and
                    // no more than there are (`lemma_scan_progress`)
                    Err(Seq::<char>::empty())
                }
            },
        }
    }
}

/// `r` with `p` in front of its tokens.
pub open spec fn after(p: Seq<TokenView>, r: Result<Seq<TokenView>, Seq<char>>) -> Result<
    Seq<TokenView>,
    Seq<char>,
> {
    match r {
        Ok(ts) => Ok(p + ts),
        Err(e) => Err(e),
    }
}

// ---------------------------------------------------------------------------
// Lemmas on the grammar
// ---------------------------------------------------------------------------

pub proof fn lemma_word_run_bound(s: Seq<char>)
    ensures
        word_run(s) <= s.len(),
    decreases s.len(),
{
    if s.len() > 0 && word_char(s[0]) {
        lemma_word_run_bound(s.drop_first());
    }
}

pub proof fn lemma_digit_run_bound(s: Seq<char>)
    ensures
        digit_run(s) <= s.len(),
    decreases s.len(),
{
    if s.len() > 0 && is_digit_spec(s[0]) {
        lemma_digit_run_bound(s.drop_first());
    }
}

pub proof fn lemma_quoted_body_bound(t: Seq<char>)
    ensures
        quoted_body(t) matches Some((_, n)) ==> 1 <= n <= t.len(),
    decreases t.len(),
{
    if t.len() > 0 {
        if t[0] == '\'' {
            if t.len() > 1 && t[1] == '\'' {
                lemma_quoted_body_bound(t.skip(2));
            }
        } else {
            lemma_quoted_body_bound(t.drop_first());
        }
    }
}

/// Each step of the tokenizer reads at least one character and no more than
/// there are.
pub proof fn lemma_scan_progress(s: Seq<char>)
    requires
        s.len() > 0,
    ensures
        scan(s) matches Ok((_, n)) ==> 0 < n <= s.len(),
{
    lemma_word_run_bound(s.drop_first());
    lemma_digit_run_bound(s);
    lemma_quoted_body_bound(s.drop_first());
    if is_digit_spec(s[0]) {
        assert(digit_run(s) >= 1);
    }
}

/// One step of the tokenizer, unfolded.
pub proof fn lemma_lex_step(s: Seq<char>)
    requires
        s.len() > 0,
    ensures
        lex(s) == (match scan(s) {
            Err(e) => Err(e),
            Ok((t, n)) => after(opt_prepend(t, Seq::<TokenView>::empty()), lex(s.skip(n as int))),
        }),
{
    lemma_scan_progress(s);
    match scan(s) {
        Err(e) => {},
        Ok((t, n)) => {
            match lex(s.skip(n as int)) {
                Err(e) => {},
                Ok(ts) => {
                    assert(opt_prepend(t, ts) =~= opt_prepend(t, Seq::<TokenView>::empty()) + ts);
                },
            }
        },
    }
}

// ---------------------------------------------------------------------------
// The tokenizer
// ---------------------------------------------------------------------------

/// Reads a quoted text whose body starts at `start`: its text and the number
/// of characters read with the closing quote, or `None` when it is not
/// closed.
fn read_quoted(chars: &Vec<char>, start: usize) -> (r: Option<(String, usize)>)
    requires
        start <= chars@.len(),
    ensures
        match r {
            Some((b, n)) => quoted_body(chars@.skip(start as int)) == Some((b@, n as nat)),
            None => quoted_body(chars@.skip(start as int)) is None,
        },
{
    let ghost s = chars@;
    let len = chars.len();
    let mut body = String::new();
    let mut j = start;
    while j < len
        invariant
            s == chars@,
            len == s.len(),
            start <= j <= len,
            quoted_body(s.skip(start as int)) == (match quoted_body(s.skip(j as int)) {
                Some((b, m)) => Some((body@ + b, ((j - start) + m) as nat)),
                None => None,
            }),
        decreases len - j,
    {
        let c = chars[j];
        assert(s.skip(j as int)[0] == c);
        if c == '\'' {
            if j + 1 < len && chars[j + 1] == '\'' {
                assert(s.skip(j as int)[1] == chars[j + 1]);
                assert(s.skip(j as int).skip(2) =~= s.skip(j + 2));
                let ghost old_body = body@;
                push_char(&mut body, '\'');
                proof {
                    match quoted_body(s.skip(j + 2)) {
                        Some((b, m)) => {
                            assert(old_body + (seq!['\''] + b) =~= body@ + b);
                        },
                        None => {},
                    }
                }
                j += 2;
            } else {
                proof {
                    if j + 1 < len {
                        assert(s.skip(j as int)[1] == chars[j + 1]);
                    }
                    assert(body@ + Seq::<char>::empty() =~= body@);
                }
                return Some((body, j - start + 1));
            }
        } else {
            assert(s.skip(j as int).drop_first() =~= s.skip(j + 1));
            let ghost old_body = body@;
            push_char(&mut body, c);
            proof {
                match quoted_body(s.skip(j + 1)) {
                    Some((b, m)) => {
                        assert(old_body + (seq![c] + b) =~= body@ + b);
                    },
                    None => {},
                }
            }
            j += 1;
        }
    }
    assert(s.skip(j as int).len() == 0);
    None
}

/// Reads the integer that starts at `i`, with a digit or a `-`. The digits
/// are read from `i` on; a `-` is never followed by them (it is not a
/// digit), so it always gives the error `Invalid number: -`, with nothing
/// read.
fn read_number(chars: &Vec<char>, i: usize) -> (r: Result<(Token, usize), String>)
    requires
        i < chars@.len(),
        is_digit_spec(chars@[i as int]) || chars@[i as int] == '-',
    ensures
        chars@[i as int] == '-' ==> (r matches Err(e) && e@ == "Invalid number: -"@),
        is_digit_spec(chars@[i as int]) ==> ({
            let s = chars@.skip(i as int);
            let d = s.take(digit_run(s) as int);
            match r {
                Ok((t, n)) => numeral_value(d) <= i64::MAX && t@ == TokenView::IntLit(
                    numeral_value(d) as i64,
                ) && n == digit_run(s),
                Err(e) => numeral_value(d) > i64::MAX && e@ == "Invalid number: "@ + d,
            }
        }),
{
    if chars[i] == '-' {
        return Err(text("Invalid number: -"));
    }
    let ghost s = chars@;
    let len = chars.len();
    let mut j = i;
    assert(s.skip(i as int) =~= s.skip(j as int));
    while j < len && is_digit(chars[j])
        invariant
            s == chars@,
            len == s.len(),
            i <= j <= len,
            digit_run(s.skip(i as int)) == (j - i) + digit_run(s.skip(j as int)),
            forall|k: int| i <= k < j ==> is_digit_spec(#[trigger] s[k]),
        decreases len - j,
    {
        assert(s.skip(j as int)[0] == s[j as int]);
        assert(s.skip(j as int).drop_first() =~= s.skip(j + 1));
        j += 1;
    }
    proof {
        if j < len {
            assert(s.skip(j as int)[0] == s[j as int]);
        }
        assert(s.skip(i as int).take((j - i) as int) =~= s.subrange(i as int, j as int));
    }
    let ghost d = s.subrange(i as int, j as int);
    let mut acc: u64 = 0;
    let mut over = false;
    let mut k = i;
    assert(s.subrange(i as int, i as int) =~= Seq::<char>::empty());
    while k < j
        invariant
            s == chars@,
            i <= k <= j <= len == s.len(),
            forall|m: int| i <= m < j ==> is_digit_spec(#[trigger] s[m]),
            !over ==> acc == numeral_value(s.subrange(i as int, k as int)) && acc <= i64::MAX,
            over ==> numeral_value(s.subrange(i as int, k as int)) > i64::MAX,
        decreases j - k,
    {
        let c = chars[k];
        assert(is_digit_spec(s[k as int]));
        let dv: u64 = (c as u32 - 48u32) as u64;
        assert(s.subrange(i as int, k + 1).drop_last() =~= s.subrange(i as int, k as int));
        assert(s.subrange(i as int, k + 1).last() == c);
        if !over {
            let next: u128 = (acc as u128) * 10 + (dv as u128);
            if next > 9223372036854775807u128 {
                over = true;
            } else {
                acc = next as u64;
            }
        }
        k += 1;
    }
    let digits = text_from(chars, i, j);
    if over {
        let mut m = text("Invalid number: ");
        m.append(digits.as_str());
        Err(m)
    } else {
        Ok((Token::IntLit(acc as i64), j - i))
    }
}

/// Reads the word that starts at `i`, and gives its keyword or name token.
fn read_word(chars: &Vec<char>, i: usize) -> (r: (Token, usize))
    requires
        i < chars@.len(),
    ensures
        ({
            let s = chars@.skip(i as int);
            let w = s.take((1 + word_run(s.drop_first())) as int);
            r.0@ == word_token(w, upper_case(w)) && r.1 == 1 + word_run(s.drop_first())
        }),
{
    let ghost s = chars@;
    let len = chars.len();
    let mut j = i + 1;
    assert(s.skip(i as int).drop_first() =~= s.skip(j as int));
    while j < len && (is_alphanumeric(chars[j]) || chars[j] == '_')
        invariant
            s == chars@,
            len == s.len(),
            i < j <= len,
            word_run(s.skip(i + 1)) == (j - (i + 1)) + word_run(s.skip(j as int)),
        decreases len - j,
    {
        assert(s.skip(j as int)[0] == s[j as int]);
        assert(s.skip(j as int).drop_first() =~= s.skip(j + 1));
        j += 1;
    }
    proof {
        if j < len {
            assert(s.skip(j as int)[0] == s[j as int]);
        }
        assert(s.skip(i as int).take((j - i) as int) =~= s.subrange(i as int, j as int));
    }
    let word = text_from(chars, i, j);
    let upper = to_upper(word.as_str());
    (keyword_or_ident(word, upper), j - i)
}

/// The next step of the tokenizer at position `i`.
pub fn next_token(chars: &Vec<char>, i: usize) -> (r: Result<(Option<Token>, usize), String>)
    requires
        i < chars@.len(),
    ensures
        match r {
            Ok((t, n)) => scan(chars@.skip(i as int)) == Ok::<(Option<TokenView>, nat), Seq<char>>(
                (
                    match t {
                        Some(x) => Some(x@),
                        None => None,
                    },
                    n as nat,
                ),
            ),
            Err(e) => scan(chars@.skip(i as int)) == Err::<(Option<TokenView>, nat), Seq<char>>(
                e@,
            ),
        },
{
    let ghost s = chars@.skip(i as int);
    let len = chars.len();
    let c = chars[i];
    assert(s[0] == c);
    if i + 1 < len {
        assert(s[1] == chars[i + 1]);
    }
    if is_space(c) {
        return Ok((None, 1));
    }
    match c {
        ',' => Ok((Some(Token::Comma), 1)),
        '(' => Ok((Some(Token::LParen), 1)),
        ')' => Ok((Some(Token::RParen), 1)),
        '*' => Ok((Some(Token::Star), 1)),
        '=' => Ok((Some(Token::Eq), 1)),
        '!' => {
            if i + 1 < chars.len() && chars[i + 1] == '=' {
                Ok((Some(Token::Neq), 2))
            } else {
                Err(text("Expected '=' after '!'"))
            }
        },
        '>' => {
            if i + 1 < chars.len() && chars[i + 1] == '=' {
                Ok((Some(Token::Gte), 2))
            } else {
                Ok((Some(Token::Gt), 1))
            }
        },
        '<' => {
            if i + 1 < chars.len() && chars[i + 1] == '=' {
                Ok((Some(Token::Lte), 2))
            } else if i + 1 < chars.len() && chars[i + 1] == '>' {
                Ok((Some(Token::Neq), 2))
            } else {
                Ok((Some(Token::Lt), 1))
            }
        },
        '\'' => {
            assert(s.drop_first() =~= chars@.skip(i + 1));
            proof {
                lemma_quoted_body_bound(chars@.skip(i + 1));
            }
            match read_quoted(chars, i + 1) {
                Some((b, n)) => Ok((Some(Token::StrLit(b)), n + 1)),
                None => Err(text("Unterminated string literal")),
            }
        },
        _ => {
            if c == '-' || is_digit(c) {
                match read_number(chars, i) {
                    Ok((t, n)) => Ok((Some(t), n)),
                    Err(e) => Err(e),
                }
            } else if is_alphabetic(c) || c == '_' {
                let (t, n) = read_word(chars, i);
                Ok((Some(t), n))
            } else {
                let mut m = text("Unexpected character: '");
                push_char(&mut m, c);
                m.append("'");
                Err(m)
            }
        },
    }
}

/// The tokens of `chars`, or the message of the first error.
pub fn tokenize(chars: &Vec<char>) -> (r: Result<Vec<Token>, String>)
    ensures
        match r {
            Ok(ts) => lex(chars@) == Ok::<Seq<TokenView>, Seq<char>>(tokens_view(ts@)),
            Err(e) => lex(chars@) == Err::<Seq<TokenView>, Seq<char>>(e@),
        },
{
    let ghost s = chars@;
    let len = chars.len();
    let mut tokens: Vec<Token> = Vec::new();
    let mut i: usize = 0;
    assert(s.skip(0) =~= s);
    assert(tokens_view(tokens@) + Seq::<TokenView>::empty() =~= Seq::<TokenView>::empty());
    while i < len
        invariant
            s == chars@,
            len == s.len(),
            i <= len,
            lex(s) == after(tokens_view(tokens@), lex(s.skip(i as int))),
        decreases len - i,
    {
        proof {
            lemma_lex_step(s.skip(i as int));
            lemma_scan_progress(s.skip(i as int));
        }
        let step = next_token(chars, i);
        match step {
            Err(e) => {
                return Err(e);
            },
            Ok((t, n)) => {
                assert(s.skip(i as int).skip(n as int) =~= s.skip(i + n));
                let ghost before = tokens_view(tokens@);
                match t {
                    Some(x) => {
                        tokens.push(x);
                        proof {
                            assert(tokens_view(tokens@) =~= before + seq![x@]);
                            match lex(s.skip(i + n)) {
                                Ok(rest) => {
                                    assert(before + (seq![x@] + Seq::<TokenView>::empty() + rest)
                                        =~= tokens_view(tokens@) + rest);
                                },
                                Err(_) => {},
                            }
                        }
                    },
                    None => {
                        proof {
                            match lex(s.skip(i + n)) {
                                Ok(rest) => {
                                    assert(before + (Seq::<TokenView>::empty() + rest) =~= before
                                        + rest);
                                },
                                Err(_) => {},
                            }
                        }
                    },
                }
                i += n;
            },
        }
    }
    assert(s.skip(len as int) =~= Seq::<char>::empty());
    assert(tokens_view(tokens@) + Seq::<TokenView>::empty() =~= tokens_view(tokens@));
    Ok(tokens)
}

} // verus!
