//! The reader: source text to values. The text is a sequence of expressions;
//! the root value is an S-expression holding them.
//!
//! An expression is a number (an optional sign and decimal digits), a symbol
//! (letters, digits and `_+\:-*/=<>|!&%`), a string (`"` up to the next `"`,
//! with no escapes), an S-expression `( ... )` or a Q-expression `[ ... ]`.
//! Whitespace may stand before any token. A sign followed by a digit starts a
//! number; any other symbol character starts a symbol.
use vstd::prelude::*;
use crate::print::chars_of;
use crate::value::{Lval, Value, lemma_vals_view, lemma_vals_view_ext, vals_view};

verus! {

/// What the reader was reading when it stopped.
#[derive(Clone, Copy, Debug, PartialEq, Eq, Structural)]
pub enum Context {
    Number,
    Symbol,
    String,
    SExpression,
    QExpression,
    /// The top-level sequence of expressions.
    Root,
}

/// Where and in what the reader stopped, and the expressions it was
/// reading around that place, innermost first.
#[derive(Debug, PartialEq, Eq)]
pub struct ParseError {
    pub position: usize,
    pub context: Context,
    pub trail: Vec<Context>,
}

/// A failure to read: the position, what was being read there, and the
/// enclosing expressions, innermost first.
pub type ParseFail = (int, Context, Seq<Context>);

/// How a sequence of expressions ends.
#[derive(Clone, Copy, Debug, PartialEq, Eq, Structural)]
pub enum Closer {
    Paren,
    Bracket,
    End,
}

pub open spec fn is_ws(c: char) -> bool {
    c == ' ' || c == '\t' || c == '\n' || c == '\r'
}

pub open spec fn is_digit(c: char) -> bool {
    '0' <= c && c <= '9'
}

pub open spec fn is_sym_char(c: char) -> bool {
    ||| 'a' <= c && c <= 'z'
    ||| 'A' <= c && c <= 'Z'
    ||| is_digit(c)
    ||| c == '_' || c == '+' || c == '\\' || c == ':' || c == '-' || c == '*' || c == '/'
    ||| c == '=' || c == '<' || c == '>' || c == '|' || c == '!' || c == '&' || c == '%'
}

pub open spec fn starts_expr(c: char) -> bool {
    is_sym_char(c) || c == '"' || c == '(' || c == '['
}

pub open spec fn digit_val(c: char) -> int {
    (c as u32) as int - 48
}

/// First position at or after `i` that is not whitespace.
pub open spec fn skip_ws(s: Seq<char>, i: int) -> int
    decreases s.len() - i,
{
    if 0 <= i < s.len() && is_ws(s[i]) {
        skip_ws(s, i + 1)
    } else {
        i
    }
}

/// First position at or after `i` that is not a digit.
pub open spec fn digits_end(s: Seq<char>, i: int) -> int
    decreases s.len() - i,
{
    if 0 <= i < s.len() && is_digit(s[i]) {
        digits_end(s, i + 1)
    } else {
        i
    }
}

/// First position at or after `i` that is not a symbol character.
pub open spec fn sym_end(s: Seq<char>, i: int) -> int
    decreases s.len() - i,
{
    if 0 <= i < s.len() && is_sym_char(s[i]) {
        sym_end(s, i + 1)
    } else {
        i
    }
}

/// First position at or after `i` that holds `"`, or the length.
pub open spec fn quote_end(s: Seq<char>, i: int) -> int
    decreases s.len() - i,
{
    if 0 <= i < s.len() && s[i] != '"' {
        quote_end(s, i + 1)
    } else {
        i
    }
}

/// The value of the decimal digits `s[a..e]`.
pub open spec fn digits_value(s: Seq<char>, a: int, e: int) -> int
    decreases e - a,
{
    if e <= a {
        0
    } else {
        digits_value(s, a, e - 1) * 10 + digit_val(s[e - 1])
    }
}

pub open spec fn number_starts(s: Seq<char>, p: int) -> bool {
    0 <= p < s.len() && (is_digit(s[p]) || ((s[p] == '+' || s[p] == '-') && p + 1 < s.len()
        && is_digit(s[p + 1])))
}

pub open spec fn closer_char(c: Closer) -> char {
    match c {
        Closer::Paren => ')',
        Closer::Bracket => ']',
        Closer::End => ' ',
    }
}

pub open spec fn closer_context(c: Closer) -> Context {
    match c {
        Closer::Paren => Context::SExpression,
        Closer::Bracket => Context::QExpression,
        Closer::End => Context::Root,
    }
}

/// The number starting at `p`, where `number_starts(s, p)`.
pub open spec fn number_spec(s: Seq<char>, p: int) -> Result<(Value, int), ParseFail> {
    let neg = s[p] == '-';
    let a = if is_digit(s[p]) {
        p
    } else {
        p + 1
    };
    let e = digits_end(s, a);
    let m = digits_value(s, a, e);
    let v = if neg {
        -m
    } else {
        m
    };
    if i64::MIN <= v && v <= i64::MAX {
        Ok((Value::Num(v as i64), e))
    } else {
        Err((p, Context::Number, Seq::empty()))
    }
}

/// The expression starting at the first non-blank position at or after `i`.
pub open spec fn expr_spec(s: Seq<char>, i: int) -> Result<(Value, int), ParseFail>
    decreases s.len() - i, 0nat,
{
    let p = skip_ws(s, i);
    if p < i || p >= s.len() {
        Err((p, Context::Root, Seq::empty()))
    } else if number_starts(s, p) {
        number_spec(s, p)
    } else if is_sym_char(s[p]) {
        Ok((Value::Sym(s.subrange(p, sym_end(s, p))), sym_end(s, p)))
    } else if s[p] == '"' {
        let e = quote_end(s, p + 1);
        if e >= s.len() {
            Err((p, Context::String, Seq::empty()))
        } else {
            Ok((Value::Str(s.subrange(p + 1, e)), e + 1))
        }
    } else if s[p] == '(' {
        match seq_spec(s, p + 1, Closer::Paren) {
            Ok((vs, j)) => Ok((Value::Sexpr(vs), j)),
            Err(x) => Err(x),
        }
    } else if s[p] == '[' {
        match seq_spec(s, p + 1, Closer::Bracket) {
            Ok((vs, j)) => Ok((Value::Qexpr(vs), j)),
            Err(x) => Err(x),
        }
    } else {
        Err((p, Context::Root, Seq::empty()))
    }
}

/// Expressions up to the closer, which is consumed.
pub open spec fn seq_spec(s: Seq<char>, i: int, close: Closer) -> Result<
    (Seq<Value>, int),
    ParseFail,
>
    decreases s.len() - i, 1nat,
{
    let p = skip_ws(s, i);
    if p < i {
        Err((p, closer_context(close), Seq::empty()))
    } else if close == Closer::End && p >= s.len() {
        Ok((Seq::empty(), p))
    } else if close != Closer::End && p < s.len() && s[p] == closer_char(close) {
        Ok((Seq::empty(), p + 1))
    } else if p < s.len() && starts_expr(s[p]) {
        match expr_spec(s, p) {
            Err((q, c, t)) => Err((q, c, t.push(closer_context(close)))),
            Ok((v, j)) => if j <= p || j > s.len() {
                Err((j, closer_context(close), Seq::empty()))
            } else {
                match seq_spec(s, j, close) {
                    Ok((vs, k)) => Ok((seq![v] + vs, k)),
                    Err(x) => Err(x),
                }
            },
        }
    } else {
        Err((p, closer_context(close), Seq::empty()))
    }
}

/// The whole text as the root S-expression.
pub open spec fn root_spec(s: Seq<char>) -> Result<Value, ParseFail> {
    match seq_spec(s, 0, Closer::End) {
        Ok((vs, _)) => Ok(Value::Sexpr(vs)),
        Err(x) => Err(x),
    }
}

// ---------------------------------------------------------------------------
proof fn lemma_skip_ws(s: Seq<char>, i: int)
    requires
        0 <= i,
    ensures
        i <= skip_ws(s, i),
        skip_ws(s, i) < s.len() ==> !is_ws(s[skip_ws(s, i)]),
    decreases s.len() - i,
{
    if 0 <= i < s.len() && is_ws(s[i]) {
        lemma_skip_ws(s, i + 1);
    }
}

proof fn lemma_digits_mono(s: Seq<char>, a: int, k: int, e: int)
    requires
        a <= k <= e,
        forall|j: int| a <= j < e ==> #[trigger] is_digit(s[j]),
    ensures
        0 <= digits_value(s, a, k) <= digits_value(s, a, e),
    decreases e - a,
{
    if a < e {
        if k < e {
            lemma_digits_mono(s, a, k, e - 1);
        } else {
            lemma_digits_mono(s, a, k - 1, e - 1);
        }
        assert(is_digit(s[e - 1]));
    }
}

fn is_ws_exec(c: char) -> (r: bool)
    ensures
        r == is_ws(c),
{
    c == ' ' || c == '\t' || c == '\n' || c == '\r'
}

fn is_digit_exec(c: char) -> (r: bool)
    ensures
        r == is_digit(c),
{
    '0' <= c && c <= '9'
}

fn is_sym_char_exec(c: char) -> (r: bool)
    ensures
        r == is_sym_char(c),
{
    ('a' <= c && c <= 'z') || ('A' <= c && c <= 'Z') || ('0' <= c && c <= '9') || c == '_' || c
        == '+' || c == '\\' || c == ':' || c == '-' || c == '*' || c == '/' || c == '=' || c
        == '<' || c == '>' || c == '|' || c == '!' || c == '&' || c == '%'
}

fn skip_ws_exec(s: &Vec<char>, i: usize) -> (r: usize)
    requires
        i <= s.len(),
    ensures
        r == skip_ws(s@, i as int),
        i <= r <= s.len(),
{
    let mut p = i;
    while p < s.len() && is_ws_exec(s[p])
        invariant
            i <= p <= s.len(),
            skip_ws(s@, p as int) == skip_ws(s@, i as int),
        decreases s.len() - p,
    {
        p += 1;
    }
    p
}

fn scan_number(s: &Vec<char>, p: usize) -> (r: Result<(Lval, usize), ParseError>)
    requires
        number_starts(s@, p as int),
    ensures
        match number_spec(s@, p as int) {
            Ok((v, j)) => r matches Ok((x, k)) && x@ == v && k == j,
            Err((q, c, t)) => r matches Err(e) && e.position == q && e.context == c && e.trail@ == t,
        },
{
    let n = s.len();
    let neg = s[p] == '-';
    let a: usize = if is_digit_exec(s[p]) {
        p
    } else {
        assert(p + 1 < n);
        p + 1
    };
    assert(a as int == if is_digit(s@[p as int]) { p as int } else { p + 1 });
    let limit: u64 = if neg {
        9223372036854775808u64
    } else {
        9223372036854775807u64
    };
    let mut k = a;
    let mut m: u64 = 0;
    while k < s.len() && is_digit_exec(s[k])
        invariant
            a <= k <= s.len(),
            digits_end(s@, a as int) == digits_end(s@, k as int),
            forall|j: int| a <= j < k ==> #[trigger] is_digit(s@[j]),
            m == digits_value(s@, a as int, k as int),
            m <= limit,
            limit == if neg { 9223372036854775808u64 } else { 9223372036854775807u64 },
            neg == (s@[p as int] == '-'),
            a as int == if is_digit(s@[p as int]) { p as int } else { p + 1 },
        decreases s.len() - k,
    {
        let d = (s[k] as u32 - 48) as u64;
        assert(is_digit(s@[k as int]));
        assert(d == digit_val(s@[k as int]));
        assert(d <= 9);
        assert(digits_value(s@, a as int, k + 1) == m * 10 + d);
        if m > (limit - d) / 10 {
            proof {
                let e = digits_end(s@, a as int);
                assert(digits_value(s@, a as int, k + 1) > limit) by (nonlinear_arith)
                    requires
                        m > (limit - d) / 10,
                        d <= 9,
                        limit >= d,
                        digits_value(s@, a as int, k + 1) == m * 10 + d,
                ;
                lemma_more_digits(s@, a as int, k + 1);
                lemma_digits_mono(s@, a as int, k + 1, e);
                assert(digits_value(s@, a as int, e) > limit);
            }
            return Err(ParseError { position: p, context: Context::Number, trail: Vec::new() });
        }
        m = m * 10 + d;
        k += 1;
    }
    proof {
        lemma_more_digits(s@, a as int, k as int);
    }
    let v: i64 = if neg {
        if m == 9223372036854775808u64 {
            i64::MIN
        } else {
            -(m as i64)
        }
    } else {
        m as i64
    };
    Ok((Lval::Num(v), k))
}

proof fn lemma_more_digits(s: Seq<char>, a: int, k: int)
    requires
        0 <= a <= k,
        forall|j: int| a <= j < k ==> #[trigger] is_digit(s[j]),
    ensures
        a <= k <= digits_end(s, k),
        digits_end(s, k) <= s.len() || digits_end(s, k) == k,
        forall|j: int| a <= j < digits_end(s, k) ==> #[trigger] is_digit(s[j]),
    decreases s.len() - k,
{
    if 0 <= k < s.len() && is_digit(s[k]) {
        lemma_more_digits(s, a, k + 1);
    }
}

fn scan_while_sym(s: &Vec<char>, p: usize) -> (r: usize)
    requires
        p <= s.len(),
    ensures
        r == sym_end(s@, p as int),
        p <= r <= s.len(),
{
    let mut k = p;
    while k < s.len() && is_sym_char_exec(s[k])
        invariant
            p <= k <= s.len(),
            sym_end(s@, k as int) == sym_end(s@, p as int),
        decreases s.len() - k,
    {
        k += 1;
    }
    k
}

fn scan_quote(s: &Vec<char>, p: usize) -> (r: usize)
    requires
        p <= s.len(),
    ensures
        r == quote_end(s@, p as int),
        p <= r <= s.len(),
{
    let mut k = p;
    while k < s.len() && s[k] != '"'
        invariant
            p <= k <= s.len(),
            quote_end(s@, k as int) == quote_end(s@, p as int),
        decreases s.len() - k,
    {
        k += 1;
    }
    k
}

pub(crate) fn text_of_range(s: &Vec<char>, a: usize, e: usize) -> (r: String)
    requires
        a <= e <= s.len(),
    ensures
        r@ == s@.subrange(a as int, e as int),
{
    let mut v: Vec<char> = Vec::new();
    let mut k = a;
    while k < e
        invariant
            a <= k <= e <= s.len(),
            v@ == s@.subrange(a as int, k as int),
        decreases e - k,
    {
        v.push(s[k]);
        k += 1;
        assert(v@ =~= s@.subrange(a as int, k as int));
    }
    crate::print::string_of(&v)
}

fn parse_expr(s: &Vec<char>, i: usize) -> (r: Result<(Lval, usize), ParseError>)
    requires
        i <= s.len(),
    ensures
        match expr_spec(s@, i as int) {
            Ok((v, j)) => r matches Ok((x, k)) && x@ == v && k == j && k <= s.len(),
            Err((q, c, t)) => r matches Err(e) && e.position == q && e.context == c && e.trail@ == t,
        },
    decreases s.len() - i, 0nat,
{
    let p = skip_ws_exec(s, i);
    if p >= s.len() {
        return Err(ParseError { position: p, context: Context::Root, trail: Vec::new() });
    }
    let c = s[p];
    if is_digit_exec(c) || ((c == '+' || c == '-') && p + 1 < s.len() && is_digit_exec(s[p + 1])) {
        let r = scan_number(s, p);
        proof {
            let a = if is_digit(s@[p as int]) { p as int } else { p + 1 };
            lemma_more_digits(s@, a, a);
        }
        return r;
    }
    if is_sym_char_exec(c) {
        let e = scan_while_sym(s, p);
        return Ok((Lval::Sym(text_of_range(s, p, e)), e));
    }
    if c == '"' {
        let e = scan_quote(s, p + 1);
        if e >= s.len() {
            return Err(ParseError { position: p, context: Context::String, trail: Vec::new() });
        }
        return Ok((Lval::Str(text_of_range(s, p + 1, e)), e + 1));
    }
    if c == '(' {
        return match parse_seq(s, p + 1, Closer::Paren) {
            Ok((vs, j)) => Ok((Lval::Sexpr(vs), j)),
            Err(x) => Err(x),
        };
    }
    if c == '[' {
        return match parse_seq(s, p + 1, Closer::Bracket) {
            Ok((vs, j)) => Ok((Lval::Qexpr(vs), j)),
            Err(x) => Err(x),
        };
    }
    Err(ParseError { position: p, context: Context::Root, trail: Vec::new() })
}

/// `items` followed by what the rest of the sequence reads to.
pub open spec fn prepend(
    items: Seq<Value>,
    rest: Result<(Seq<Value>, int), ParseFail>,
) -> Result<(Seq<Value>, int), ParseFail> {
    match rest {
        Ok((vs, k)) => Ok((items + vs, k)),
        Err(x) => Err(x),
    }
}

fn closer_context_exec(close: Closer) -> (r: Context)
    ensures
        r == closer_context(close),
{
    match close {
        Closer::Paren => Context::SExpression,
        Closer::Bracket => Context::QExpression,
        Closer::End => Context::Root,
    }
}

fn parse_seq(s: &Vec<char>, i: usize, close: Closer) -> (r: Result<(Vec<Lval>, usize), ParseError>)
    requires
        i <= s.len(),
    ensures
        match seq_spec(s@, i as int, close) {
            Ok((vs, j)) => r matches Ok((x, k)) && vals_view(x@) == vs && k == j && k <= s.len(),
            Err((q, c, t)) => r matches Err(e) && e.position == q && e.context == c && e.trail@ == t,
        },
    decreases s.len() - i, 1nat,
{
    let mut items: Vec<Lval> = Vec::new();
    let mut pos = i;
    let ghost target = seq_spec(s@, i as int, close);
    proof {
        lemma_vals_view(items@);
        assert(prepend(vals_view(items@), seq_spec(s@, pos as int, close)) =~= target) by {
            match seq_spec(s@, pos as int, close) {
                Ok((vs, k)) => {
                    assert(Seq::<Value>::empty() + vs =~= vs);
                },
                Err(_) => {},
            }
        }
    }
    loop
        invariant
            i <= pos <= s.len(),
            target == seq_spec(s@, i as int, close),
            prepend(vals_view(items@), seq_spec(s@, pos as int, close)) == target,
        decreases s.len() - pos,
    {
        let p = skip_ws_exec(s, pos);
        let ghost here = seq_spec(s@, pos as int, close);
        if close == Closer::End && p >= s.len() {
            assert(vals_view(items@) + Seq::<Value>::empty() =~= vals_view(items@));
            return Ok((items, p));
        }
        let want = match close {
            Closer::Paren => ')',
            Closer::Bracket => ']',
            Closer::End => ' ',
        };
        if close != Closer::End && p < s.len() && s[p] == want {
            assert(vals_view(items@) + Seq::<Value>::empty() =~= vals_view(items@));
            return Ok((items, p + 1));
        }
        if p < s.len() && (is_sym_char_exec(s[p]) || s[p] == '"' || s[p] == '(' || s[p] == '[') {
            match parse_expr(s, p) {
                Err(x) => {
                    let mut x = x;
                    x.trail.push(closer_context_exec(close));
                    return Err(x);
                },
                Ok((v, j)) => {
                    if j <= p || j > s.len() {
                        return Err(ParseError { position: j, context: closer_context_exec(close), trail: Vec::new() });
                    }
                    proof {
                        lemma_vals_view(items@);
                    }
                    let ghost old_items = vals_view(items@);
                    items.push(v);
                    proof {
                        lemma_vals_view(items@);
                        lemma_vals_view_ext(items@, old_items.push(v@));
                        match seq_spec(s@, j as int, close) {
                            Ok((vs, k)) => {
                                assert(old_items + (seq![v@] + vs) =~= old_items.push(v@) + vs);
                            },
                            Err(_) => {},
                        }
                    }
                    pos = j;
                }
            }
        } else {
            return Err(ParseError { position: p, context: closer_context_exec(close), trail: Vec::new() });
        }
    }
}

/// What the text reads as when one expression of the given kind is wanted at
/// its start: the value and where it ends, or where and in what reading stopped.
pub open spec fn kind_spec(s: Seq<char>, kind: Context) -> Result<(Value, int), ParseFail> {
    let p = skip_ws(s, 0);
    let fits = p < s.len() && match kind {
        Context::Number => number_starts(s, p),
        Context::Symbol => is_sym_char(s[p]),
        Context::String => s[p] == '"',
        Context::SExpression => s[p] == '(',
        Context::QExpression => s[p] == '[',
        Context::Root => starts_expr(s[p]),
    };
    if !fits {
        Err((p, kind, Seq::empty()))
    } else if kind == Context::Symbol {
        Ok((Value::Sym(s.subrange(p, sym_end(s, p))), sym_end(s, p)))
    } else {
        expr_spec(s, 0)
    }
}

/// An exec result of reading one expression against its specification: the
/// value and the text after it, or the error.
pub open spec fn read_agrees(
    res: Result<(Value, int), ParseFail>,
    s: Seq<char>,
    r: Result<(String, Lval), ParseError>,
) -> bool {
    match res {
        Ok((v, j)) => r matches Ok((rest, x)) && x@ == v && rest@ == s.subrange(j, s.len() as int),
        Err((q, c, t)) => r matches Err(e) && e.position == q && e.context == c && e.trail@ == t,
    }
}

fn parse_kind(text: &str, kind: Context) -> (r: Result<(String, Lval), ParseError>)
    ensures
        read_agrees(kind_spec(text@, kind), text@, r),
{
    let s = chars_of(text);
    let p = skip_ws_exec(&s, 0);
    if p >= s.len() {
        return Err(ParseError { position: p, context: kind, trail: Vec::new() });
    }
    let c = s[p];
    let fits = match kind {
        Context::Number => is_digit_exec(c) || ((c == '+' || c == '-') && p + 1 < s.len()
            && is_digit_exec(s[p + 1])),
        Context::Symbol => is_sym_char_exec(c),
        Context::String => c == '"',
        Context::SExpression => c == '(',
        Context::QExpression => c == '[',
        Context::Root => is_sym_char_exec(c) || c == '"' || c == '(' || c == '[',
    };
    if !fits {
        return Err(ParseError { position: p, context: kind, trail: Vec::new() });
    }
    if kind == Context::Symbol {
        let e = scan_while_sym(&s, p);
        let rest = text_of_range(&s, e, s.len());
        return Ok((rest, Lval::Sym(text_of_range(&s, p, e))));
    }
    match parse_expr(&s, 0) {
        Ok((x, j)) => Ok((text_of_range(&s, j, s.len()), x)),
        Err(e) => Err(e),
    }
}

/// A number (an optional sign and digits) after optional whitespace, and the text after it.
pub fn parse_number(text: &str) -> (r: Result<(String, Lval), ParseError>)
    ensures
        read_agrees(kind_spec(text@, Context::Number), text@, r),
{
    parse_kind(text, Context::Number)
}

/// A symbol after optional whitespace, and the text after it.
pub fn parse_symbol(text: &str) -> (r: Result<(String, Lval), ParseError>)
    ensures
        read_agrees(kind_spec(text@, Context::Symbol), text@, r),
{
    parse_kind(text, Context::Symbol)
}

/// A string after optional whitespace, and the text after it.
pub fn parse_string(text: &str) -> (r: Result<(String, Lval), ParseError>)
    ensures
        read_agrees(kind_spec(text@, Context::String), text@, r),
{
    parse_kind(text, Context::String)
}

/// An S-expression after optional whitespace, and the text after it.
pub fn parse_sexpression(text: &str) -> (r: Result<(String, Lval), ParseError>)
    ensures
        read_agrees(kind_spec(text@, Context::SExpression), text@, r),
{
    parse_kind(text, Context::SExpression)
}

/// A Q-expression after optional whitespace, and the text after it.
pub fn parse_qexpression(text: &str) -> (r: Result<(String, Lval), ParseError>)
    ensures
        read_agrees(kind_spec(text@, Context::QExpression), text@, r),
{
    parse_kind(text, Context::QExpression)
}

/// Any expression after optional whitespace, and the text after it.
pub fn parse_expression(text: &str) -> (r: Result<(String, Lval), ParseError>)
    ensures
        read_agrees(kind_spec(text@, Context::Root), text@, r),
{
    parse_kind(text, Context::Root)
}

/// Reads the whole text: the root S-expression holding every expression in
/// it, or where and in what reading stopped.
pub fn root(text: &str) -> (r: Result<Lval, ParseError>)
    ensures
        match root_spec(text@) {
            Ok(v) => r matches Ok(x) && x@ == v,
            Err((q, c, t)) => r matches Err(e) && e.position == q && e.context == c && e.trail@ == t,
        },
{
    let s = chars_of(text);
    match parse_seq(&s, 0, Closer::End) {
        Ok((vs, _)) => Ok(Lval::Sexpr(vs)),
        Err(e) => Err(e),
    }
}

} // verus!
