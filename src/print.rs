//! The printed representation of values and errors.
use vstd::prelude::*;
use crate::value::{details_text, Lerr, LerrType, Lval, Value, names_view, vals_view, lemma_vals_view};

verus! {

/// The characters of the text, in order.
pub(crate) fn chars_of(s: &str) -> (r: Vec<char>)
    ensures
        r@ == s@,
{
    let mut r: Vec<char> = Vec::new();
    let mut it = s.chars();
    loop
        invariant
            r@ + vstd::std_specs::iter::IteratorSpec::remaining(&it) == s@,
            vstd::std_specs::iter::IteratorSpec::decrease(&it) is Some,
        decreases vstd::std_specs::iter::IteratorSpec::decrease(&it)->0,
    {
        match it.next() {
            Some(c) => {
                r.push(c);
            },
            None => {
                assert(r@ =~= s@);
                return r;
            },
        }
    }
}

/// Relies on collecting characters into a `String`: the same characters, in order.
#[verifier::external_body]
pub(crate) fn string_of(v: &Vec<char>) -> (r: String)
    ensures
        r@ == v@,
{
    v.iter().collect()
}

pub open spec fn digit_char(d: int) -> char {
    if d == 0 {
        '0'
    } else if d == 1 {
        '1'
    } else if d == 2 {
        '2'
    } else if d == 3 {
        '3'
    } else if d == 4 {
        '4'
    } else if d == 5 {
        '5'
    } else if d == 6 {
        '6'
    } else if d == 7 {
        '7'
    } else if d == 8 {
        '8'
    } else {
        '9'
    }
}

/// Decimal digits of a natural number, most significant first.
pub open spec fn nat_text(n: nat) -> Seq<char>
    decreases n,
{
    if n < 10 {
        seq![digit_char(n as int)]
    } else {
        nat_text(n / 10).push(digit_char((n % 10) as int))
    }
}

/// Decimal text of an integer, with a leading `-` when negative.
pub open spec fn int_text(n: int) -> Seq<char> {
    if n < 0 {
        seq!['-'] + nat_text((-n) as nat)
    } else {
        nat_text(n as nat)
    }
}

/// Printed representation of a value.
pub open spec fn print_spec(v: Value) -> Seq<char>
    decreases v,
{
    match v {
        Value::Sym(s) => s,
        Value::Num(n) => int_text(n as int),
        Value::Sexpr(vs) => seq!['(', ' '] + join_spec(vs) + seq![' ', ')'],
        Value::Qexpr(vs) => seq!['[', ' '] + join_spec(vs) + seq![' ', ']'],
        Value::Fun(name, _) => name,
        Value::Lambda(ps, body, _) => seq!['(', '\\', ' ', '['] + join_names(ps) + seq![
            ']',
            ' ',
            '[',
        ] + join_spec(body) + seq![']', ')'],
        Value::Str(s) => s,
    }
}

/// Printed representations of the values, separated by single spaces.
pub open spec fn join_spec(vs: Seq<Value>) -> Seq<char>
    decreases vs,
{
    if vs.len() == 0 {
        Seq::empty()
    } else if vs.len() == 1 {
        print_spec(vs[0])
    } else {
        join_spec(vs.drop_last()) + seq![' '] + print_spec(vs.last())
    }
}

/// The names, separated by single spaces.
pub open spec fn join_names(ps: Seq<Seq<char>>) -> Seq<char>
    decreases ps.len(),
{
    if ps.len() == 0 {
        Seq::empty()
    } else if ps.len() == 1 {
        ps[0]
    } else {
        join_names(ps.drop_last()) + seq![' '] + ps.last()
    }
}

pub proof fn lemma_join_push(vs: Seq<Value>, v: Value)
    ensures
        join_spec(vs.push(v)) == if vs.len() == 0 {
            print_spec(v)
        } else {
            join_spec(vs) + seq![' '] + print_spec(v)
        },
{
    assert(vs.push(v).drop_last() =~= vs);
    if vs.len() == 0 {
        assert(vs.push(v)[0] == v);
    }
}

pub proof fn lemma_join_names_push(ps: Seq<Seq<char>>, p: Seq<char>)
    ensures
        join_names(ps.push(p)) == if ps.len() == 0 {
            p
        } else {
            join_names(ps) + seq![' '] + p
        },
{
    assert(ps.push(p).drop_last() =~= ps);
    if ps.len() == 0 {
        assert(ps.push(p)[0] == p);
    }
}

pub proof fn lemma_vals_view_take(s: Seq<Lval>, i: int)
    requires
        0 <= i < s.len(),
    ensures
        vals_view(s.take(i + 1)) == vals_view(s.take(i)).push(s[i]@),
{
    assert(s.take(i + 1).drop_last() =~= s.take(i));
}

fn digit(d: u64) -> (c: char)
    requires
        d < 10,
    ensures
        c == digit_char(d as int),
{
    if d == 0 {
        '0'
    } else if d == 1 {
        '1'
    } else if d == 2 {
        '2'
    } else if d == 3 {
        '3'
    } else if d == 4 {
        '4'
    } else if d == 5 {
        '5'
    } else if d == 6 {
        '6'
    } else if d == 7 {
        '7'
    } else if d == 8 {
        '8'
    } else {
        '9'
    }
}

pub fn push_nat(out: &mut Vec<char>, n: u64)
    ensures
        final(out)@ == old(out)@ + nat_text(n as nat),
    decreases n,
{
    if n >= 10 {
        push_nat(out, n / 10);
    }
    out.push(digit(n % 10));
    proof {
        if n < 10 {
            assert(old(out)@ + nat_text(n as nat) =~= old(out)@.push(digit_char(n as int)));
        } else {
            assert(old(out)@ + nat_text(n as nat) =~= old(out)@ + nat_text((n / 10) as nat)
                + seq![digit_char((n % 10) as int)]);
        }
    }
}

pub fn push_int(out: &mut Vec<char>, n: i64)
    ensures
        final(out)@ == old(out)@ + int_text(n as int),
{
    if n < 0 {
        out.push('-');
        let m: u64 = if n == i64::MIN {
            9223372036854775808u64
        } else {
            (-n) as u64
        };
        push_nat(out, m);
        assert(out@ =~= old(out)@ + int_text(n as int));
    } else {
        push_nat(out, n as u64);
    }
}

pub fn push_str(out: &mut Vec<char>, s: &str)
    ensures
        final(out)@ == old(out)@ + s@,
{
    let cs = chars_of(s);
    let mut i: usize = 0;
    while i < cs.len()
        invariant
            i <= cs.len(),
            cs@ == s@,
            out@ == old(out)@ + cs@.take(i as int),
        decreases cs.len() - i,
    {
        out.push(cs[i]);
        i += 1;
        assert(out@ =~= old(out)@ + cs@.take(i as int));
    }
    assert(cs@.take(i as int) =~= cs@);
}

impl Lval {
    /// Appends the printed representation of this value.
    pub fn write_into(&self, out: &mut Vec<char>)
        ensures
            final(out)@ == old(out)@ + print_spec(self@),
        decreases self,
    {
        match self {
            Lval::Sym(s) => push_str(out, s.as_str()),
            Lval::Num(n) => push_int(out, *n),
            Lval::Sexpr(v) => {
                out.push('(');
                out.push(' ');
                write_joined(v, out);
                out.push(' ');
                out.push(')');
                assert(out@ =~= old(out)@ + print_spec(self@));
            },
            Lval::Qexpr(v) => {
                out.push('[');
                out.push(' ');
                write_joined(v, out);
                out.push(' ');
                out.push(']');
                assert(out@ =~= old(out)@ + print_spec(self@));
            },
            Lval::Fun(name, _) => push_str(out, name.as_str()),
            Lval::Lambda(l) => {
                out.push('(');
                out.push('\\');
                out.push(' ');
                out.push('[');
                write_names(&l.args, out);
                out.push(']');
                out.push(' ');
                out.push('[');
                write_joined(&l.body, out);
                out.push(']');
                out.push(')');
                assert(out@ =~= old(out)@ + print_spec(self@));
            },
            Lval::Str(s) => push_str(out, s.as_str()),
        }
    }

    /// The printed representation of this value.
    pub fn to_text(&self) -> (r: String)
        ensures
            r@ == print_spec(self@),
    {
        let mut out: Vec<char> = Vec::new();
        self.write_into(&mut out);
        assert(out@ =~= print_spec(self@));
        string_of(&out)
    }
}

/// Appends the printed representations of the values, separated by spaces.
pub fn write_joined(v: &Vec<Lval>, out: &mut Vec<char>)
    ensures
        final(out)@ == old(out)@ + join_spec(vals_view(v@)),
    decreases v,
{
    let mut i: usize = 0;
    assert(v@.take(0) =~= Seq::<Lval>::empty());
    while i < v.len()
        invariant
            i <= v.len(),
            out@ == old(out)@ + join_spec(vals_view(v@.take(i as int))),
        decreases v.len() - i,
    {
        proof {
            lemma_vals_view_take(v@, i as int);
            lemma_join_push(vals_view(v@.take(i as int)), v@[i as int]@);
            lemma_vals_view(v@.take(i as int));
        }
        if i > 0 {
            out.push(' ');
        }
        v[i].write_into(out);
        i += 1;
        assert(out@ =~= old(out)@ + join_spec(vals_view(v@.take(i as int))));
    }
    assert(v@.take(i as int) =~= v@);
}

pub fn write_names(v: &Vec<String>, out: &mut Vec<char>)
    ensures
        final(out)@ == old(out)@ + join_names(names_view(v@)),
{
    let mut i: usize = 0;
    assert(names_view(v@.take(0)) =~= Seq::<Seq<char>>::empty());
    while i < v.len()
        invariant
            i <= v.len(),
            out@ == old(out)@ + join_names(names_view(v@.take(i as int))),
        decreases v.len() - i,
    {
        proof {
            assert(names_view(v@.take(i + 1)) =~= names_view(v@.take(i as int)).push(v@[i as int]@));
            lemma_join_names_push(names_view(v@.take(i as int)), v@[i as int]@);
        }
        if i > 0 {
            out.push(' ');
        }
        push_str(out, v[i].as_str());
        i += 1;
        assert(out@ =~= old(out)@ + join_names(names_view(v@.take(i as int))));
    }
    assert(v@.take(i as int) =~= v@);
}

pub open spec fn kind_name(t: LerrType) -> Seq<char> {
    match t {
        LerrType::DivZero => "DivZero"@,
        LerrType::BadOp => "BadOp"@,
        LerrType::BadNum => "BadNum"@,
        LerrType::IncorrectParamCount => "IncorrectParamCount"@,
        LerrType::EmptyList => "EmptyList"@,
        LerrType::WrongType => "WrongType"@,
        LerrType::UnboundSymbol => "UnboundSymbol"@,
        LerrType::Interrupt => "Interrupt"@,
        LerrType::DepthExceeded => "DepthExceeded"@,
    }
}

fn kind_str(t: LerrType) -> (r: &'static str)
    ensures
        r@ == kind_name(t),
{
    match t {
        LerrType::DivZero => "DivZero",
        LerrType::BadOp => "BadOp",
        LerrType::BadNum => "BadNum",
        LerrType::IncorrectParamCount => "IncorrectParamCount",
        LerrType::EmptyList => "EmptyList",
        LerrType::WrongType => "WrongType",
        LerrType::UnboundSymbol => "UnboundSymbol",
        LerrType::Interrupt => "Interrupt",
        LerrType::DepthExceeded => "DepthExceeded",
    }
}

/// `Error: <kind> - <description of the kind>; <message>`
pub open spec fn kind_text(t: LerrType, message: Seq<char>) -> Seq<char> {
    "Error: "@ + kind_name(t) + " - "@ + details_text(t) + "; "@ + message
}

pub open spec fn error_text(e: Lerr) -> Seq<char> {
    kind_text(e.etype, e.message@)
}

fn details_str(t: LerrType) -> (r: &'static str)
    ensures
        r@ == details_text(t),
{
    match t {
        LerrType::DivZero => "Cannot Divide By Zero",
        LerrType::BadOp => "Invalid Operator",
        LerrType::BadNum => "Invalid Operand",
        LerrType::IncorrectParamCount => "Incorrect Number of Params passed to function",
        LerrType::WrongType => "Incorrect Data Type used",
        LerrType::EmptyList => "Empty List passed to function",
        LerrType::UnboundSymbol => "This Symbol has not been Defined",
        LerrType::Interrupt => "User defined Error",
        LerrType::DepthExceeded => "Evaluation nested too deeply",
    }
}

impl Lerr {
    /// The diagnostic line for this error.
    pub fn to_text(&self) -> (r: String)
        ensures
            r@ == error_text(*self),
    {
        let mut out: Vec<char> = Vec::new();
        push_str(&mut out, "Error: ");
        push_str(&mut out, kind_str(self.etype));
        push_str(&mut out, " - ");
        push_str(&mut out, details_str(self.etype));
        push_str(&mut out, "; ");
        push_str(&mut out, self.message.as_str());
        assert(out@ =~= error_text(*self));
        string_of(&out)
    }
}

} // verus!
