//! Properties that relate several operations of the language.
use vstd::prelude::*;
use crate::builtin::{all_syms, assign_spec, bind_all, sym_names, unit, all_nums, arith, fold_spec, op_spec, head_spec, join_spec, list_spec, tail_spec, concat_lists, items};
use crate::env::{env_define, env_get, env_insert, env_pop, frame_get, frame_pos, frame_put, lemma_frame_pos, lemma_frame_pos_cases};
use crate::eval::{bind_spec, call_spec, eval_all_spec, eval_sexpr_spec, eval_spec};
use crate::parser::{
    Closer, Context, ParseFail, closer_char, digit_val, digits_end, digits_value, expr_spec, is_digit, is_sym_char,
    is_ws, number_starts, root_spec, starts_expr, seq_spec, skip_ws, sym_end,
};
use crate::print::{digit_char, int_text, join_spec as print_join, nat_text, print_spec};
use crate::value::{Builtin, Failure, Frame, LerrType, Value};

verus! {

/// Adding two numbers gives their sum, and dividing any number by zero fails
/// with `DivZero`: `(op x y)` where `op` names the builtin `+`, or `/`, in
/// the environment.
pub proof fn law_add_and_divide_by_zero(
    env: Seq<Frame>,
    op: Seq<char>,
    name: Seq<char>,
    b: Builtin,
    x: i64,
    y: i64,
    fuel: nat,
    ck: Seq<u32>,
)
    requires
        fuel > 0,
        b == Builtin::Add || b == Builtin::Div,
        env_get(env, op) == Some(Value::Fun(name, b)),
    ensures
        b == Builtin::Add && i64::MIN <= x + y <= i64::MAX ==> eval_spec(
            env,
            Value::Sexpr(seq![Value::Sym(op), Value::Num(x), Value::Num(y)]),
            fuel,
            ck,
        ) == Some((env, Ok::<Value, Failure>(Value::Num((x + y) as i64)), ck)),
        b == Builtin::Div && y == 0 ==> eval_spec(
            env,
            Value::Sexpr(seq![Value::Sym(op), Value::Num(x), Value::Num(y)]),
            fuel,
            ck,
        ) == Some((env, Err::<Value, Failure>(Failure::Failed(LerrType::DivZero)), ck)),
{
    let es = seq![Value::Sym(op), Value::Num(x), Value::Num(y)];
    let args = seq![Value::Num(x), Value::Num(y)];
    let f = (fuel - 1) as nat;
    lemma_apply_to_pair(env, op, name, b, x, y, f, ck);
    assert(eval_spec(env, Value::Sexpr(es), fuel, ck) == eval_sexpr_spec(env, es, f, ck));
    if b == Builtin::Add {
        assert(crate::eval::apply_spec(env, Builtin::Add, args, f, ck) == Some(
            (env, op_spec(Builtin::Add, args), ck),
        ));
    } else {
        assert(crate::eval::apply_spec(env, Builtin::Div, args, f, ck) == Some(
            (env, op_spec(Builtin::Div, args), ck),
        ));
    }
    lemma_op_pair(b, x, y);
}

proof fn lemma_eval_none(env: Seq<Frame>, f: nat, ck: Seq<u32>)
    ensures
        eval_all_spec(env, Seq::<Value>::empty(), f, ck) == Some(
            (env, Ok::<Seq<Value>, Failure>(Seq::<Value>::empty()), ck),
        ),
{
}

proof fn lemma_eval_sym(env: Seq<Frame>, op: Seq<char>, v: Value, f: nat, ck: Seq<u32>)
    requires
        env_get(env, op) == Some(v),
    ensures
        eval_spec(env, Value::Sym(op), f, ck) == Some((env, Ok::<Value, Failure>(v), ck)),
{
}

proof fn lemma_eval_num(env: Seq<Frame>, x: i64, f: nat, ck: Seq<u32>)
    ensures
        eval_spec(env, Value::Num(x), f, ck) == Some((env, Ok::<Value, Failure>(Value::Num(x)), ck)),
{
}

/// `(op x y)` reduces to the application of the builtin `op` names.
#[verifier::rlimit(100)]
proof fn lemma_apply_to_pair(
    env: Seq<Frame>,
    op: Seq<char>,
    name: Seq<char>,
    b: Builtin,
    x: i64,
    y: i64,
    f: nat,
    ck: Seq<u32>,
)
    requires
        env_get(env, op) == Some(Value::Fun(name, b)),
    ensures
        eval_sexpr_spec(env, seq![Value::Sym(op), Value::Num(x), Value::Num(y)], f, ck)
            == crate::eval::apply_spec(env, b, seq![Value::Num(x), Value::Num(y)], f, ck),
{
    let es = seq![Value::Sym(op), Value::Num(x), Value::Num(y)];
    let fv = Value::Fun(name, b);
    let s1 = seq![Value::Sym(op)];
    let s2 = seq![Value::Sym(op), Value::Num(x)];
    let r1 = seq![fv];
    let r2 = seq![fv, Value::Num(x)];
    let rs = seq![fv, Value::Num(x), Value::Num(y)];
    assert(s1.drop_last() =~= Seq::<Value>::empty());
    assert(Seq::<Value>::empty().push(fv) =~= r1);
    lemma_eval_none(env, f, ck);
    lemma_eval_sym(env, op, fv, f, ck);
    lemma_eval_num(env, x, f, ck);
    lemma_eval_num(env, y, f, ck);
    lemma_eval_all_step(env, s1, f, ck, env, Seq::empty(), env, fv);
    assert(s2.drop_last() =~= s1);
    assert(r1.push(Value::Num(x)) =~= r2);
    lemma_eval_all_step(env, s2, f, ck, env, r1, env, Value::Num(x));
    assert(es.drop_last() =~= s2);
    assert(r2.push(Value::Num(y)) =~= rs);
    lemma_eval_all_step(env, es, f, ck, env, r2, env, Value::Num(y));
    assert(rs.drop_first() =~= seq![Value::Num(x), Value::Num(y)]);
    lemma_sexpr_of_builtin(env, es, f, ck, env, rs, name, b);
}

/// An S-expression whose first item evaluates to a builtin applies it to the
/// values of the others.
proof fn lemma_sexpr_of_builtin(
    env: Seq<Frame>,
    es: Seq<Value>,
    f: nat,
    ck: Seq<u32>,
    e1: Seq<Frame>,
    rs: Seq<Value>,
    name: Seq<char>,
    b: Builtin,
)
    requires
        eval_all_spec(env, es, f, ck) == Some((e1, Ok::<Seq<Value>, Failure>(rs), ck)),
        rs.len() > 0,
        rs[0] == Value::Fun(name, b),
    ensures
        eval_sexpr_spec(env, es, f, ck) == crate::eval::apply_spec(e1, b, rs.drop_first(), f, ck),
{
}

proof fn lemma_op_pair(b: Builtin, x: i64, y: i64)
    requires
        b == Builtin::Add || b == Builtin::Div,
    ensures
        b == Builtin::Add && i64::MIN <= x + y <= i64::MAX ==> op_spec(
            b,
            seq![Value::Num(x), Value::Num(y)],
        ) == Ok::<Value, Failure>(Value::Num((x + y) as i64)),
        b == Builtin::Div && y == 0 ==> op_spec(b, seq![Value::Num(x), Value::Num(y)]) == Err::<
            Value,
            Failure,
        >(Failure::Failed(LerrType::DivZero)),
{
    let args = seq![Value::Num(x), Value::Num(y)];
    assert(all_nums(args));
    assert(fold_spec(b, args, 1) == Ok::<i64, LerrType>(x));
    assert(fold_spec(b, args, 2) == arith(b, x, y));
}

/// One more expression evaluated to a value.
proof fn lemma_eval_all_step(
    env: Seq<Frame>,
    es: Seq<Value>,
    fuel: nat,
    ck: Seq<u32>,
    e1: Seq<Frame>,
    rs: Seq<Value>,
    e2: Seq<Frame>,
    v: Value,
)
    requires
        es.len() > 0,
        eval_all_spec(env, es.drop_last(), fuel, ck) == Some(
            (e1, Ok::<Seq<Value>, Failure>(rs), ck),
        ),
        eval_spec(e1, es.last(), fuel, ck) == Some((e2, Ok::<Value, Failure>(v), ck)),
    ensures
        eval_all_spec(env, es, fuel, ck) == Some((e2, Ok::<Seq<Value>, Failure>(rs.push(v)), ck)),
{
}

/// For a non-empty quoted list `q`, `join (list (head q)) (tail q)` is `q`.
pub proof fn law_head_tail_join(q: Seq<Value>)
    requires
        q.len() > 0,
    ensures
        ({
            let arg = seq![Value::Qexpr(q)];
            &&& head_spec(arg) matches Ok(h)
            &&& tail_spec(arg) matches Ok(t)
            &&& list_spec(seq![h]) matches Ok(l)
            &&& join_spec(seq![l, t]) == Ok::<Value, Failure>(Value::Qexpr(q))
        }),
{
    let h = q[0];
    let t = Value::Qexpr(q.drop_first());
    let l = Value::Qexpr(seq![h]);
    let args = seq![l, t];
    assert(args.drop_last() =~= seq![l]);
    assert(args.drop_last().drop_last() =~= Seq::<Value>::empty());
    assert(seq![l].drop_last() =~= Seq::<Value>::empty());
    assert(seq![l].last() == l);
    assert(concat_lists(Seq::<Value>::empty()) == Seq::<Value>::empty());
    assert(concat_lists(seq![l]) == concat_lists(seq![l].drop_last()) + items(seq![l].last()));
    assert(concat_lists(seq![l]) =~= seq![h]);
    assert(concat_lists(args) =~= seq![h] + q.drop_first());
    assert(seq![h] + q.drop_first() =~= q);
}

} // verus!

verus! {

// ---------------------------------------------------------------------------
// Printing and reading back

/// A name the reader reads back as the same symbol: symbol characters only,
/// and not starting the way a number does.
pub open spec fn readable_name(s: Seq<char>) -> bool {
    &&& s.len() > 0
    &&& forall|k: int| 0 <= k < s.len() ==> #[trigger] is_sym_char(s[k])
    &&& !number_starts(s, 0)
}

/// The values whose printed text reads back as themselves: numbers, such
/// symbols, and S- and Q-expressions of them. (A string prints without its
/// quotes, and builtins and closures are not read at all.)
pub open spec fn readable(v: Value) -> bool
    decreases v,
{
    match v {
        Value::Num(_) => true,
        Value::Sym(s) => readable_name(s),
        Value::Sexpr(vs) => readable_all(vs),
        Value::Qexpr(vs) => readable_all(vs),
        _ => false,
    }
}

pub open spec fn readable_all(vs: Seq<Value>) -> bool
    decreases vs,
{
    vs.len() == 0 || (readable(vs[0]) && readable_all(vs.drop_first()))
}

/// Each value printed after a single space.
pub open spec fn spaced(vs: Seq<Value>) -> Seq<char>
    decreases vs,
{
    if vs.len() == 0 {
        Seq::empty()
    } else {
        seq![' '] + print_spec(vs[0]) + spaced(vs.drop_first())
    }
}

/// `s` holds `t` from position `a` on.
pub open spec fn holds_at(s: Seq<char>, a: int, t: Seq<char>) -> bool {
    0 <= a && a + t.len() <= s.len() && forall|k: int| 0 <= k < t.len() ==> #[trigger] s[a + k] == t[k]
}

/// Position `j` ends a token: the end of the text, or whitespace.
pub open spec fn token_ends(s: Seq<char>, j: int) -> bool {
    j == s.len() || (0 <= j < s.len() && is_ws(s[j]))
}

proof fn lemma_spaced_push(vs: Seq<Value>, v: Value)
    ensures
        spaced(vs.push(v)) == spaced(vs) + seq![' '] + print_spec(v),
    decreases vs.len(),
{
    if vs.len() == 0 {
        assert(vs.push(v).drop_first() =~= Seq::<Value>::empty());
        assert(vs.push(v)[0] == v);
        assert(spaced(Seq::<Value>::empty()) == Seq::<char>::empty());
        assert(spaced(vs) == Seq::<char>::empty());
        assert(spaced(vs.push(v)) == seq![' '] + print_spec(v) + spaced(vs.push(v).drop_first()));
        assert(spaced(vs.push(v)) =~= spaced(vs) + seq![' '] + print_spec(v));
    } else {
        assert(vs.push(v).drop_first() =~= vs.drop_first().push(v));
        assert(vs.push(v)[0] == vs[0]);
        lemma_spaced_push(vs.drop_first(), v);
        assert(spaced(vs.push(v)) =~= spaced(vs) + seq![' '] + print_spec(v));
    }
}

proof fn lemma_spaced_join(vs: Seq<Value>)
    requires
        vs.len() > 0,
    ensures
        spaced(vs) == seq![' '] + print_join(vs),
    decreases vs.len(),
{
    if vs.len() == 1 {
        assert(vs.drop_first() =~= Seq::<Value>::empty());
        assert(spaced(Seq::<Value>::empty()) == Seq::<char>::empty());
        assert(spaced(vs) == seq![' '] + print_spec(vs[0]) + spaced(vs.drop_first()));
        assert(print_join(vs) == print_spec(vs[0]));
        assert(spaced(vs) =~= seq![' '] + print_join(vs));
    } else {
        lemma_spaced_join(vs.drop_last());
        lemma_spaced_push(vs.drop_last(), vs.last());
        assert(vs.drop_last().push(vs.last()) =~= vs);
        assert(print_join(vs) == print_join(vs.drop_last()) + seq![' '] + print_spec(vs.last()));
        assert(spaced(vs) =~= seq![' '] + print_join(vs));
    }
}

proof fn lemma_skip_run(s: Seq<char>, j: int, m: int)
    requires
        0 <= j <= m <= s.len(),
        forall|k: int| j <= k < m ==> #[trigger] is_ws(s[k]),
        m == s.len() || !is_ws(s[m]),
    ensures
        skip_ws(s, j) == m,
    decreases m - j,
{
    if j < m {
        lemma_skip_run(s, j + 1, m);
    }
}

proof fn lemma_digit_char(d: int)
    requires
        0 <= d < 10,
    ensures
        is_digit(digit_char(d)),
        digit_val(digit_char(d)) == d,
        !is_ws(digit_char(d)),
{
}

proof fn lemma_nat_text(n: nat)
    ensures
        nat_text(n).len() > 0,
        forall|k: int| 0 <= k < nat_text(n).len() ==> #[trigger] is_digit(nat_text(n)[k]),
    decreases n,
{
    lemma_digit_char((n % 10) as int);
    if n >= 10 {
        lemma_nat_text(n / 10);
    }
}

proof fn lemma_read_digits(s: Seq<char>, a: int, n: nat)
    requires
        holds_at(s, a, nat_text(n)),
    ensures
        digits_value(s, a, a + nat_text(n).len()) == n,
    decreases n,
{
    lemma_digit_char((n % 10) as int);
    if n < 10 {
        assert(s[a + 0] == nat_text(n)[0]);
        assert(digits_value(s, a, a) == 0);
    } else {
        let t = nat_text(n / 10);
        assert(holds_at(s, a, t)) by {
            assert forall|k: int| 0 <= k < t.len() implies #[trigger] s[a + k] == t[k] by {
                assert(nat_text(n)[k] == t[k]);
            }
        }
        lemma_read_digits(s, a, n / 10);
        let e = a + nat_text(n).len();
        assert(s[a + t.len()] == nat_text(n)[t.len() as int]);
        assert(e - 1 == a + t.len());
        assert(digits_value(s, a, e) == digits_value(s, a, e - 1) * 10 + digit_val(s[e - 1]));
    }
}

proof fn lemma_digits_to(s: Seq<char>, a: int, e: int)
    requires
        0 <= a <= e <= s.len(),
        forall|k: int| a <= k < e ==> #[trigger] is_digit(s[k]),
        e == s.len() || !is_digit(s[e]),
    ensures
        digits_end(s, a) == e,
    decreases e - a,
{
    if a < e {
        lemma_digits_to(s, a + 1, e);
    }
}

proof fn lemma_read_number(s: Seq<char>, i: int, n: i64)
    requires
        holds_at(s, i, int_text(n as int)),
        token_ends(s, i + int_text(n as int).len()),
    ensures
        number_starts(s, i),
        expr_spec(s, i) == Ok::<(Value, int), ParseFail>(
            (Value::Num(n), i + int_text(n as int).len()),
        ),
{
    let t = int_text(n as int);
    let e = i + t.len();
    let m: nat = if n < 0 {
        (-n) as nat
    } else {
        n as nat
    };
    let a = if n < 0 {
        i + 1
    } else {
        i
    };
    lemma_nat_text(m);
    assert(holds_at(s, a, nat_text(m))) by {
        assert forall|k: int| 0 <= k < nat_text(m).len() implies #[trigger] s[a + k]
            == nat_text(m)[k] by {
            if n < 0 {
                assert(s[i + (k + 1)] == t[k + 1]);
            } else {
                assert(s[i + k] == t[k]);
            }
        }
    }
    assert(e == a + nat_text(m).len());
    assert(s[a + 0] == nat_text(m)[0]);
    assert(s[i + 0] == t[0]);
    lemma_read_digits(s, a, m);
    assert forall|k: int| a <= k < e implies #[trigger] is_digit(s[k]) by {
        assert(s[a + (k - a)] == nat_text(m)[k - a]);
    }
    lemma_digits_to(s, a, e);
    lemma_skip_run(s, i, i);
    assert(!is_ws(s[i]));
}

proof fn lemma_sym_to(s: Seq<char>, a: int, e: int)
    requires
        0 <= a <= e <= s.len(),
        forall|k: int| a <= k < e ==> #[trigger] is_sym_char(s[k]),
        e == s.len() || !is_sym_char(s[e]),
    ensures
        sym_end(s, a) == e,
    decreases e - a,
{
    if a < e {
        lemma_sym_to(s, a + 1, e);
    }
}

proof fn lemma_print_starts(v: Value)
    requires
        readable(v),
    ensures
        print_spec(v).len() > 0,
        !is_ws(print_spec(v)[0]),
        print_spec(v)[0] != ')' && print_spec(v)[0] != ']',
        print_spec(v)[0] == '(' || print_spec(v)[0] == '[' || print_spec(v)[0] == '-'
            || is_sym_char(print_spec(v)[0]),
{
    match v {
        Value::Num(n) => {
            if n < 0 {
                lemma_nat_text((-n) as nat);
                assert(print_spec(v) == seq!['-'] + nat_text((-n) as nat));
                assert(print_spec(v)[0] == '-');
            } else {
                lemma_nat_text(n as nat);
                assert(print_spec(v) == nat_text(n as nat));
                assert(is_digit(print_spec(v)[0]));
            }
        },
        Value::Sym(s) => {
            assert(is_sym_char(s[0]));
        },
        _ => {},
    }
}

proof fn lemma_read_printed(v: Value, s: Seq<char>, i: int)
    requires
        readable(v),
        holds_at(s, i, print_spec(v)),
        token_ends(s, i + print_spec(v).len()),
    ensures
        expr_spec(s, i) == Ok::<(Value, int), ParseFail>((v, i + print_spec(v).len())),
    decreases v, 1nat,
{
    lemma_print_starts(v);
    let p = print_spec(v);
    let e = i + p.len();
    assert(s[i + 0] == p[0]);
    lemma_skip_run(s, i, i);
    match v {
        Value::Num(n) => {
            lemma_read_number(s, i, n);
        },
        Value::Sym(name) => {
            assert(!number_starts(s, i)) by {
                if name.len() > 1 {
                    assert(s[i + 1] == name[1]);
                }
            }
            assert(p == name);
            assert forall|k: int| i <= k < e implies #[trigger] is_sym_char(s[k]) by {
                assert(s[i + (k - i)] == name[k - i]);
            }
            lemma_sym_to(s, i, e);
            assert forall|k: int| 0 <= k < name.len() implies #[trigger] s.subrange(i, e)[k]
                == name[k] by {
                assert(s[i + k] == p[k]);
            }
            assert(s.subrange(i, e) =~= name);
        },
        Value::Sexpr(vs) => {
            lemma_read_list(vs, s, i, Closer::Paren);
        },
        Value::Qexpr(vs) => {
            lemma_read_list(vs, s, i, Closer::Bracket);
        },
        _ => {},
    }
}

/// The printed list `( ... )` or `[ ... ]` at `i` reads as its items.
proof fn lemma_read_list(vs: Seq<Value>, s: Seq<char>, i: int, close: Closer)
    requires
        readable_all(vs),
        close != Closer::End,
        holds_at(
            s,
            i,
            if close == Closer::Paren {
                print_spec(Value::Sexpr(vs))
            } else {
                print_spec(Value::Qexpr(vs))
            },
        ),
    ensures
        ({
            let p = if close == Closer::Paren {
                print_spec(Value::Sexpr(vs))
            } else {
                print_spec(Value::Qexpr(vs))
            };
            seq_spec(s, i + 1, close) == Ok::<(Seq<Value>, int), ParseFail>(
                (vs, i + p.len()),
            )
        }),
    decreases vs, 2nat,
{
    let c = closer_char(close);
    let p = if close == Closer::Paren {
        print_spec(Value::Sexpr(vs))
    } else {
        print_spec(Value::Qexpr(vs))
    };
    let g = spaced(vs);
    let m = i + p.len() - 1;
    if vs.len() == 0 {
        assert(p =~= seq![p[0], ' ', ' ', c]);
        assert(s[i + 1] == p[1]);
        assert(s[i + 2] == p[2]);
        assert(s[i + 3] == p[3]);
        assert(m == i + 3);
        assert(g =~= Seq::<char>::empty());
    } else {
        lemma_spaced_join(vs);
        assert(p =~= seq![p[0]] + g + seq![' ', c]);
        assert(s[i + (p.len() - 1)] == p[p.len() - 1]);
        assert(s[i + (p.len() - 2)] == p[p.len() - 2]);
    }
    assert(holds_at(s, i + 1, g)) by {
        assert forall|k: int| 0 <= k < g.len() implies #[trigger] s[i + 1 + k] == g[k] by {
            assert(s[i + (1 + k)] == p[1 + k]);
        }
    }
    lemma_read_spaced(vs, s, i + 1, m, close);
}

/// Spaced items from `j` on, then a run of blanks up to the closer at `m`.
proof fn lemma_read_spaced(vs: Seq<Value>, s: Seq<char>, j: int, m: int, close: Closer)
    requires
        readable_all(vs),
        close != Closer::End,
        holds_at(s, j, spaced(vs)),
        j + spaced(vs).len() < m < s.len(),
        forall|k: int| j + spaced(vs).len() <= k < m ==> #[trigger] is_ws(s[k]),
        s[m] == closer_char(close),
    ensures
        seq_spec(s, j, close) == Ok::<(Seq<Value>, int), ParseFail>((vs, m + 1)),
    decreases vs, 0nat,
{
    let c = closer_char(close);
    if vs.len() == 0 {
        assert(spaced(vs).len() == 0);
        assert(!is_ws(s[m]));
        lemma_skip_run(s, j, m);
        assert(vs =~= Seq::<Value>::empty());
    } else {
        let v0 = vs[0];
        let rest = vs.drop_first();
        let head_text = print_spec(v0);
        let g = spaced(vs);
        let g1 = spaced(rest);
        assert(g =~= seq![' '] + head_text + g1);
        lemma_print_starts(v0);
        assert(s[j + 0] == g[0]);
        assert(s[j + 1] == g[1]);
        assert(g[1] == head_text[0]);
        lemma_skip_run(s, j, j + 1);
        let j2 = j + 1 + head_text.len();
        assert(holds_at(s, j + 1, head_text)) by {
            assert forall|k: int| 0 <= k < head_text.len() implies #[trigger] s[j + 1 + k] == head_text[k] by {
                assert(s[j + (1 + k)] == g[1 + k]);
            }
        }
        assert(holds_at(s, j2, g1)) by {
            assert forall|k: int| 0 <= k < g1.len() implies #[trigger] s[j2 + k] == g1[k] by {
                assert(s[j + (1 + head_text.len() + k)] == g[1 + head_text.len() + k]);
            }
        }
        assert(token_ends(s, j2)) by {
            if g1.len() > 0 {
                if rest.len() == 0 {
                    assert(g1.len() == 0);
                }
                assert(g1[0] == ' ');
                assert(s[j2 + 0] == g1[0]);
            } else {
                assert(is_ws(s[j2]));
            }
        }
        lemma_read_printed(v0, s, j + 1);
        lemma_read_spaced(rest, s, j2, m, close);
        assert(skip_ws(s, j) == j + 1);
        assert(s[j + 1] != closer_char(close));
        assert(starts_expr(s[j + 1]));
        assert(expr_spec(s, j + 1) == Ok::<(Value, int), ParseFail>((v0, j2)));
        assert(seq_spec(s, j2, close) == Ok::<(Seq<Value>, int), ParseFail>((rest, m + 1)));
        assert(seq![v0] + rest =~= vs);
    }
}

/// Printing a readable value and reading the text back gives the value
/// again: as the one expression of the text, and inside the root S-expression.
pub proof fn law_print_then_read(v: Value)
    requires
        readable(v),
    ensures
        expr_spec(print_spec(v), 0) == Ok::<(Value, int), ParseFail>(
            (v, print_spec(v).len() as int),
        ),
        root_spec(print_spec(v)) == Ok::<Value, ParseFail>(Value::Sexpr(seq![v])),
{
    let p = print_spec(v);
    lemma_print_starts(v);
    lemma_read_printed(v, p, 0);
    lemma_skip_run(p, 0, 0);
    lemma_skip_run(p, p.len() as int, p.len() as int);
    assert(starts_expr(p[0]));
    assert(seq_spec(p, p.len() as int, Closer::End) == Ok::<(Seq<Value>, int), ParseFail>(
        (Seq::<Value>::empty(), p.len() as int),
    ));
    assert(seq![v] + Seq::<Value>::empty() =~= seq![v]);
    assert(seq_spec(p, 0, Closer::End) == Ok::<(Seq<Value>, int), ParseFail>(
        (seq![v], p.len() as int),
    ));
}

} // verus!

verus! {

// ---------------------------------------------------------------------------
// Scopes

/// After binding `k` in a frame, the frame maps `k` to the new value.
pub proof fn lemma_frame_put_get(f: Frame, k: Seq<char>, v: Value)
    ensures
        frame_get(frame_put(f, k, v), k) == Some(v),
{
    let i = frame_pos(f, k);
    let g = frame_put(f, k, v);
    lemma_frame_pos_cases(f, k);
    if i >= 0 {
        lemma_frame_pos(g, k, i);
    } else {
        lemma_frame_pos(g, k, f.len() as int);
    }
}

/// `def` in an inner scope binds in the root frame, so the name is still
/// bound after the inner scope is popped; `=` binds in the inner frame, so
/// after the pop the name is bound as it was before.
pub proof fn law_def_outlives_scope_assignment_does_not(
    root: Frame,
    inner: Frame,
    k: Seq<char>,
    v: Value,
)
    ensures
        ({
            let env = seq![root, inner];
            let args = seq![Value::Qexpr(seq![Value::Sym(k)]), v];
            let (defined, r) = assign_spec(true, env, args);
            let (assigned, s) = assign_spec(false, env, args);
            &&& r == Ok::<Value, Failure>(unit())
            &&& s == Ok::<Value, Failure>(unit())
            &&& env_get(env_pop(defined), k) == Some(v)
            &&& env_get(env_pop(assigned), k) == env_get(seq![root], k)
        }),
{
    let env = seq![root, inner];
    let q = Value::Qexpr(seq![Value::Sym(k)]);
    let args = seq![q, v];
    assert(all_syms(items(q)));
    let names = sym_names(items(q));
    assert(names =~= seq![k]);
    assert(args.drop_first() =~= seq![v]);
    let defined = env_define(env, k, v);
    let assigned = env_insert(env, k, v);
    assert(bind_all(env, names, args.drop_first(), true, 0) == env);
    assert(bind_all(env, names, args.drop_first(), false, 0) == env);
    assert(bind_all(env, names, args.drop_first(), true, 1) == defined);
    assert(bind_all(env, names, args.drop_first(), false, 1) == assigned);
    lemma_frame_put_get(root, k, v);
    assert(env_pop(defined) =~= seq![frame_put(root, k, v)]);
    assert(seq![frame_put(root, k, v)].drop_last() =~= Seq::<Frame>::empty());
    assert(env_pop(assigned) =~= seq![root]);
}

} // verus!

verus! {

/// A closure of two parameters applied to one argument is a closure of the
/// second parameter alone, with the first bound in its frame.
pub proof fn law_partial_application(
    env: Seq<Frame>,
    a: Seq<char>,
    b: Seq<char>,
    body: Seq<Value>,
    fr: Frame,
    x: Value,
    fuel: nat,
    ck: Seq<u32>,
)
    requires
        a != seq![':'],
    ensures
        call_spec(env, seq![a, b], body, fr, seq![x], fuel, ck) == Some(
            (env, Ok::<Value, Failure>(Value::Lambda(seq![b], body, frame_put(fr, a, x))), ck),
        ),
{
    let ps = seq![a, b];
    assert(ps.drop_first() =~= seq![b]);
    assert(seq![x].drop_first() =~= Seq::<Value>::empty());
    assert(bind_spec(seq![b], frame_put(fr, a, x), Seq::<Value>::empty()) == Some(
        (seq![b], frame_put(fr, a, x)),
    ));
}

} // verus!

verus! {

// ---------------------------------------------------------------------------
// What the reader produces

proof fn lemma_sym_run(s: Seq<char>, p: int)
    requires
        0 <= p,
    ensures
        p <= sym_end(s, p),
        sym_end(s, p) <= s.len() || sym_end(s, p) == p,
        forall|k: int| p <= k < sym_end(s, p) ==> #[trigger] is_sym_char(s[k]),
    decreases s.len() - p,
{
    if 0 <= p < s.len() && is_sym_char(s[p]) {
        lemma_sym_run(s, p + 1);
    }
}

proof fn lemma_expr_readable(s: Seq<char>, i: int)
    requires
        0 <= i,
        forall|k: int| 0 <= k < s.len() ==> #[trigger] s[k] != '"',
    ensures
        expr_spec(s, i) matches Ok((v, _)) ==> readable(v),
    decreases s.len() - i, 0nat,
{
    let p = skip_ws(s, i);
    if p >= i && p < s.len() && !number_starts(s, p) {
        if is_sym_char(s[p]) {
            let e = sym_end(s, p);
            lemma_sym_run(s, p);
            let name = s.subrange(p, e);
            assert(sym_end(s, p) == sym_end(s, p + 1));
            lemma_sym_run(s, p + 1);
            assert(e > p);
            assert forall|k: int| 0 <= k < name.len() implies #[trigger] is_sym_char(name[k]) by {
                assert(is_sym_char(s[p + k]));
            }
            if name.len() > 1 {
                assert(name[1] == s[p + 1]);
            }
            assert(name[0] == s[p]);
            assert(readable_name(name));
        } else if s[p] == '(' {
            lemma_seq_readable(s, p + 1, Closer::Paren);
        } else if s[p] == '[' {
            lemma_seq_readable(s, p + 1, Closer::Bracket);
        }
    }
}

proof fn lemma_seq_readable(s: Seq<char>, i: int, close: Closer)
    requires
        0 <= i,
        forall|k: int| 0 <= k < s.len() ==> #[trigger] s[k] != '"',
    ensures
        seq_spec(s, i, close) matches Ok((vs, _)) ==> readable_all(vs),
    decreases s.len() - i, 1nat,
{
    let p = skip_ws(s, i);
    if p >= i && p < s.len() && starts_expr(s[p]) && !(close != Closer::End && s[p]
        == closer_char(close)) {
        lemma_expr_readable(s, p);
        match expr_spec(s, p) {
            Ok((v, j)) => {
                if p < j <= s.len() {
                    lemma_seq_readable(s, j, close);
                    match seq_spec(s, j, close) {
                        Ok((vs, _)) => {
                            let all = seq![v] + vs;
                            assert(all[0] == v);
                            assert(all.drop_first() =~= vs);
                        },
                        Err(_) => {},
                    }
                }
            },
            Err(_) => {},
        }
    }
}

/// For text without strings that the reader accepts, printing any of its
/// expressions and reading the printed text gives that expression back.
pub proof fn law_read_print_read(s: Seq<char>)
    requires
        forall|k: int| 0 <= k < s.len() ==> #[trigger] s[k] != '"',
        root_spec(s) is Ok,
    ensures
        ({
            let vs = items_of(root_spec(s));
            forall|k: int|
                0 <= k < vs.len() ==> #[trigger] expr_spec(print_spec(vs[k]), 0) == Ok::<
                    (Value, int),
                    ParseFail,
                >((vs[k], print_spec(vs[k]).len() as int)) && root_spec(print_spec(vs[k]))
                    == Ok::<Value, ParseFail>(Value::Sexpr(seq![vs[k]]))
        }),
{
    lemma_seq_readable(s, 0, Closer::End);
    let vs = items_of(root_spec(s));
    lemma_readable_all(vs);
    assert forall|k: int| 0 <= k < vs.len() implies #[trigger] expr_spec(print_spec(vs[k]), 0)
        == Ok::<(Value, int), ParseFail>((vs[k], print_spec(vs[k]).len() as int)) && root_spec(
        print_spec(vs[k]),
    ) == Ok::<Value, ParseFail>(Value::Sexpr(seq![vs[k]])) by {
        law_print_then_read(vs[k]);
    }
}

/// The expressions of a root S-expression.
pub open spec fn items_of(r: Result<Value, ParseFail>) -> Seq<Value> {
    match r {
        Ok(Value::Sexpr(vs)) => vs,
        _ => Seq::empty(),
    }
}

proof fn lemma_readable_all(vs: Seq<Value>)
    requires
        readable_all(vs),
    ensures
        forall|k: int| 0 <= k < vs.len() ==> #[trigger] readable(vs[k]),
    decreases vs.len(),
{
    if vs.len() > 0 {
        lemma_readable_all(vs.drop_first());
        assert forall|k: int| 0 <= k < vs.len() implies #[trigger] readable(vs[k]) by {
            if k > 0 {
                assert(vs.drop_first()[k - 1] == vs[k]);
            }
        }
    }
}

} // verus!

verus! {

// ---------------------------------------------------------------------------
// The standard environment

proof fn lemma_frame_put_other(f: Frame, k: Seq<char>, v: Value, k2: Seq<char>)
    requires
        k2 != k,
    ensures
        frame_get(frame_put(f, k, v), k2) == frame_get(f, k2),
{
    let g = frame_put(f, k, v);
    let p = frame_pos(f, k);
    lemma_frame_pos_cases(f, k);
    lemma_frame_pos_cases(f, k2);
    lemma_frame_pos_cases(g, k2);
    let q = frame_pos(f, k2);
    if q != -1 {
        assert(g[q] == f[q]);
        assert forall|j: int| 0 <= j < q implies g[j].0 != k2 by {
            if j != p {
                assert(g[j] == f[j]);
            }
        }
        lemma_frame_pos(g, k2, q);
    } else {
        if frame_pos(g, k2) != -1 {
            let j = frame_pos(g, k2);
            if j < f.len() && j != p {
                assert(g[j] == f[j]);
            }
        }
    }
}

pub open spec fn fresh_env(n: nat) -> Seq<Frame> {
    crate::builtin::install(seq![Seq::<(Seq<char>, Value)>::empty()], n)
}

proof fn lemma_install_step(n: nat)
    requires
        1 <= n <= crate::builtin::LIBRARY_SIZE,
    ensures
        fresh_env((n - 1) as nat).len() == 1,
        fresh_env(n) == seq![
            frame_put(
                fresh_env((n - 1) as nat)[0],
                crate::builtin::library_entry(n - 1).0,
                Value::Fun(crate::builtin::library_entry(n - 1).0, crate::builtin::library_entry(n - 1).1),
            ),
        ],
{
    lemma_install_len((n - 1) as nat);
    let prev = fresh_env((n - 1) as nat);
    let (k, b) = crate::builtin::library_entry(n - 1);
    assert(fresh_env(n) == env_insert(prev, k, Value::Fun(k, b)));
    assert(fresh_env(n) =~= seq![frame_put(prev[0], k, Value::Fun(k, b))]);
}

proof fn lemma_single_env(f: Frame, k: Seq<char>)
    ensures
        env_get(seq![f], k) == frame_get(f, k),
{
    assert(seq![f].drop_last() =~= Seq::<Frame>::empty());
    assert(seq![f].last() == f);
    assert(env_get(Seq::<Frame>::empty(), k) == None::<Value>);
}

proof fn lemma_install_binds(j: int, n: nat)
    requires
        0 <= j < n <= crate::builtin::LIBRARY_SIZE,
        forall|k: int|
            j < k < n ==> (#[trigger] crate::builtin::library_entry(k)).0
                != crate::builtin::library_entry(j).0,
    ensures
        fresh_env(n).len() == 1,
        frame_get(fresh_env(n)[0], crate::builtin::library_entry(j).0) == Some(
            Value::Fun(crate::builtin::library_entry(j).0, crate::builtin::library_entry(j).1),
        ),
    decreases n,
{
    lemma_install_step(n);
    let name = crate::builtin::library_entry(j).0;
    let prev = fresh_env((n - 1) as nat);
    let (k, b) = crate::builtin::library_entry(n - 1);
    if n - 1 > j {
        lemma_install_binds(j, (n - 1) as nat);
        lemma_frame_put_other(prev[0], k, Value::Fun(k, b), name);
    } else {
        lemma_frame_put_get(prev[0], k, Value::Fun(k, b));
    }
}

proof fn lemma_install_len(n: nat)
    requires
        n <= crate::builtin::LIBRARY_SIZE,
    ensures
        crate::builtin::install(seq![Seq::<(Seq<char>, Value)>::empty()], n).len() == 1,
    decreases n,
{
    if n > 0 {
        lemma_install_len((n - 1) as nat);
    }
}

/// In the standard environment, `(+ x y)` is the sum of two numbers whose sum
/// is a number, and `(/ x 0)` fails with `DivZero`.
pub proof fn law_standard_add_and_divide_by_zero(x: i64, y: i64, fuel: nat, ck: Seq<u32>)
    requires
        fuel > 0,
    ensures
        ({
            let env = crate::builtin::install(
                seq![Seq::<(Seq<char>, Value)>::empty()],
                crate::builtin::LIBRARY_SIZE as nat,
            );
            &&& i64::MIN <= x + y <= i64::MAX ==> eval_spec(
                env,
                Value::Sexpr(seq![Value::Sym("+"@), Value::Num(x), Value::Num(y)]),
                fuel,
                ck,
            ) == Some((env, Ok::<Value, Failure>(Value::Num((x + y) as i64)), ck))
            &&& eval_spec(
                env,
                Value::Sexpr(seq![Value::Sym("/"@), Value::Num(x), Value::Num(0)]),
                fuel,
                ck,
            ) == Some((env, Err::<Value, Failure>(Failure::Failed(LerrType::DivZero)), ck))
        }),
{
    lemma_library_names();
    let env = crate::builtin::install(
        seq![Seq::<(Seq<char>, Value)>::empty()],
        crate::builtin::LIBRARY_SIZE as nat,
    );
    lemma_install_binds(1, crate::builtin::LIBRARY_SIZE as nat);
    lemma_install_binds(4, crate::builtin::LIBRARY_SIZE as nat);
    lemma_install_len(crate::builtin::LIBRARY_SIZE as nat);
    assert(env =~= seq![env[0]]);
    lemma_single_env(env[0], "+"@);
    lemma_single_env(env[0], "/"@);
    law_add_and_divide_by_zero(env, "+"@, "+"@, Builtin::Add, x, y, fuel, ck);
    law_add_and_divide_by_zero(env, "/"@, "/"@, Builtin::Div, x, 0, fuel, ck);
}

proof fn lemma_library_names()
    ensures
        crate::builtin::library_entry(1) == ("+"@, Builtin::Add),
        crate::builtin::library_entry(4) == ("/"@, Builtin::Div),
        forall|k: int|
            1 < k < crate::builtin::LIBRARY_SIZE ==> (#[trigger] crate::builtin::library_entry(k)).0
                != "+"@,
        forall|k: int|
            4 < k < crate::builtin::LIBRARY_SIZE ==> (#[trigger] crate::builtin::library_entry(k)).0
                != "/"@,
{
    reveal(crate::builtin::library_entry);
    reveal_strlit("!");
    reveal_strlit("+");
    reveal_strlit("-");
    reveal_strlit("*");
    reveal_strlit("/");
    reveal_strlit("%");
    reveal_strlit("head");
    reveal_strlit("tail");
    reveal_strlit("list");
    reveal_strlit("eval");
    reveal_strlit("join");
    reveal_strlit("concat");
    reveal_strlit("\\");
    reveal_strlit("def");
    reveal_strlit("=");
    reveal_strlit("if");
    reveal_strlit("echo");
    reveal_strlit("rand");
    reveal_strlit("die");
    reveal_strlit("<");
    reveal_strlit(">");
    reveal_strlit(">=");
    reveal_strlit("<=");
    reveal_strlit("==");
    reveal_strlit("!=");
    reveal_strlit("&&");
    reveal_strlit("||");
    assert forall|k: int| 1 < k < crate::builtin::LIBRARY_SIZE implies (#[trigger] crate::builtin::library_entry(k)).0 != "+"@ by {
        let t = crate::builtin::library_entry(k).0;
        if t.len() == 1 {
            assert(t[0] != '+');
        }
    }
    assert forall|k: int| 4 < k < crate::builtin::LIBRARY_SIZE implies (#[trigger] crate::builtin::library_entry(k)).0 != "/"@ by {
        let t = crate::builtin::library_entry(k).0;
        if t.len() == 1 {
            assert(t[0] != '/');
        }
    }
}

} // verus!
