//! The evaluator: reduction of symbols and S-expressions, application of
//! builtins and closures, currying and rest parameters.
//!
//! Evaluation is bounded by a depth budget (`fuel`): every S-expression
//! entered costs one unit, and running out is the error `DepthExceeded`.
//! The builtin `rand` reads the clock, so the semantics below takes the
//! sequence of clock readings as an input: `rand` consumes the next one. The
//! contracts say that there are readings, each below one billion, with which
//! the semantics gives exactly the result and the environment afterwards.
use vstd::prelude::*;
use vstd::string::StrSliceExecFns;
use crate::builtin::{
    apply_pure, assign_spec, builtin_assign, builtin_lambda, builtin_rand, failed,
    items, lambda_spec, num_of, pure_spec,
};
use crate::env::{Lenv, env_get, env_pop, frame_put};
use crate::value::{
    Builtin, Failure, Frame, Lerr, LerrType, Llambda, Lval, Value, fail,
    lemma_vals_view, lemma_vals_view_ext, names_view, outcome, vals_view,
};

verus! {

/// The depth budget of `eval` and `call`.
pub const DEPTH: u64 = u64::MAX;

/// A step of evaluation: the environment afterwards, the result, and the
/// clock readings not consumed; `None` when the readings run out.
pub type Step = Option<(Seq<Frame>, Result<Value, Failure>, Seq<u32>)>;

/// Clock readings as the clock gives them: below one billion.
pub open spec fn readings(u: Seq<u32>) -> bool {
    forall|i: int| 0 <= i < u.len() ==> #[trigger] u[i] < 1_000_000_000
}

/// Binding of arguments to parameters, one at a time. `None` when there are
/// more arguments than parameters, or when `:` is not followed by exactly one
/// name. A `:` binds the name after it to a list of all remaining arguments.
/// The result is the parameters still unbound and the extended frame.
pub open spec fn bind_spec(ps: Seq<Seq<char>>, fr: Frame, args: Seq<Value>) -> Option<
    (Seq<Seq<char>>, Frame),
>
    decreases args.len(),
{
    if args.len() == 0 {
        Some((ps, fr))
    } else if ps.len() == 0 {
        None
    } else if ps[0] == seq![':'] {
        if ps.len() != 2 {
            None
        } else {
            Some((Seq::empty(), frame_put(fr, ps[1], Value::Qexpr(args))))
        }
    } else {
        bind_spec(ps.drop_first(), frame_put(fr, ps[0], args[0]), args.drop_first())
    }
}

pub open spec fn eval_spec(env: Seq<Frame>, e: Value, fuel: nat, ck: Seq<u32>) -> Step
    decreases fuel, 0nat, 0nat,
{
    match e {
        Value::Sym(s) => match env_get(env, s) {
            Some(v) => Some((env, Ok(v), ck)),
            None => Some((env, failed(LerrType::UnboundSymbol), ck)),
        },
        Value::Sexpr(es) => if fuel == 0 {
            Some((env, failed(LerrType::DepthExceeded), ck))
        } else {
            eval_sexpr_spec(env, es, (fuel - 1) as nat, ck)
        },
        _ => Some((env, Ok(e), ck)),
    }
}

/// Evaluation of the expressions from left to right, stopping at the first error.
pub open spec fn eval_all_spec(env: Seq<Frame>, es: Seq<Value>, fuel: nat, ck: Seq<u32>) -> Option<
    (Seq<Frame>, Result<Seq<Value>, Failure>, Seq<u32>),
>
    decreases fuel, 1nat, es.len(),
{
    if es.len() == 0 {
        Some((env, Ok(Seq::empty()), ck))
    } else {
        match eval_all_spec(env, es.drop_last(), fuel, ck) {
            None => None,
            Some((e1, Err(f), c1)) => Some((e1, Err(f), c1)),
            Some((e1, Ok(rs), c1)) => match eval_spec(e1, es.last(), fuel, c1) {
                None => None,
                Some((e2, Err(f), c2)) => Some((e2, Err(f), c2)),
                Some((e2, Ok(v), c2)) => Some((e2, Ok(rs.push(v)), c2)),
            },
        }
    }
}

pub open spec fn eval_sexpr_spec(env: Seq<Frame>, es: Seq<Value>, fuel: nat, ck: Seq<u32>) -> Step
    decreases fuel, 2nat, 0nat,
{
    match eval_all_spec(env, es, fuel, ck) {
        None => None,
        Some((e1, Err(f), c1)) => Some((e1, Err(f), c1)),
        Some((e1, Ok(rs), c1)) => if rs.len() == 0 {
            Some((e1, Ok(Value::Sexpr(rs)), c1))
        } else {
            match rs[0] {
                Value::Fun(_, b) => apply_spec(e1, b, rs.drop_first(), fuel, c1),
                Value::Lambda(ps, body, fr) => call_spec(
                    e1,
                    ps,
                    body,
                    fr,
                    rs.drop_first(),
                    fuel,
                    c1,
                ),
                _ => if rs.len() == 1 {
                    Some((e1, Ok(rs[0]), c1))
                } else {
                    Some((e1, failed(LerrType::BadOp), c1))
                },
            }
        },
    }
}

pub open spec fn apply_spec(
    env: Seq<Frame>,
    b: Builtin,
    args: Seq<Value>,
    fuel: nat,
    ck: Seq<u32>,
) -> Step
    decreases fuel, 1nat, 0nat,
{
    match b {
        Builtin::If => if args.len() != 3 {
            Some((env, failed(LerrType::IncorrectParamCount), ck))
        } else if !(args[0] is Num && args[1] is Qexpr && args[2] is Qexpr) {
            Some((env, failed(LerrType::WrongType), ck))
        } else if num_of(args[0]) == 0 {
            eval_spec(env, Value::Sexpr(items(args[2])), fuel, ck)
        } else {
            eval_spec(env, Value::Sexpr(items(args[1])), fuel, ck)
        },
        Builtin::Eval => if args.len() != 1 {
            Some((env, failed(LerrType::IncorrectParamCount), ck))
        } else if args[0] is Qexpr {
            eval_spec(env, Value::Sexpr(items(args[0])), fuel, ck)
        } else {
            eval_spec(env, args[0], fuel, ck)
        },
        Builtin::Lambda => Some((env, lambda_spec(env, args), ck)),
        Builtin::Def => Some((assign_spec(true, env, args).0, assign_spec(true, env, args).1, ck)),
        Builtin::Assign => Some(
            (assign_spec(false, env, args).0, assign_spec(false, env, args).1, ck),
        ),
        Builtin::Rand => if args.len() != 0 {
            Some((env, failed(LerrType::IncorrectParamCount), ck))
        } else if ck.len() == 0 {
            None
        } else {
            Some((env, Ok(Value::Num(ck[0] as i64)), ck.drop_first()))
        },
        _ => Some((env, pure_spec(b, args), ck)),
    }
}

/// Application of a closure: bind; with parameters left, the partially
/// applied closure; else the body, evaluated in a new innermost frame that is
/// removed afterwards.
pub open spec fn call_spec(
    env: Seq<Frame>,
    ps: Seq<Seq<char>>,
    body: Seq<Value>,
    fr: Frame,
    args: Seq<Value>,
    fuel: nat,
    ck: Seq<u32>,
) -> Step
    decreases fuel, 1nat, 0nat,
{
    match bind_spec(ps, fr, args) {
        None => Some((env, failed(LerrType::IncorrectParamCount), ck)),
        Some((rest, fr2)) => if rest.len() == 0 {
            match eval_spec(env.push(fr2), Value::Sexpr(body), fuel, ck) {
                None => None,
                Some((e2, r, c2)) => Some((env_pop(e2), r, c2)),
            }
        } else {
            Some((env, Ok(Value::Lambda(rest, body, fr2)), ck))
        },
    }
}

/// With the readings `u` first, evaluation of `e` ends in `env2` with `res`,
/// whatever readings follow.
pub open spec fn eval_by(
    env: Seq<Frame>,
    e: Value,
    fuel: nat,
    u: Seq<u32>,
    env2: Seq<Frame>,
    res: Result<Value, Failure>,
) -> bool {
    forall|rest: Seq<u32>| #[trigger] eval_spec(env, e, fuel, u + rest) == Some((env2, res, rest))
}

pub open spec fn sexpr_by(
    env: Seq<Frame>,
    es: Seq<Value>,
    fuel: nat,
    u: Seq<u32>,
    env2: Seq<Frame>,
    res: Result<Value, Failure>,
) -> bool {
    forall|rest: Seq<u32>| #[trigger] eval_sexpr_spec(env, es, fuel, u + rest) == Some(
        (env2, res, rest),
    )
}

pub open spec fn apply_by(
    env: Seq<Frame>,
    b: Builtin,
    args: Seq<Value>,
    fuel: nat,
    u: Seq<u32>,
    env2: Seq<Frame>,
    res: Result<Value, Failure>,
) -> bool {
    forall|rest: Seq<u32>| #[trigger] apply_spec(env, b, args, fuel, u + rest) == Some(
        (env2, res, rest),
    )
}

pub open spec fn call_by(
    env: Seq<Frame>,
    ps: Seq<Seq<char>>,
    body: Seq<Value>,
    fr: Frame,
    args: Seq<Value>,
    fuel: nat,
    u: Seq<u32>,
    env2: Seq<Frame>,
    res: Result<Value, Failure>,
) -> bool {
    forall|rest: Seq<u32>| #[trigger] call_spec(env, ps, body, fr, args, fuel, u + rest) == Some(
        (env2, res, rest),
    )
}

proof fn lemma_assoc(a: Seq<u32>, b: Seq<u32>, c: Seq<u32>)
    ensures
        (a + b) + c == a + (b + c),
        Seq::<u32>::empty() + c == c,
        readings(a) && readings(b) ==> readings(a + b),
{
    assert((a + b) + c =~= a + (b + c));
    assert(Seq::<u32>::empty() + c =~= c);
    if readings(a) && readings(b) {
        assert forall|i: int| 0 <= i < (a + b).len() implies #[trigger] (a + b)[i] < 1_000_000_000 by {
            if i < a.len() {
                assert((a + b)[i] == a[i]);
            } else {
                assert((a + b)[i] == b[i - a.len()]);
            }
        }
    }
}

proof fn lemma_eval_all_stops(env: Seq<Frame>, es: Seq<Value>, fuel: nat, ck: Seq<u32>, i: int)
    requires
        0 <= i <= es.len(),
        !(eval_all_spec(env, es.take(i), fuel, ck) matches Some((_, Ok(_), _))),
    ensures
        eval_all_spec(env, es, fuel, ck) == eval_all_spec(env, es.take(i), fuel, ck),
    decreases es.len() - i,
{
    if i < es.len() {
        assert(es.take(i + 1).drop_last() =~= es.take(i));
        lemma_eval_all_stops(env, es, fuel, ck, i + 1);
    } else {
        assert(es.take(i) =~= es);
    }
}

fn is_rest_marker(s: &String) -> (r: bool)
    ensures
        r == (s@ == seq![':']),
{
    let t = s.as_str();
    if t.unicode_len() != 1 {
        return false;
    }
    let c = t.get_char(0);
    if c == ':' {
        assert(s@ =~= seq![':']);
        true
    } else {
        false
    }
}


/// Evaluates `expr` within a depth budget of `fuel`.
pub fn eval_with(env: &mut Lenv, expr: Lval, fuel: u64) -> (r: Result<Lval, Lerr>)
    ensures
        exists|u: Seq<u32>|
            readings(u) && eval_by(old(env)@, expr@, fuel as nat, u, final(env)@, outcome(r)),
{
    let (r, Ghost(u)) = eval_rec(env, expr, fuel);
    assert(readings(u));
    r
}

/// No clock readings.
fn empty_clock() -> (u: Ghost<Seq<u32>>)
    ensures
        u@ == Seq::<u32>::empty(),
        readings(u@),
        forall|rest: Seq<u32>| #[trigger] (u@ + rest) == rest,
{
    proof {
        assert forall|rest: Seq<u32>| #[trigger] (Seq::<u32>::empty() + rest) == rest by {
            lemma_assoc(Seq::empty(), Seq::empty(), rest);
        }
    }
    Ghost(Seq::empty())
}

fn eval_rec(env: &mut Lenv, expr: Lval, fuel: u64) -> (ret: (Result<Lval, Lerr>, Ghost<Seq<u32>>))
    ensures
        readings(ret.1@),
        eval_by(old(env)@, expr@, fuel as nat, ret.1@, final(env)@, outcome(ret.0)),
    decreases fuel, 0nat, 0nat,
{
    let ghost e0 = env@;
    let ghost x = expr@;
    match expr {
        Lval::Sym(s) => {
            let r = eval_symbol(env, s);
            let u = empty_clock();
            proof {
                assert forall|rest: Seq<u32>| #[trigger] eval_spec(e0, x, fuel as nat, u@ + rest)
                    == Some((env@, outcome(r), rest)) by {
                    assert(u@ + rest == rest);
                }
            }
            (r, u)
        },
        Lval::Sexpr(es) => {
            if fuel == 0 {
                let r = Err(fail(LerrType::DepthExceeded, "Evaluation nested too deeply"));
                let u = empty_clock();
                proof {
                    assert forall|rest: Seq<u32>| #[trigger] eval_spec(e0, x, fuel as nat, u@ + rest)
                        == Some((env@, outcome(r), rest)) by {
                        assert(u@ + rest == rest);
                    }
                }
                (r, u)
            } else {
                let (r, u) = eval_sexpression(env, es, fuel - 1);
                proof {
                    assert forall|rest: Seq<u32>| #[trigger] eval_spec(e0, x, fuel as nat, u@ + rest)
                        == Some((env@, outcome(r), rest)) by {
                        assert(eval_sexpr_spec(e0, vals_view(es@), (fuel - 1) as nat, u@ + rest)
                            == Some((env@, outcome(r), rest)));
                    }
                }
                (r, u)
            }
        },
        _ => {
            let u = empty_clock();
            proof {
                assert forall|rest: Seq<u32>| #[trigger] eval_spec(e0, x, fuel as nat, u@ + rest)
                    == Some((env@, Ok::<Value, Failure>(x), rest)) by {
                    assert(u@ + rest == rest);
                }
            }
            (Ok(expr), u)
        },
    }
}

/// The innermost binding of a symbol.
pub fn eval_symbol(env: &mut Lenv, s: String) -> (r: Result<Lval, Lerr>)
    ensures
        final(env)@ == old(env)@,
        outcome(r) == match env_get(old(env)@, s@) {
            Some(v) => Ok(v),
            None => failed(LerrType::UnboundSymbol),
        },
{
    match env.get(s.as_str()) {
        Some(v) => Ok(v),
        None => Err(fail(LerrType::UnboundSymbol, "This symbol has not been defined")),
    }
}

fn eval_sexpression(env: &mut Lenv, es: Vec<Lval>, fuel: u64) -> (ret: (
    Result<Lval, Lerr>,
    Ghost<Seq<u32>>,
))
    ensures
        readings(ret.1@),
        sexpr_by(old(env)@, vals_view(es@), fuel as nat, ret.1@, final(env)@, outcome(ret.0)),
    decreases fuel, 2nat, 0nat,
{
    let ghost e0 = env@;
    let ghost xs = vals_view(es@);
    proof {
        lemma_vals_view(es@);
    }
    let mut results: Vec<Lval> = Vec::new();
    let mut i: usize = 0;
    let ghost mut used: Seq<u32> = Seq::empty();
    assert(xs.take(0) =~= Seq::<Value>::empty());
    proof {
        assert forall|rest: Seq<u32>| #[trigger] eval_all_spec(e0, xs.take(0), fuel as nat, used + rest)
            == Some((env@, Ok::<Seq<Value>, Failure>(vals_view(results@)), rest)) by {
            lemma_assoc(used, used, rest);
            lemma_vals_view(results@);
            assert(vals_view(results@) =~= Seq::<Value>::empty());
        }
    }
    while i < es.len()
        invariant
            i <= es.len(),
            xs == vals_view(es@),
            xs.len() == es.len(),
            forall|j: int| 0 <= j < es.len() ==> #[trigger] xs[j] == es@[j]@,
            old(env)@ == e0,
            readings(used),
            forall|rest: Seq<u32>| #[trigger] eval_all_spec(e0, xs.take(i as int), fuel as nat, used + rest)
                == Some((env@, Ok::<Seq<Value>, Failure>(vals_view(results@)), rest)),
        decreases es.len() - i,
    {
        assert(xs.take(i + 1).drop_last() =~= xs.take(i as int));
        assert(xs.take(i + 1).last() == es@[i as int]@);
        let child = es[i].deep_clone();
        let ghost env_mid = env@;
        let ghost rs_before = vals_view(results@);
        let (res, Ghost(u)) = eval_rec(env, child, fuel);
        proof {
            lemma_assoc(used, u, Seq::empty());
        }
        match res {
            Ok(v) => {
                proof {
                    lemma_vals_view(results@);
                }
                let ghost old_results = results@;
                results.push(v);
                proof {
                    lemma_vals_view(results@);
                    lemma_vals_view_ext(results@, vals_view(old_results).push(v@));
                    assert forall|rest: Seq<u32>| #[trigger] eval_all_spec(
                        e0,
                        xs.take(i + 1),
                        fuel as nat,
                        (used + u) + rest,
                    ) == Some((env@, Ok::<Seq<Value>, Failure>(vals_view(results@)), rest)) by {
                        lemma_assoc(used, u, rest);
                        assert(eval_all_spec(e0, xs.take(i as int), fuel as nat, used + (u + rest))
                            == Some((env_mid, Ok::<Seq<Value>, Failure>(rs_before), u + rest)));
                        assert(eval_spec(env_mid, es@[i as int]@, fuel as nat, u + rest) == Some(
                            (env@, Ok::<Value, Failure>(v@), rest),
                        ));
                    }
                    used = used + u;
                }
            },
            Err(e) => {
                proof {
                    assert forall|rest: Seq<u32>| #[trigger] eval_sexpr_spec(
                        e0,
                        xs,
                        fuel as nat,
                        (used + u) + rest,
                    ) == Some((env@, Err::<Value, Failure>(e.fault()), rest)) by {
                        lemma_assoc(used, u, rest);
                        assert(eval_all_spec(e0, xs.take(i as int), fuel as nat, used + (u + rest))
                            == Some((env_mid, Ok::<Seq<Value>, Failure>(rs_before), u + rest)));
                        assert(eval_spec(env_mid, es@[i as int]@, fuel as nat, u + rest) == Some(
                            (env@, Err::<Value, Failure>(e.fault()), rest),
                        ));
                        lemma_eval_all_stops(e0, xs, fuel as nat, (used + u) + rest, i + 1);
                    }
                }
                return (Err(e), Ghost(used + u));
            },
        }
        i += 1;
    }
    assert(xs.take(i as int) =~= xs);
    proof {
        lemma_vals_view(results@);
    }
    if results.len() == 0 {
        let r = Ok(Lval::Sexpr(results));
        proof {
            assert(vals_view(results@) =~= Seq::<Value>::empty());
            assert forall|rest: Seq<u32>| #[trigger] eval_sexpr_spec(e0, xs, fuel as nat, used + rest)
                == Some((env@, outcome(r), rest)) by {
                assert(eval_all_spec(e0, xs.take(i as int), fuel as nat, used + rest) == Some(
                    (env@, Ok::<Seq<Value>, Failure>(vals_view(results@)), rest),
                ));
            }
        }
        return (r, Ghost(used));
    }
    let ghost rs = vals_view(results@);
    let ghost e1 = env@;
    let first = results.remove(0);
    proof {
        lemma_vals_view(results@);
        lemma_vals_view_ext(results@, rs.drop_first());
        assert(first@ == rs[0]);
    }
    match first {
        Lval::Fun(_, b) => {
            let (r, Ghost(u)) = apply_builtin(env, b, results, fuel);
            proof {
                lemma_assoc(used, u, Seq::empty());
                assert forall|rest: Seq<u32>| #[trigger] eval_sexpr_spec(e0, xs, fuel as nat, (used + u) + rest)
                    == Some((env@, outcome(r), rest)) by {
                    lemma_assoc(used, u, rest);
                    assert(eval_all_spec(e0, xs, fuel as nat, used + (u + rest)) == Some(
                        (e1, Ok::<Seq<Value>, Failure>(rs), u + rest),
                    ));
                    assert(apply_spec(e1, b, rs.drop_first(), fuel as nat, u + rest) == Some(
                        (env@, outcome(r), rest),
                    ));
                }
            }
            (r, Ghost(used + u))
        },
        Lval::Lambda(l) => {
            let ghost ps = names_view(l.args@);
            let ghost body = vals_view(l.body@);
            let ghost fr = l.env@;
            let (r, Ghost(u)) = call_rec(env, l, results, fuel);
            proof {
                lemma_assoc(used, u, Seq::empty());
                assert forall|rest: Seq<u32>| #[trigger] eval_sexpr_spec(e0, xs, fuel as nat, (used + u) + rest)
                    == Some((env@, outcome(r), rest)) by {
                    lemma_assoc(used, u, rest);
                    assert(eval_all_spec(e0, xs, fuel as nat, used + (u + rest)) == Some(
                        (e1, Ok::<Seq<Value>, Failure>(rs), u + rest),
                    ));
                    assert(call_spec(e1, ps, body, fr, rs.drop_first(), fuel as nat, u + rest) == Some(
                        (env@, outcome(r), rest),
                    ));
                }
            }
            (r, Ghost(used + u))
        },
        _ => {
            let r = if results.len() == 0 {
                Ok(first)
            } else {
                Err(fail(LerrType::BadOp, "The first element is not a function"))
            };
            proof {
                assert forall|rest: Seq<u32>| #[trigger] eval_sexpr_spec(e0, xs, fuel as nat, used + rest)
                    == Some((env@, outcome(r), rest)) by {
                    assert(eval_all_spec(e0, xs, fuel as nat, used + rest) == Some(
                        (e1, Ok::<Seq<Value>, Failure>(rs), rest),
                    ));
                }
            }
            (r, Ghost(used))
        },
    }
}

fn apply_builtin(env: &mut Lenv, b: Builtin, operands: Vec<Lval>, fuel: u64) -> (ret: (
    Result<Lval, Lerr>,
    Ghost<Seq<u32>>,
))
    ensures
        readings(ret.1@),
        apply_by(old(env)@, b, vals_view(operands@), fuel as nat, ret.1@, final(env)@, outcome(ret.0)),
    decreases fuel, 1nat, 1nat,
{
    let ghost e0 = env@;
    let ghost args = vals_view(operands@);
    if b == Builtin::If {
        return if_rec(env, operands, fuel);
    }
    if b == Builtin::Eval {
        return eval_builtin_rec(env, operands, fuel);
    }
    if b == Builtin::Rand {
        let r = builtin_rand(env, operands);
        let ghost n: i64 = match r {
            Ok(Lval::Num(n)) => n,
            _ => 0,
        };
        let ghost u: Seq<u32> = if operands.len() == 0 {
            seq![n as u32]
        } else {
            Seq::empty()
        };
        proof {
            assert(readings(u));
            assert forall|rest: Seq<u32>| #[trigger] apply_spec(e0, b, args, fuel as nat, u + rest)
                == Some((env@, outcome(r), rest)) by {
                lemma_vals_view(operands@);
                if operands.len() == 0 {
                    assert((u + rest)[0] == n as u32);
                    assert((u + rest).drop_first() =~= rest);
                } else {
                    assert(u + rest =~= rest);
                }
            }
        }
        return (r, Ghost(u));
    }
    let r = match b {
        Builtin::Lambda => builtin_lambda(env, operands),
        Builtin::Def => builtin_assign(true, env, operands),
        Builtin::Assign => builtin_assign(false, env, operands),
        _ => apply_pure(env, b, operands),
    };
    let u = empty_clock();
    proof {
        assert forall|rest: Seq<u32>| #[trigger] apply_spec(e0, b, args, fuel as nat, u@ + rest)
            == Some((env@, outcome(r), rest)) by {
            assert(u@ + rest == rest);
        }
    }
    (r, u)
}

fn if_rec(env: &mut Lenv, operands: Vec<Lval>, fuel: u64) -> (ret: (Result<Lval, Lerr>, Ghost<Seq<u32>>))
    ensures
        readings(ret.1@),
        apply_by(
            old(env)@,
            Builtin::If,
            vals_view(operands@),
            fuel as nat,
            ret.1@,
            final(env)@,
            outcome(ret.0),
        ),
    decreases fuel, 1nat, 0nat,
{
    let ghost e0 = env@;
    let ghost args = vals_view(operands@);
    proof {
        lemma_vals_view(operands@);
    }
    if operands.len() != 3 {
        let r = Err(fail(LerrType::IncorrectParamCount, "Function if needed 3 args"));
        let u = empty_clock();
        proof {
            assert forall|rest: Seq<u32>| #[trigger] apply_spec(e0, Builtin::If, args, fuel as nat, u@ + rest)
                == Some((env@, outcome(r), rest)) by {
                assert(u@ + rest == rest);
            }
        }
        return (r, u);
    }
    let mut operands = operands;
    let els = operands.pop().unwrap();
    let then = operands.pop().unwrap();
    let cond = operands.pop().unwrap();
    match (cond, then, els) {
        (Lval::Num(c), Lval::Qexpr(t), Lval::Qexpr(e)) => {
            let ghost tv = vals_view(t@);
            let ghost ev = vals_view(e@);
            let (r, u) = if c == 0 {
                eval_rec(env, Lval::Sexpr(e), fuel)
            } else {
                eval_rec(env, Lval::Sexpr(t), fuel)
            };
            proof {
                assert forall|rest: Seq<u32>| #[trigger] apply_spec(e0, Builtin::If, args, fuel as nat, u@ + rest)
                    == Some((env@, outcome(r), rest)) by {
                    if c == 0 {
                        assert(eval_spec(e0, Value::Sexpr(ev), fuel as nat, u@ + rest) == Some(
                            (env@, outcome(r), rest),
                        ));
                    } else {
                        assert(eval_spec(e0, Value::Sexpr(tv), fuel as nat, u@ + rest) == Some(
                            (env@, outcome(r), rest),
                        ));
                    }
                }
            }
            (r, u)
        },
        _ => {
            let r = Err(fail(LerrType::WrongType, "Function if needed a number and two Qexprs"));
            let u = empty_clock();
            proof {
                assert forall|rest: Seq<u32>| #[trigger] apply_spec(e0, Builtin::If, args, fuel as nat, u@ + rest)
                    == Some((env@, outcome(r), rest)) by {
                    assert(u@ + rest == rest);
                }
            }
            (r, u)
        },
    }
}

fn eval_builtin_rec(env: &mut Lenv, operands: Vec<Lval>, fuel: u64) -> (ret: (
    Result<Lval, Lerr>,
    Ghost<Seq<u32>>,
))
    ensures
        readings(ret.1@),
        apply_by(
            old(env)@,
            Builtin::Eval,
            vals_view(operands@),
            fuel as nat,
            ret.1@,
            final(env)@,
            outcome(ret.0),
        ),
    decreases fuel, 1nat, 0nat,
{
    let ghost e0 = env@;
    let ghost args = vals_view(operands@);
    proof {
        lemma_vals_view(operands@);
    }
    if operands.len() != 1 {
        let r = Err(fail(LerrType::IncorrectParamCount, "Function eval needed 1 arg"));
        let u = empty_clock();
        proof {
            assert forall|rest: Seq<u32>| #[trigger] apply_spec(e0, Builtin::Eval, args, fuel as nat, u@ + rest)
                == Some((env@, outcome(r), rest)) by {
                assert(u@ + rest == rest);
            }
        }
        return (r, u);
    }
    let mut operands = operands;
    let arg = operands.pop().unwrap();
    let ghost a = arg@;
    let (r, u) = match arg {
        Lval::Qexpr(q) => eval_rec(env, Lval::Sexpr(q), fuel),
        _ => eval_rec(env, arg, fuel),
    };
    proof {
        assert forall|rest: Seq<u32>| #[trigger] apply_spec(e0, Builtin::Eval, args, fuel as nat, u@ + rest)
            == Some((env@, outcome(r), rest)) by {
            if a is Qexpr {
                assert(eval_spec(e0, Value::Sexpr(items(a)), fuel as nat, u@ + rest) == Some(
                    (env@, outcome(r), rest),
                ));
            } else {
                assert(eval_spec(e0, a, fuel as nat, u@ + rest) == Some((env@, outcome(r), rest)));
            }
        }
    }
    (r, u)
}

/// Applies a closure to arguments within a depth budget of `fuel`.
pub fn call_with(env: &mut Lenv, func: Llambda, args: Vec<Lval>, fuel: u64) -> (r: Result<
    Lval,
    Lerr,
>)
    ensures
        exists|u: Seq<u32>|
            readings(u) && call_by(
                old(env)@,
                names_view(func.args@),
                vals_view(func.body@),
                func.env@,
                vals_view(args@),
                fuel as nat,
                u,
                final(env)@,
                outcome(r),
            ),
{
    let (r, Ghost(u)) = call_rec(env, func, args, fuel);
    assert(readings(u));
    r
}

fn call_rec(env: &mut Lenv, func: Llambda, args: Vec<Lval>, fuel: u64) -> (ret: (
    Result<Lval, Lerr>,
    Ghost<Seq<u32>>,
))
    ensures
        readings(ret.1@),
        call_by(
            old(env)@,
            names_view(func.args@),
            vals_view(func.body@),
            func.env@,
            vals_view(args@),
            fuel as nat,
            ret.1@,
            final(env)@,
            outcome(ret.0),
        ),
    decreases fuel, 1nat, 0nat,
{
    let ghost xs = vals_view(args@);
    let ghost target = bind_spec(names_view(func.args@), func.env@, xs);
    proof {
        lemma_vals_view(args@);
    }
    let ghost e0 = env@;
    let ghost b0 = func.body@;
    let ghost ps0 = names_view(func.args@);
    let ghost fr0 = func.env@;
    let ghost body0 = vals_view(func.body@);
    let mut f = func;
    let mut j: usize = 0;
    assert(xs.subrange(0, xs.len() as int) =~= xs);
    while j < args.len()
        invariant
            j <= args.len(),
            env@ == e0,
            old(env)@ == e0,
            f.body@ == b0,
            body0 == vals_view(b0),
            target == bind_spec(ps0, fr0, xs),
            ps0 == names_view(func.args@),
            fr0 == func.env@,
            body0 == vals_view(func.body@),
            xs == vals_view(args@),
            xs.len() == args.len(),
            forall|k: int| 0 <= k < args.len() ==> #[trigger] xs[k] == args@[k]@,
            target == bind_spec(
                names_view(f.args@),
                f.env@,
                xs.subrange(j as int, xs.len() as int),
            ),
        decreases args.len() - j,
    {
        let ghost rest_args = xs.subrange(j as int, xs.len() as int);
        if f.args.len() == 0 {
            return (
                Err(fail(LerrType::IncorrectParamCount, "Function was given too many args")),
                empty_clock(),
            );
        }
        let ghost ps = names_view(f.args@);
        let sym = f.args.remove(0);
        assert(names_view(f.args@) =~= ps.drop_first());
        assert(ps[0] == sym@);
        if is_rest_marker(&sym) {
            if f.args.len() != 1 {
                return (
                    Err(fail(LerrType::IncorrectParamCount, ": needs to be followed by one name")),
                    empty_clock(),
                );
            }
            let name = f.args.remove(0);
            assert(ps[1] == name@);
            let mut rest: Vec<Lval> = Vec::new();
            let mut k: usize = j;
            while k < args.len()
                invariant
                    j <= k <= args.len(),
                    xs.len() == args.len(),
                    forall|m: int| 0 <= m < args.len() ==> #[trigger] xs[m] == args@[m]@,
                    rest@.len() == k - j,
                    forall|m: int| 0 <= m < k - j ==> #[trigger] rest@[m]@ == xs[j + m],
                decreases args.len() - k,
            {
                rest.push(args[k].deep_clone());
                k += 1;
            }
            proof {
                lemma_vals_view_ext(rest@, rest_args);
            }
            f.env.insert(name.as_str(), Lval::Qexpr(rest));
            assert(names_view(f.args@) =~= Seq::<Seq<char>>::empty());
            assert(xs.subrange(args.len() as int, xs.len() as int) =~= Seq::<Value>::empty());
            j = args.len();
        } else {
            let v = args[j].deep_clone();
            assert(rest_args[0] == v@);
            f.env.insert(sym.as_str(), v);
            assert(rest_args.drop_first() =~= xs.subrange(j + 1, xs.len() as int));
            j += 1;
        }
    }
    assert(xs.subrange(j as int, xs.len() as int) =~= Seq::<Value>::empty());
    if f.args.len() == 0 {
        let ghost fr2 = f.env@;
        env.push(f.env);
        let (res, u) = eval_rec(env, Lval::Sexpr(f.body), fuel);
        env.pop();
        proof {
            assert forall|rest: Seq<u32>| #[trigger] call_spec(e0, ps0, body0, fr0, xs, fuel as nat, u@ + rest)
                == Some((env@, outcome(res), rest)) by {
                assert(eval_spec(e0.push(fr2), Value::Sexpr(body0), fuel as nat, u@ + rest)
                    matches Some((_, _, _)));
            }
        }
        (res, u)
    } else {
        (Ok(Lval::Lambda(f)), empty_clock())
    }
}


/// Evaluates `expr`: a symbol is looked up, an S-expression is reduced, any
/// other value is returned as it is.
pub fn eval(env: &mut Lenv, expr: Lval) -> (r: Result<Lval, Lerr>)
    ensures
        exists|u: Seq<u32>|
            readings(u) && eval_by(old(env)@, expr@, DEPTH as nat, u, final(env)@, outcome(r)),
{
    eval_with(env, expr, DEPTH)
}

/// Applies a closure to arguments.
pub fn call(env: &mut Lenv, func: Llambda, args: Vec<Lval>) -> (r: Result<Lval, Lerr>)
    ensures
        exists|u: Seq<u32>|
            readings(u) && call_by(
                old(env)@,
                names_view(func.args@),
                vals_view(func.body@),
                func.env@,
                vals_view(args@),
                DEPTH as nat,
                u,
                final(env)@,
                outcome(r),
            ),
{
    call_with(env, func, args, DEPTH)
}

/// `if`: a number and two quoted branches; evaluates the first branch when
/// the number is not zero, else the second.
pub fn builtin_if(env: &mut Lenv, operands: Vec<Lval>) -> (r: Result<Lval, Lerr>)
    ensures
        exists|u: Seq<u32>|
            readings(u) && apply_by(
                old(env)@,
                Builtin::If,
                vals_view(operands@),
                DEPTH as nat,
                u,
                final(env)@,
                outcome(r),
            ),
{
    let (r, Ghost(u)) = if_rec(env, operands, DEPTH);
    assert(readings(u));
    r
}

/// `eval`: evaluates a quoted list as an S-expression, anything else as it is.
pub fn builtin_eval(env: &mut Lenv, operands: Vec<Lval>) -> (r: Result<Lval, Lerr>)
    ensures
        exists|u: Seq<u32>|
            readings(u) && apply_by(
                old(env)@,
                Builtin::Eval,
                vals_view(operands@),
                DEPTH as nat,
                u,
                final(env)@,
                outcome(r),
            ),
{
    let (r, Ghost(u)) = eval_builtin_rec(env, operands, DEPTH);
    assert(readings(u));
    r
}

} // verus!
