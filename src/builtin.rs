//! The builtins that do not evaluate: arithmetic, comparison, list and text
//! operations, closure construction and definitions.
use vstd::prelude::*;
use vstd::string::StringExecFns;
use crate::env::{Lenv, env_define, env_insert, env_wf};
use crate::print::{print_spec, string_of};
use crate::value::{
    Builtin, Failure, Frame, Lerr, LerrType, Llambda, Lookup, Lval, Value, fail, lemma_vals_view,
    lemma_vals_view_ext, names_view, outcome, vals_view,
};

verus! {

#[verifier::external_type_specification]
#[verifier::external_body]
pub struct ExSystemTime(std::time::SystemTime);

#[verifier::external_type_specification]
#[verifier::external_body]
pub struct ExSystemTimeError(std::time::SystemTimeError);

pub open spec fn num_of(v: Value) -> i64 {
    match v {
        Value::Num(n) => n,
        _ => 0,
    }
}

pub open spec fn items(v: Value) -> Seq<Value> {
    match v {
        Value::Qexpr(q) => q,
        _ => Seq::empty(),
    }
}

pub open spec fn text_of(v: Value) -> Seq<char> {
    match v {
        Value::Str(s) => s,
        Value::Sym(s) => s,
        _ => Seq::empty(),
    }
}

pub open spec fn all_nums(args: Seq<Value>) -> bool {
    forall|i: int| 0 <= i < args.len() ==> #[trigger] args[i] is Num
}

pub open spec fn all_qexprs(args: Seq<Value>) -> bool {
    forall|i: int| 0 <= i < args.len() ==> #[trigger] args[i] is Qexpr
}

pub open spec fn all_strs(args: Seq<Value>) -> bool {
    forall|i: int| 0 <= i < args.len() ==> #[trigger] args[i] is Str
}

pub open spec fn all_syms(args: Seq<Value>) -> bool {
    forall|i: int| 0 <= i < args.len() ==> #[trigger] args[i] is Sym
}

pub open spec fn failed(t: LerrType) -> Result<Value, Failure> {
    Err(Failure::Failed(t))
}

/// One step of a left fold of an arithmetic builtin.
pub open spec fn arith(b: Builtin, x: i64, y: i64) -> Result<i64, LerrType> {
    let r = match b {
        Builtin::Sub => x.checked_sub(y),
        Builtin::Mul => x.checked_mul(y),
        Builtin::Div => x.checked_div(y),
        Builtin::Mod => if y == -1 {
            Some(0i64)
        } else {
            x.checked_rem(y)
        },
        _ => x.checked_add(y),
    };
    if (b == Builtin::Div || b == Builtin::Mod) && y == 0 {
        Err(LerrType::DivZero)
    } else {
        match r {
            Some(z) => Ok(z),
            None => Err(LerrType::BadNum),
        }
    }
}

/// Left fold of the first `n` numbers.
pub open spec fn fold_spec(b: Builtin, args: Seq<Value>, n: nat) -> Result<i64, LerrType>
    decreases n,
{
    if n <= 1 {
        Ok(num_of(args[0]))
    } else {
        match fold_spec(b, args, (n - 1) as nat) {
            Ok(acc) => arith(b, acc, num_of(args[n - 1])),
            Err(e) => Err(e),
        }
    }
}

/// A right operand of zero: some number after the first is zero.
pub open spec fn zero_divisor(args: Seq<Value>) -> bool {
    exists|i: int| 1 <= i < args.len() && num_of(#[trigger] args[i]) == 0
}

/// `+ - * / % !`. For `/` and `%`, a zero right operand fails with `DivZero`
/// before anything is computed.
pub open spec fn op_spec(b: Builtin, args: Seq<Value>) -> Result<Value, Failure> {
    if !all_nums(args) {
        failed(LerrType::BadNum)
    } else if args.len() == 0 {
        failed(LerrType::IncorrectParamCount)
    } else if b == Builtin::Not {
        if args.len() != 1 {
            failed(LerrType::IncorrectParamCount)
        } else {
            Ok(Value::Num(if num_of(args[0]) == 0 { 1 } else { 0 }))
        }
    } else if args.len() == 1 {
        if b == Builtin::Sub {
            if num_of(args[0]) == i64::MIN {
                failed(LerrType::BadNum)
            } else {
                Ok(Value::Num((-num_of(args[0])) as i64))
            }
        } else {
            Ok(args[0])
        }
    } else if (b == Builtin::Div || b == Builtin::Mod) && zero_divisor(args) {
        failed(LerrType::DivZero)
    } else {
        match fold_spec(b, args, args.len()) {
            Ok(x) => Ok(Value::Num(x)),
            Err(e) => failed(e),
        }
    }
}

/// `< > <= >= && ||`
pub open spec fn ord_spec(b: Builtin, args: Seq<Value>) -> Result<Value, Failure> {
    if args.len() != 2 {
        failed(LerrType::IncorrectParamCount)
    } else if !all_nums(args) {
        failed(LerrType::BadNum)
    } else {
        let x = num_of(args[0]);
        let y = num_of(args[1]);
        let t = match b {
            Builtin::Gt => x > y,
            Builtin::Lt => x < y,
            Builtin::Ge => x >= y,
            Builtin::Le => x <= y,
            Builtin::And => x != 0 && y != 0,
            Builtin::Or => x != 0 || y != 0,
            _ => false,
        };
        Ok(Value::Num(if t { 1 } else { 0 }))
    }
}

/// `==` (and `!=` when `negate`)
pub open spec fn eq_spec(negate: bool, args: Seq<Value>) -> Result<Value, Failure> {
    if args.len() != 2 {
        failed(LerrType::IncorrectParamCount)
    } else {
        Ok(Value::Num(if crate::value::same(args[0], args[1]) != negate { 1 } else { 0 }))
    }
}

pub open spec fn head_spec(args: Seq<Value>) -> Result<Value, Failure> {
    if args.len() != 1 {
        failed(LerrType::IncorrectParamCount)
    } else if !(args[0] is Qexpr) {
        failed(LerrType::WrongType)
    } else if items(args[0]).len() == 0 {
        failed(LerrType::EmptyList)
    } else {
        Ok(items(args[0])[0])
    }
}

pub open spec fn tail_spec(args: Seq<Value>) -> Result<Value, Failure> {
    if args.len() != 1 {
        failed(LerrType::IncorrectParamCount)
    } else if !(args[0] is Qexpr) {
        failed(LerrType::WrongType)
    } else if items(args[0]).len() == 0 {
        failed(LerrType::EmptyList)
    } else {
        Ok(Value::Qexpr(items(args[0]).drop_first()))
    }
}

pub open spec fn list_spec(args: Seq<Value>) -> Result<Value, Failure> {
    Ok(Value::Qexpr(args))
}

/// The items of the lists, in order.
pub open spec fn concat_lists(args: Seq<Value>) -> Seq<Value>
    decreases args.len(),
{
    if args.len() == 0 {
        Seq::empty()
    } else {
        concat_lists(args.drop_last()) + items(args.last())
    }
}

pub open spec fn join_spec(args: Seq<Value>) -> Result<Value, Failure> {
    if args.len() < 2 {
        failed(LerrType::IncorrectParamCount)
    } else if !all_qexprs(args) {
        failed(LerrType::WrongType)
    } else {
        Ok(Value::Qexpr(concat_lists(args)))
    }
}

/// The texts, in order.
pub open spec fn concat_texts(args: Seq<Value>) -> Seq<char>
    decreases args.len(),
{
    if args.len() == 0 {
        Seq::empty()
    } else {
        concat_texts(args.drop_last()) + text_of(args.last())
    }
}

pub open spec fn concat_spec(args: Seq<Value>) -> Result<Value, Failure> {
    if args.len() < 1 {
        failed(LerrType::IncorrectParamCount)
    } else if !all_strs(args) {
        failed(LerrType::WrongType)
    } else {
        Ok(Value::Str(concat_texts(args)))
    }
}

pub open spec fn echo_spec(args: Seq<Value>) -> Result<Value, Failure> {
    if args.len() != 1 {
        failed(LerrType::IncorrectParamCount)
    } else {
        Ok(Value::Str(print_spec(args[0])))
    }
}

pub open spec fn die_spec(args: Seq<Value>) -> Result<Value, Failure> {
    if args.len() != 1 {
        failed(LerrType::IncorrectParamCount)
    } else if !(args[0] is Str) {
        failed(LerrType::WrongType)
    } else {
        Err(Failure::Raised(text_of(args[0])))
    }
}

/// The frame a closure made now captures: the innermost one.
pub open spec fn captured(env: Seq<Frame>) -> Frame {
    if env.len() == 0 {
        Seq::empty()
    } else {
        env.last()
    }
}

pub open spec fn sym_names(vs: Seq<Value>) -> Seq<Seq<char>> {
    vs.map_values(|v: Value| text_of(v))
}

pub open spec fn lambda_spec(env: Seq<Frame>, args: Seq<Value>) -> Result<Value, Failure> {
    if args.len() != 2 {
        failed(LerrType::IncorrectParamCount)
    } else if !(args[0] is Qexpr && args[1] is Qexpr) {
        failed(LerrType::WrongType)
    } else if !all_syms(items(args[0])) {
        failed(LerrType::WrongType)
    } else {
        Ok(Value::Lambda(sym_names(items(args[0])), items(args[1]), captured(env)))
    }
}

/// The first `n` names bound to the first `n` values, one after the other;
/// in the root frame when `global`, else in the innermost frame.
pub open spec fn bind_all(
    env: Seq<Frame>,
    names: Seq<Seq<char>>,
    vals: Seq<Value>,
    global: bool,
    n: nat,
) -> Seq<Frame>
    decreases n,
{
    if n == 0 {
        env
    } else {
        let e = bind_all(env, names, vals, global, (n - 1) as nat);
        if global {
            env_define(e, names[n - 1], vals[n - 1])
        } else {
            env_insert(e, names[n - 1], vals[n - 1])
        }
    }
}

/// The empty S-expression: the unit result.
pub open spec fn unit() -> Value {
    Value::Sexpr(Seq::empty())
}

/// `def` when `global`, `=` otherwise.
pub open spec fn assign_spec(global: bool, env: Seq<Frame>, args: Seq<Value>) -> (
    Seq<Frame>,
    Result<Value, Failure>,
) {
    if args.len() < 2 {
        (env, failed(LerrType::IncorrectParamCount))
    } else if !(args[0] is Qexpr) || !all_syms(items(args[0])) {
        (env, failed(LerrType::WrongType))
    } else if items(args[0]).len() != args.len() - 1 {
        (env, failed(LerrType::IncorrectParamCount))
    } else {
        (
            bind_all(
                env,
                sym_names(items(args[0])),
                args.drop_first(),
                global,
                items(args[0]).len(),
            ),
            Ok(unit()),
        )
    }
}

/// The builtins whose result depends on their arguments alone.
pub open spec fn pure_spec(b: Builtin, args: Seq<Value>) -> Result<Value, Failure> {
    match b {
        Builtin::Not | Builtin::Add | Builtin::Sub | Builtin::Mul | Builtin::Div
        | Builtin::Mod => op_spec(b, args),
        Builtin::Lt | Builtin::Gt | Builtin::Ge | Builtin::Le | Builtin::And
        | Builtin::Or => ord_spec(b, args),
        Builtin::Eq => eq_spec(false, args),
        Builtin::Ne => eq_spec(true, args),
        Builtin::Head => head_spec(args),
        Builtin::Tail => tail_spec(args),
        Builtin::List => list_spec(args),
        Builtin::Join => join_spec(args),
        Builtin::Concat => concat_spec(args),
        Builtin::Echo => echo_spec(args),
        _ => die_spec(args),
    }
}

pub open spec fn is_pure(b: Builtin) -> bool {
    !(b is If || b is Eval || b is Lambda || b is Def || b is Assign || b is Rand)
}

// ---------------------------------------------------------------------------
proof fn lemma_fold_err(b: Builtin, args: Seq<Value>, i: nat, n: nat)
    requires
        1 <= i <= n,
        fold_spec(b, args, i) is Err,
    ensures
        fold_spec(b, args, n) == fold_spec(b, args, i),
    decreases n,
{
    if n > i {
        lemma_fold_err(b, args, i, (n - 1) as nat);
    }
}

fn arith_exec(b: Builtin, x: i64, y: i64) -> (r: Result<i64, LerrType>)
    ensures
        r == arith(b, x, y),
{
    if (b == Builtin::Div || b == Builtin::Mod) && y == 0 {
        return Err(LerrType::DivZero);
    }
    let r = match b {
        Builtin::Sub => x.checked_sub(y),
        Builtin::Mul => x.checked_mul(y),
        Builtin::Div => x.checked_div(y),
        Builtin::Mod => if y == -1 {
            Some(0i64)
        } else {
            x.checked_rem(y)
        },
        _ => x.checked_add(y),
    };
    match r {
        Some(z) => Ok(z),
        None => Err(LerrType::BadNum),
    }
}

/// Arithmetic over numbers: `+ - * / %` fold from the left, unary `-`
/// negates, `!` maps zero to one and anything else to zero.
pub fn builtin_op(sym: Builtin, operands: Vec<Lval>) -> (r: Result<Lval, Lerr>)
    ensures
        outcome(r) == op_spec(sym, vals_view(operands@)),
{
    let ghost args = vals_view(operands@);
    proof {
        lemma_vals_view(operands@);
    }
    let mut nums: Vec<i64> = Vec::new();
    let mut i: usize = 0;
    while i < operands.len()
        invariant
            i <= operands.len(),
            args == vals_view(operands@),
            args.len() == operands.len(),
            forall|j: int| 0 <= j < operands.len() ==> #[trigger] args[j] == operands@[j]@,
            nums@.len() == i,
            forall|j: int| 0 <= j < i ==> #[trigger] args[j] is Num && nums@[j] == num_of(args[j]),
        decreases operands.len() - i,
    {
        match &operands[i] {
            Lval::Num(n) => nums.push(*n),
            _ => {
                assert(!(args[i as int] is Num));
                return Err(fail(LerrType::BadNum, "Function can operate only on numbers"));
            },
        }
        i += 1;
    }
    assert(all_nums(args));
    if nums.len() == 0 {
        return Err(fail(LerrType::IncorrectParamCount, "Function needed at least 1 arg"));
    }
    if sym == Builtin::Not {
        if nums.len() != 1 {
            return Err(fail(LerrType::IncorrectParamCount, "Function ! needed 1 arg"));
        }
        return Ok(Lval::Num(if nums[0] == 0 { 1 } else { 0 }));
    }
    if nums.len() == 1 {
        if sym == Builtin::Sub {
            if nums[0] == i64::MIN {
                return Err(fail(LerrType::BadNum, "The negation does not fit in a number"));
            }
            return Ok(Lval::Num(-nums[0]));
        }
        return Ok(Lval::Num(nums[0]));
    }
    if sym == Builtin::Div || sym == Builtin::Mod {
        let mut j: usize = 1;
        while j < nums.len()
            invariant
                1 <= j <= nums.len(),
                nums@.len() == args.len(),
                args.len() >= 2,
                args == vals_view(operands@),
                all_nums(args),
                sym == Builtin::Div || sym == Builtin::Mod,
                forall|m: int| 0 <= m < nums@.len() ==> #[trigger] nums@[m] == num_of(args[m]),
                forall|m: int| 1 <= m < j ==> num_of(#[trigger] args[m]) != 0,
            decreases nums.len() - j,
        {
            if nums[j] == 0 {
                assert(num_of(args[j as int]) == 0);
                return Err(fail(LerrType::DivZero, "You cannot divide by 0"));
            }
            j += 1;
        }
        assert(!zero_divisor(args));
    }
    let mut x = nums[0];
    let mut k: usize = 1;
    while k < nums.len()
        invariant
            1 <= k <= nums.len(),
            nums@.len() == args.len(),
            args.len() >= 2,
            args == vals_view(operands@),
            all_nums(args),
            sym != Builtin::Not,
            (sym == Builtin::Div || sym == Builtin::Mod) ==> !zero_divisor(args),
            forall|j: int| 0 <= j < nums@.len() ==> #[trigger] nums@[j] == num_of(args[j]),
            fold_spec(sym, args, k as nat) == Ok::<i64, LerrType>(x),
        decreases nums.len() - k,
    {
        assert(fold_spec(sym, args, (k + 1) as nat) == arith(sym, x, nums@[k as int]));
        match arith_exec(sym, x, nums[k]) {
            Ok(z) => {
                x = z;
            },
            Err(e) => {
                proof {
                    lemma_fold_err(sym, args, (k + 1) as nat, args.len());
                }
                let msg = if e == LerrType::DivZero {
                    "You cannot divide by 0"
                } else {
                    "The result does not fit in a number"
                };
                return Err(fail(e, msg));
            },
        }
        k += 1;
    }
    Ok(Lval::Num(x))
}

/// Comparison and logic over exactly two numbers; true is 1, false is 0.
pub fn builtin_ord(sym: Builtin, operands: Vec<Lval>) -> (r: Result<Lval, Lerr>)
    ensures
        outcome(r) == ord_spec(sym, vals_view(operands@)),
{
    proof {
        lemma_vals_view(operands@);
    }
    if operands.len() != 2 {
        return Err(fail(LerrType::IncorrectParamCount, "Function needed 2 args"));
    }
    let x = match &operands[0] {
        Lval::Num(n) => *n,
        _ => {
            assert(!(vals_view(operands@)[0] is Num));
            return Err(fail(LerrType::BadNum, "Function can operate only on numbers"));
        },
    };
    let y = match &operands[1] {
        Lval::Num(n) => *n,
        _ => {
            assert(!(vals_view(operands@)[1] is Num));
            return Err(fail(LerrType::BadNum, "Function can operate only on numbers"));
        },
    };
    proof {
        assert(all_nums(vals_view(operands@)));
    }
    let t = match sym {
        Builtin::Gt => x > y,
        Builtin::Lt => x < y,
        Builtin::Ge => x >= y,
        Builtin::Le => x <= y,
        Builtin::And => x != 0 && y != 0,
        Builtin::Or => x != 0 || y != 0,
        _ => false,
    };
    Ok(Lval::Num(if t { 1 } else { 0 }))
}

fn builtin_equal(negate: bool, operands: Vec<Lval>) -> (r: Result<Lval, Lerr>)
    ensures
        outcome(r) == eq_spec(negate, vals_view(operands@)),
{
    proof {
        lemma_vals_view(operands@);
    }
    if operands.len() != 2 {
        return Err(fail(LerrType::IncorrectParamCount, "Function eq needed 2 args"));
    }
    let same = operands[0].equals(&operands[1]);
    Ok(Lval::Num(if same != negate { 1 } else { 0 }))
}

pub fn builtin_eq(env: &mut Lenv, operands: Vec<Lval>) -> (r: Result<Lval, Lerr>)
    ensures
        final(env)@ == old(env)@,
        outcome(r) == eq_spec(false, vals_view(operands@)),
{
    builtin_equal(false, operands)
}

pub fn builtin_ne(env: &mut Lenv, operands: Vec<Lval>) -> (r: Result<Lval, Lerr>)
    ensures
        final(env)@ == old(env)@,
        outcome(r) == eq_spec(true, vals_view(operands@)),
{
    builtin_equal(true, operands)
}

pub fn builtin_head(env: &mut Lenv, operands: Vec<Lval>) -> (r: Result<Lval, Lerr>)
    ensures
        final(env)@ == old(env)@,
        outcome(r) == head_spec(vals_view(operands@)),
{
    proof {
        lemma_vals_view(operands@);
    }
    if operands.len() != 1 {
        return Err(fail(LerrType::IncorrectParamCount, "Function head needed 1 arg"));
    }
    let mut operands = operands;
    let arg = operands.pop().unwrap();
    match arg {
        Lval::Qexpr(mut q) => {
            proof {
                lemma_vals_view(q@);
            }
            if q.len() == 0 {
                Err(fail(LerrType::EmptyList, "Function head was given empty list"))
            } else {
                Ok(q.remove(0))
            }
        },
        _ => Err(fail(LerrType::WrongType, "Function head needed a Qexpr")),
    }
}

pub fn builtin_tail(env: &mut Lenv, operands: Vec<Lval>) -> (r: Result<Lval, Lerr>)
    ensures
        final(env)@ == old(env)@,
        outcome(r) == tail_spec(vals_view(operands@)),
{
    proof {
        lemma_vals_view(operands@);
    }
    if operands.len() != 1 {
        return Err(fail(LerrType::IncorrectParamCount, "Function tail needed 1 arg"));
    }
    let mut operands = operands;
    let arg = operands.pop().unwrap();
    match arg {
        Lval::Qexpr(mut q) => {
            let ghost q0 = q@;
            proof {
                lemma_vals_view(q0);
            }
            if q.len() == 0 {
                Err(fail(LerrType::EmptyList, "Function tail was given empty list"))
            } else {
                q.remove(0);
                proof {
                    assert forall|j: int| 0 <= j < q@.len() implies #[trigger] q@[j]@
                        == vals_view(q0).drop_first()[j] by {
                        assert(q@[j] == q0[j + 1]);
                    }
                    lemma_vals_view_ext(q@, vals_view(q0).drop_first());
                }
                Ok(Lval::Qexpr(q))
            }
        },
        _ => Err(fail(LerrType::WrongType, "Function tail needed a Qexpr")),
    }
}

pub fn builtin_list(env: &mut Lenv, operands: Vec<Lval>) -> (r: Result<Lval, Lerr>)
    ensures
        final(env)@ == old(env)@,
        outcome(r) == list_spec(vals_view(operands@)),
{
    Ok(Lval::Qexpr(operands))
}

pub fn builtin_join(env: &mut Lenv, operands: Vec<Lval>) -> (r: Result<Lval, Lerr>)
    ensures
        final(env)@ == old(env)@,
        outcome(r) == join_spec(vals_view(operands@)),
{
    let ghost args = vals_view(operands@);
    proof {
        lemma_vals_view(operands@);
    }
    if operands.len() < 2 {
        return Err(fail(LerrType::IncorrectParamCount, "Function join needed at least 2 args"));
    }
    let mut i: usize = 0;
    while i < operands.len()
        invariant
            i <= operands.len(),
            args == vals_view(operands@),
            args.len() == operands.len(),
            operands.len() >= 2,
            forall|j: int| 0 <= j < operands.len() ==> #[trigger] args[j] == operands@[j]@,
            forall|j: int| 0 <= j < i ==> #[trigger] args[j] is Qexpr,
        decreases operands.len() - i,
    {
        match &operands[i] {
            Lval::Qexpr(_) => {},
            _ => {
                assert(!(args[i as int] is Qexpr));
                return Err(fail(LerrType::WrongType, "Function join needed Qexprs"));
            },
        }
        i += 1;
    }
    assert(all_qexprs(args));
    let mut joined: Vec<Lval> = Vec::new();
    let mut k: usize = 0;
    assert(args.take(0) =~= Seq::<Value>::empty());
    while k < operands.len()
        invariant
            k <= operands.len(),
            args == vals_view(operands@),
            args.len() == operands.len(),
            forall|j: int| 0 <= j < operands.len() ==> #[trigger] args[j] == operands@[j]@,
            vals_view(joined@) == concat_lists(args.take(k as int)),
        decreases operands.len() - k,
    {
        assert(args.take(k + 1).drop_last() =~= args.take(k as int));
        match &operands[k] {
            Lval::Qexpr(q) => {
                let ghost before = joined@;
                let mut m: usize = 0;
                proof {
                    lemma_vals_view(q@);
                    lemma_vals_view(before);
                }
                while m < q.len()
                    invariant
                        m <= q.len(),
                        vals_view(q@).len() == q.len(),
                        forall|j: int| 0 <= j < q.len() ==> #[trigger] vals_view(q@)[j] == q@[j]@,
                        vals_view(before).len() == before.len(),
                        forall|j: int|
                            0 <= j < before.len() ==> #[trigger] vals_view(before)[j]
                                == before[j]@,
                        joined@.len() == before.len() + m,
                        forall|j: int| 0 <= j < before.len() ==> #[trigger] joined@[j] == before[j],
                        forall|j: int|
                            0 <= j < m ==> #[trigger] joined@[before.len() + j]@ == q@[j]@,
                    decreases q.len() - m,
                {
                    joined.push(q[m].deep_clone());
                    m += 1;
                }
                proof {
                    let target = vals_view(before) + vals_view(q@);
                    assert forall|j: int| 0 <= j < joined@.len() implies #[trigger] joined@[j]@
                        == target[j] by {
                        if j >= before.len() {
                            assert(joined@[before.len() + (j - before.len())]@ == q@[j
                                - before.len()]@);
                        }
                    }
                    lemma_vals_view_ext(joined@, target);
                }
            },
            _ => {},
        }
        k += 1;
    }
    assert(args.take(k as int) =~= args);
    Ok(Lval::Qexpr(joined))
}

pub fn builtin_concat(env: &mut Lenv, operands: Vec<Lval>) -> (r: Result<Lval, Lerr>)
    ensures
        final(env)@ == old(env)@,
        outcome(r) == concat_spec(vals_view(operands@)),
{
    let ghost args = vals_view(operands@);
    proof {
        lemma_vals_view(operands@);
    }
    if operands.len() < 1 {
        return Err(fail(LerrType::IncorrectParamCount, "Function concat needed at least 1 arg"));
    }
    let mut out = String::new();
    let mut i: usize = 0;
    let mut all = true;
    assert(args.take(0) =~= Seq::<Value>::empty());
    while i < operands.len()
        invariant
            i <= operands.len(),
            args == vals_view(operands@),
            args.len() == operands.len(),
            forall|j: int| 0 <= j < operands.len() ==> #[trigger] args[j] == operands@[j]@,
            out@ == concat_texts(args.take(i as int)),
            all == forall|j: int| 0 <= j < i ==> #[trigger] args[j] is Str,
        decreases operands.len() - i,
    {
        assert(args.take(i + 1).drop_last() =~= args.take(i as int));
        match &operands[i] {
            Lval::Str(s) => {
                out.append(s.as_str());
            },
            Lval::Sym(s) => {
                all = false;
                out.append(s.as_str());
            },
            _ => {
                all = false;
                assert(out@ =~= out@ + text_of(args[i as int]));
            },
        }
        i += 1;
    }
    if !all {
        return Err(fail(LerrType::WrongType, "Function concat needed Strings"));
    }
    assert(args.take(i as int) =~= args);
    Ok(Lval::Str(out))
}

pub fn builtin_echo(env: &mut Lenv, operands: Vec<Lval>) -> (r: Result<Lval, Lerr>)
    ensures
        final(env)@ == old(env)@,
        outcome(r) == echo_spec(vals_view(operands@)),
{
    proof {
        lemma_vals_view(operands@);
    }
    if operands.len() != 1 {
        return Err(fail(LerrType::IncorrectParamCount, "Function echo needed 1 arg"));
    }
    Ok(Lval::Str(operands[0].to_text()))
}

pub fn builtin_err(env: &mut Lenv, operands: Vec<Lval>) -> (r: Result<Lval, Lerr>)
    ensures
        final(env)@ == old(env)@,
        outcome(r) == die_spec(vals_view(operands@)),
{
    proof {
        lemma_vals_view(operands@);
    }
    if operands.len() != 1 {
        return Err(fail(LerrType::IncorrectParamCount, "Function die needed 1 arg"));
    }
    match &operands[0] {
        Lval::Str(s) => Err(Lerr::new(LerrType::Interrupt, s.clone())),
        _ => Err(fail(LerrType::WrongType, "Function die needed a String")),
    }
}

/// Relies on `SystemTime::now`: the wall clock now.
#[verifier::external_body]
fn time_now() -> std::time::SystemTime {
    std::time::SystemTime::now()
}

/// Relies on `SystemTime::duration_since`: the time since the Unix epoch, or
/// an error when the clock stands before it.
#[verifier::external_body]
fn since_epoch(t: &std::time::SystemTime) -> Result<core::time::Duration, std::time::SystemTimeError> {
    t.duration_since(std::time::UNIX_EPOCH)
}

/// Relies on `Duration::subsec_nanos`: the fractional part of the duration
/// in nanoseconds, which the documentation bounds below one billion.
#[verifier::external_body]
fn subsec_nanos(d: &core::time::Duration) -> (r: u32)
    ensures
        r < 1_000_000_000,
{
    d.subsec_nanos()
}

/// The clock's reading: the nanoseconds within the current second, or `None`
/// when the clock stands before the Unix epoch.
fn read_clock() -> (r: Option<u32>)
    ensures
        r matches Some(n) ==> n < 1_000_000_000,
{
    match since_epoch(&time_now()) {
        Ok(d) => Some(subsec_nanos(&d)),
        Err(_) => None,
    }
}

/// The number `rand` gives for a clock reading: the reading itself, or
/// 12345 when the clock stands before the Unix epoch.
pub open spec fn rand_value(reading: Option<u32>) -> i64 {
    match reading {
        Some(k) => k as i64,
        None => 12345,
    }
}

/// `rand` given what the clock read: no operands are allowed.
pub fn rand_from_reading(operands: Vec<Lval>, reading: Option<u32>) -> (r: Result<Lval, Lerr>)
    ensures
        operands.len() != 0 ==> outcome(r) == failed(LerrType::IncorrectParamCount),
        operands.len() == 0 ==> (r matches Ok(Lval::Num(n)) && n == rand_value(reading)),
{
    if operands.len() != 0 {
        return Err(fail(LerrType::IncorrectParamCount, "Function rand needed 0 args"));
    }
    match reading {
        Some(k) => Ok(Lval::Num(k as i64)),
        None => Ok(Lval::Num(12345)),
    }
}

/// `rand`: a number read from the clock, below one billion.
pub fn builtin_rand(env: &mut Lenv, operands: Vec<Lval>) -> (r: Result<Lval, Lerr>)
    ensures
        final(env)@ == old(env)@,
        operands.len() != 0 ==> outcome(r) == failed(LerrType::IncorrectParamCount),
        operands.len() == 0 ==> (r matches Ok(Lval::Num(n)) && 0 <= n < 1_000_000_000),
{
    let reading = if operands.len() == 0 {
        read_clock()
    } else {
        None
    };
    rand_from_reading(operands, reading)
}

/// The parameter names of a closure, or `None` when one is not a symbol.
fn symbol_names(q: &Vec<Lval>) -> (r: Option<Vec<String>>)
    ensures
        match r {
            Some(names) => all_syms(vals_view(q@)) && names_view(names@) == sym_names(
                vals_view(q@),
            ),
            None => !all_syms(vals_view(q@)),
        },
{
    proof {
        lemma_vals_view(q@);
    }
    let mut names: Vec<String> = Vec::new();
    let mut i: usize = 0;
    while i < q.len()
        invariant
            i <= q.len(),
            vals_view(q@).len() == q.len(),
            forall|j: int| 0 <= j < q.len() ==> #[trigger] vals_view(q@)[j] == q@[j]@,
            names@.len() == i,
            forall|j: int|
                0 <= j < i ==> #[trigger] vals_view(q@)[j] is Sym && names@[j]@ == text_of(
                    vals_view(q@)[j],
                ),
        decreases q.len() - i,
    {
        match &q[i] {
            Lval::Sym(s) => names.push(s.clone()),
            _ => {
                assert(!(vals_view(q@)[i as int] is Sym));
                return None;
            },
        }
        i += 1;
    }
    assert(names_view(names@) =~= sym_names(vals_view(q@)));
    Some(names)
}

/// `\`: a closure over the innermost frame.
pub fn builtin_lambda(env: &mut Lenv, operands: Vec<Lval>) -> (r: Result<Lval, Lerr>)
    ensures
        final(env)@ == old(env)@,
        outcome(r) == lambda_spec(old(env)@, vals_view(operands@)),
{
    proof {
        lemma_vals_view(operands@);
    }
    if operands.len() != 2 {
        return Err(fail(LerrType::IncorrectParamCount, "Function \\ needed 2 args"));
    }
    let mut operands = operands;
    let body = operands.pop().unwrap();
    let params = operands.pop().unwrap();
    match (params, body) {
        (Lval::Qexpr(p), Lval::Qexpr(b)) => match symbol_names(&p) {
            Some(args) => {
                let frame = match env.peek() {
                    Some(f) => f.deep_clone(),
                    None => Lookup::new(),
                };
                Ok(Lval::Lambda(Llambda { args, body: b, env: frame }))
            },
            None => Err(fail(LerrType::WrongType, "Function \\ needed a param list of Symbols")),
        },
        _ => Err(fail(LerrType::WrongType, "Function \\ needed two Qexprs")),
    }
}

/// `def` when `global`, `=` otherwise.
pub fn builtin_assign(global: bool, env: &mut Lenv, operands: Vec<Lval>) -> (r: Result<
    Lval,
    Lerr,
>)
    ensures
        (final(env)@, outcome(r)) == assign_spec(global, old(env)@, vals_view(operands@)),
{
    let ghost args = vals_view(operands@);
    proof {
        lemma_vals_view(operands@);
    }
    if operands.len() < 2 {
        return Err(fail(LerrType::IncorrectParamCount, "Function def needed 2 args"));
    }
    let names = match &operands[0] {
        Lval::Qexpr(q) => match symbol_names(q) {
            Some(names) => {
                assert(items(args[0]) == vals_view(q@));
                assert(names_view(names@) == sym_names(items(args[0])));
                assert(names@.len() == names_view(names@).len());
                names
            },
            None => {
                return Err(fail(LerrType::WrongType, "Function def needed a list of Symbols"));
            },
        },
        _ => {
            return Err(fail(LerrType::WrongType, "Function def needed a Qexpr"));
        },
    };
    if names.len() != operands.len() - 1 {
        return Err(fail(LerrType::IncorrectParamCount, "Function def needed one value per name"));
    }
    let ghost ns = names_view(names@);
    let ghost e0 = env@;
    let mut i: usize = 0;
    while i < names.len()
        invariant
            i <= names.len(),
            names.len() == operands.len() - 1,
            args == vals_view(operands@),
            args.len() == operands.len(),
            forall|j: int| 0 <= j < operands.len() ==> #[trigger] args[j] == operands@[j]@,
            ns == names_view(names@),
            ns == sym_names(items(args[0])),
            env@ == bind_all(e0, ns, args.drop_first(), global, i as nat),
        decreases names.len() - i,
    {
        let v = operands[i + 1].deep_clone();
        assert(args.drop_first()[i as int] == v@);
        assert(ns[i as int] == names@[i as int]@);
        if global {
            env.insert_last(names[i].as_str(), v);
        } else {
            env.insert(names[i].as_str(), v);
        }
        i += 1;
    }
    Ok(Lval::Sexpr(Vec::new()))
}

pub fn builtin_def(env: &mut Lenv, operands: Vec<Lval>) -> (r: Result<Lval, Lerr>)
    ensures
        (final(env)@, outcome(r)) == assign_spec(true, old(env)@, vals_view(operands@)),
{
    builtin_assign(true, env, operands)
}

pub fn builtin_var(env: &mut Lenv, operands: Vec<Lval>) -> (r: Result<Lval, Lerr>)
    ensures
        (final(env)@, outcome(r)) == assign_spec(false, old(env)@, vals_view(operands@)),
{
    builtin_assign(false, env, operands)
}

/// The builtins whose result depends on their arguments alone.
pub(crate) fn apply_pure(env: &mut Lenv, b: Builtin, operands: Vec<Lval>) -> (r: Result<Lval, Lerr>)
    requires
        is_pure(b),
    ensures
        final(env)@ == old(env)@,
        outcome(r) == pure_spec(b, vals_view(operands@)),
{
    match b {
        Builtin::Not | Builtin::Add | Builtin::Sub | Builtin::Mul | Builtin::Div
        | Builtin::Mod => builtin_op(b, operands),
        Builtin::Lt | Builtin::Gt | Builtin::Ge | Builtin::Le | Builtin::And
        | Builtin::Or => builtin_ord(b, operands),
        Builtin::Eq => builtin_equal(false, operands),
        Builtin::Ne => builtin_equal(true, operands),
        Builtin::Head => builtin_head(env, operands),
        Builtin::Tail => builtin_tail(env, operands),
        Builtin::List => builtin_list(env, operands),
        Builtin::Join => builtin_join(env, operands),
        Builtin::Concat => builtin_concat(env, operands),
        Builtin::Echo => builtin_echo(env, operands),
        _ => builtin_err(env, operands),
    }
}

// ---------------------------------------------------------------------------
// The standard library

/// Number of builtins in the standard library.
pub const LIBRARY_SIZE: usize = 27;

/// The `k`-th builtin of the standard library and the name it is bound to.
#[verifier::opaque]
pub open spec fn library_entry(k: int) -> (Seq<char>, Builtin) {
    if k == 0 {
        ("!"@, Builtin::Not)
    } else if k == 1 {
        ("+"@, Builtin::Add)
    } else if k == 2 {
        ("-"@, Builtin::Sub)
    } else if k == 3 {
        ("*"@, Builtin::Mul)
    } else if k == 4 {
        ("/"@, Builtin::Div)
    } else if k == 5 {
        ("%"@, Builtin::Mod)
    } else if k == 6 {
        ("head"@, Builtin::Head)
    } else if k == 7 {
        ("tail"@, Builtin::Tail)
    } else if k == 8 {
        ("list"@, Builtin::List)
    } else if k == 9 {
        ("eval"@, Builtin::Eval)
    } else if k == 10 {
        ("join"@, Builtin::Join)
    } else if k == 11 {
        ("concat"@, Builtin::Concat)
    } else if k == 12 {
        ("\\"@, Builtin::Lambda)
    } else if k == 13 {
        ("def"@, Builtin::Def)
    } else if k == 14 {
        ("="@, Builtin::Assign)
    } else if k == 15 {
        ("if"@, Builtin::If)
    } else if k == 16 {
        ("echo"@, Builtin::Echo)
    } else if k == 17 {
        ("rand"@, Builtin::Rand)
    } else if k == 18 {
        ("die"@, Builtin::Die)
    } else if k == 19 {
        ("<"@, Builtin::Lt)
    } else if k == 20 {
        (">"@, Builtin::Gt)
    } else if k == 21 {
        (">="@, Builtin::Ge)
    } else if k == 22 {
        ("<="@, Builtin::Le)
    } else if k == 23 {
        ("=="@, Builtin::Eq)
    } else if k == 24 {
        ("!="@, Builtin::Ne)
    } else if k == 25 {
        ("&&"@, Builtin::And)
    } else {
        ("||"@, Builtin::Or)
    }
}

fn library_item(k: usize) -> (r: (&'static str, Builtin))
    ensures
        r.0@ == library_entry(k as int).0,
        r.1 == library_entry(k as int).1,
{
    proof {
        reveal(library_entry);
    }
    if k == 0 {
        ("!", Builtin::Not)
    } else if k == 1 {
        ("+", Builtin::Add)
    } else if k == 2 {
        ("-", Builtin::Sub)
    } else if k == 3 {
        ("*", Builtin::Mul)
    } else if k == 4 {
        ("/", Builtin::Div)
    } else if k == 5 {
        ("%", Builtin::Mod)
    } else if k == 6 {
        ("head", Builtin::Head)
    } else if k == 7 {
        ("tail", Builtin::Tail)
    } else if k == 8 {
        ("list", Builtin::List)
    } else if k == 9 {
        ("eval", Builtin::Eval)
    } else if k == 10 {
        ("join", Builtin::Join)
    } else if k == 11 {
        ("concat", Builtin::Concat)
    } else if k == 12 {
        ("\\", Builtin::Lambda)
    } else if k == 13 {
        ("def", Builtin::Def)
    } else if k == 14 {
        ("=", Builtin::Assign)
    } else if k == 15 {
        ("if", Builtin::If)
    } else if k == 16 {
        ("echo", Builtin::Echo)
    } else if k == 17 {
        ("rand", Builtin::Rand)
    } else if k == 18 {
        ("die", Builtin::Die)
    } else if k == 19 {
        ("<", Builtin::Lt)
    } else if k == 20 {
        (">", Builtin::Gt)
    } else if k == 21 {
        (">=", Builtin::Ge)
    } else if k == 22 {
        ("<=", Builtin::Le)
    } else if k == 23 {
        ("==", Builtin::Eq)
    } else if k == 24 {
        ("!=", Builtin::Ne)
    } else if k == 25 {
        ("&&", Builtin::And)
    } else {
        ("||", Builtin::Or)
    }
}

/// The first `n` builtins of the standard library bound in the innermost frame.
pub open spec fn install(e: Seq<Frame>, n: nat) -> Seq<Frame>
    decreases n,
{
    if n == 0 {
        e
    } else {
        let (name, b) = library_entry(n - 1);
        env_insert(install(e, (n - 1) as nat), name, Value::Fun(name, b))
    }
}

/// Binds `sym` to the builtin `fun`, under that name, in the innermost frame.
pub fn add_builtin(env: &mut Lenv, sym: &str, fun: Builtin)
    ensures
        final(env)@ == env_insert(old(env)@, sym@, Value::Fun(sym@, fun)),
        env_wf(old(env)@) ==> env_wf(final(env)@),
{
    env.insert(sym, Lval::Fun(String::from_str(sym), fun));
}

/// Binds every builtin of the standard library in the innermost frame.
pub fn init_builtins(env: &mut Lenv)
    ensures
        final(env)@ == install(old(env)@, LIBRARY_SIZE as nat),
        env_wf(old(env)@) ==> env_wf(final(env)@),
{
    let mut k: usize = 0;
    while k < LIBRARY_SIZE
        invariant
            k <= LIBRARY_SIZE,
            env@ == install(old(env)@, k as nat),
            env_wf(old(env)@) ==> env_wf(env@),
        decreases LIBRARY_SIZE - k,
    {
        let (name, b) = library_item(k);
        add_builtin(env, name, b);
        k += 1;
    }
}

} // verus!
