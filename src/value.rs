//! The value model: every runtime value and every parsed expression is an
//! `Lval`. Contracts speak of its ghost model `Value`, in which text is a
//! `Seq<char>` and lists are `Seq<Value>`.
use vstd::prelude::*;
use vstd::string::StringExecFns;

verus! {

/// The primitive operations of the standard library. A builtin value pairs
/// one of these with the name it was registered under.
#[derive(Clone, Copy, Debug, PartialEq, Eq, Structural)]
pub enum Builtin {
    Not,
    Add,
    Sub,
    Mul,
    Div,
    Mod,
    Head,
    Tail,
    List,
    Eval,
    Join,
    Concat,
    Lambda,
    Def,
    Assign,
    If,
    Echo,
    Rand,
    Die,
    Lt,
    Gt,
    Ge,
    Le,
    Eq,
    Ne,
    And,
    Or,
}

/// The kinds of evaluation error.
#[derive(Clone, Copy, Debug, PartialEq, Eq, Structural)]
pub enum LerrType {
    DivZero,
    BadOp,
    BadNum,
    IncorrectParamCount,
    EmptyList,
    WrongType,
    UnboundSymbol,
    Interrupt,
    /// Evaluation nested deeper than its depth budget.
    DepthExceeded,
}

/// Ghost model of a value.
pub enum Value {
    Sym(Seq<char>),
    Num(i64),
    Sexpr(Seq<Value>),
    Qexpr(Seq<Value>),
    Fun(Seq<char>, Builtin),
    /// Parameter names, body, and the captured frame.
    Lambda(Seq<Seq<char>>, Seq<Value>, Seq<(Seq<char>, Value)>),
    Str(Seq<char>),
}

/// Ghost model of one binding frame: name/value pairs, first match wins.
pub type Frame = Seq<(Seq<char>, Value)>;

#[derive(Debug)]
pub enum Lval {
    Sym(String),
    Num(i64),
    Sexpr(Vec<Lval>),
    Qexpr(Vec<Lval>),
    Fun(String, Builtin),
    Lambda(Llambda),
    Str(String),
}

/// A user-defined closure: the parameters still to bind, the body, and the
/// frame captured at construction (extended by the bindings made so far).
#[derive(Debug)]
pub struct Llambda {
    pub args: Vec<String>,
    pub body: Vec<Lval>,
    pub env: Lookup,
}

/// One frame of bindings.
#[derive(Debug)]
pub struct Lookup {
    pub entries: Vec<(String, Lval)>,
}

pub open spec fn names_view(s: Seq<String>) -> Seq<Seq<char>> {
    s.map_values(|x: String| x@)
}

pub open spec fn vals_view(s: Seq<Lval>) -> Seq<Value>
    decreases s,
{
    if s.len() == 0 {
        Seq::empty()
    } else {
        vals_view(s.drop_last()).push(s.last()@)
    }
}

pub open spec fn entries_view(s: Seq<(String, Lval)>) -> Frame
    decreases s,
{
    if s.len() == 0 {
        Seq::empty()
    } else {
        entries_view(s.drop_last()).push((s.last().0@, s.last().1@))
    }
}

impl View for Lval {
    type V = Value;

    open spec fn view(&self) -> Value
        decreases self,
    {
        match self {
            Lval::Sym(s) => Value::Sym(s@),
            Lval::Num(n) => Value::Num(*n),
            Lval::Sexpr(v) => Value::Sexpr(vals_view(v@)),
            Lval::Qexpr(v) => Value::Qexpr(vals_view(v@)),
            Lval::Fun(name, b) => Value::Fun(name@, *b),
            Lval::Lambda(l) => Value::Lambda(
                names_view(l.args@),
                vals_view(l.body@),
                entries_view(l.env.entries@),
            ),
            Lval::Str(s) => Value::Str(s@),
        }
    }
}

impl View for Lookup {
    type V = Frame;

    open spec fn view(&self) -> Frame {
        entries_view(self.entries@)
    }
}

pub proof fn lemma_vals_view(s: Seq<Lval>)
    ensures
        vals_view(s).len() == s.len(),
        forall|i: int| 0 <= i < s.len() ==> #[trigger] vals_view(s)[i] == s[i]@,
    decreases s.len(),
{
    if s.len() > 0 {
        lemma_vals_view(s.drop_last());
        assert(vals_view(s) == vals_view(s.drop_last()).push(s.last()@));
        assert forall|i: int| 0 <= i < s.len() implies #[trigger] vals_view(s)[i] == s[i]@ by {
            if i < s.len() - 1 {
                assert(s.drop_last()[i] == s[i]);
            }
        }
    }
}

pub proof fn lemma_entries_view(s: Seq<(String, Lval)>)
    ensures
        entries_view(s).len() == s.len(),
        forall|i: int|
            0 <= i < s.len() ==> #[trigger] entries_view(s)[i] == (s[i].0@, s[i].1@),
    decreases s.len(),
{
    if s.len() > 0 {
        lemma_entries_view(s.drop_last());
        assert(entries_view(s) == entries_view(s.drop_last()).push((s.last().0@, s.last().1@)));
        assert forall|i: int| 0 <= i < s.len() implies #[trigger] entries_view(s)[i] == (
            s[i].0@,
            s[i].1@,
        ) by {
            if i < s.len() - 1 {
                assert(s.drop_last()[i] == s[i]);
            }
        }
    }
}

/// The view of a list is the list of the views of its items.
pub proof fn lemma_vals_view_ext(s: Seq<Lval>, m: Seq<Value>)
    requires
        s.len() == m.len(),
        forall|i: int| 0 <= i < s.len() ==> #[trigger] s[i]@ == m[i],
    ensures
        vals_view(s) == m,
{
    lemma_vals_view(s);
    assert(vals_view(s) =~= m);
}

pub proof fn lemma_entries_view_ext(s: Seq<(String, Lval)>, m: Frame)
    requires
        s.len() == m.len(),
        forall|i: int| 0 <= i < s.len() ==> (#[trigger] s[i]).0@ == m[i].0 && s[i].1@ == m[i].1,
    ensures
        entries_view(s) == m,
{
    lemma_entries_view(s);
    assert(entries_view(s) =~= m);
}

/// How an evaluation fails, as the contracts see it: the kind of error, or the
/// message of an error raised by the program itself.
pub enum Failure {
    Failed(LerrType),
    Raised(Seq<char>),
}

/// An evaluation error: its kind, a fixed description of the kind, and a
/// free-form message.
#[derive(Clone, Debug)]
pub struct Lerr {
    pub etype: LerrType,
    pub details: String,
    pub message: String,
}

pub open spec fn details_text(etype: LerrType) -> Seq<char> {
    match etype {
        LerrType::DivZero => "Cannot Divide By Zero"@,
        LerrType::BadOp => "Invalid Operator"@,
        LerrType::BadNum => "Invalid Operand"@,
        LerrType::IncorrectParamCount => "Incorrect Number of Params passed to function"@,
        LerrType::WrongType => "Incorrect Data Type used"@,
        LerrType::EmptyList => "Empty List passed to function"@,
        LerrType::UnboundSymbol => "This Symbol has not been Defined"@,
        LerrType::Interrupt => "User defined Error"@,
        LerrType::DepthExceeded => "Evaluation nested too deeply"@,
    }
}

impl Lerr {
    pub fn new(etype: LerrType, message: String) -> (r: Lerr)
        ensures
            r.etype == etype,
            r.message@ == message@,
            r.details@ == details_text(etype),
    {
        let details = match etype {
            LerrType::DivZero => String::from_str("Cannot Divide By Zero"),
            LerrType::BadOp => String::from_str("Invalid Operator"),
            LerrType::BadNum => String::from_str("Invalid Operand"),
            LerrType::IncorrectParamCount => String::from_str(
                "Incorrect Number of Params passed to function",
            ),
            LerrType::WrongType => String::from_str("Incorrect Data Type used"),
            LerrType::EmptyList => String::from_str("Empty List passed to function"),
            LerrType::UnboundSymbol => String::from_str("This Symbol has not been Defined"),
            LerrType::Interrupt => String::from_str("User defined Error"),
            LerrType::DepthExceeded => String::from_str("Evaluation nested too deeply"),
        };
        Lerr { etype, details, message }
    }

    pub open spec fn fault(&self) -> Failure {
        if self.etype == LerrType::Interrupt {
            Failure::Raised(self.message@)
        } else {
            Failure::Failed(self.etype)
        }
    }
}

/// An error of the given kind with a fixed message.
pub(crate) fn fail(etype: LerrType, message: &str) -> (r: Lerr)
    requires
        etype != LerrType::Interrupt,
    ensures
        r.fault() == Failure::Failed(etype),
{
    Lerr::new(etype, String::from_str(message))
}

/// What a result of evaluation is, as the contracts see it.
pub open spec fn outcome(r: Result<Lval, Lerr>) -> Result<Value, Failure> {
    match r {
        Ok(v) => Ok(v@),
        Err(e) => Err(e.fault()),
    }
}

// ---------------------------------------------------------------------------
// Copies
impl Lval {
    /// A copy that no later change of `self` can reach.
    pub fn deep_clone(&self) -> (r: Lval)
        ensures
            r@ == self@,
        decreases self,
    {
        match self {
            Lval::Sym(s) => Lval::Sym(s.clone()),
            Lval::Num(n) => Lval::Num(*n),
            Lval::Sexpr(v) => Lval::Sexpr(clone_vals(v)),
            Lval::Qexpr(v) => Lval::Qexpr(clone_vals(v)),
            Lval::Fun(name, b) => Lval::Fun(name.clone(), *b),
            Lval::Lambda(l) => {
                let args = clone_names(&l.args);
                let body = clone_vals(&l.body);
                let entries = clone_entries(&l.env.entries);
                Lval::Lambda(Llambda { args, body, env: Lookup { entries } })
            },
            Lval::Str(s) => Lval::Str(s.clone()),
        }
    }
}

pub fn clone_vals(v: &Vec<Lval>) -> (r: Vec<Lval>)
    ensures
        vals_view(r@) == vals_view(v@),
    decreases v,
{
    let mut r: Vec<Lval> = Vec::new();
    let mut i: usize = 0;
    while i < v.len()
        invariant
            i <= v.len(),
            r@.len() == i,
            forall|j: int| 0 <= j < i ==> #[trigger] r@[j]@ == v@[j]@,
        decreases v.len() - i,
    {
        let c = v[i].deep_clone();
        r.push(c);
        i += 1;
    }
    proof {
        lemma_vals_view(v@);
        lemma_vals_view_ext(r@, vals_view(v@));
    }
    r
}

pub fn clone_names(v: &Vec<String>) -> (r: Vec<String>)
    ensures
        names_view(r@) == names_view(v@),
{
    let mut r: Vec<String> = Vec::new();
    let mut i: usize = 0;
    while i < v.len()
        invariant
            i <= v.len(),
            r@.len() == i,
            forall|j: int| 0 <= j < i ==> #[trigger] r@[j]@ == v@[j]@,
        decreases v.len() - i,
    {
        r.push(v[i].clone());
        i += 1;
    }
    assert(names_view(r@) =~= names_view(v@));
    r
}

pub fn clone_entries(v: &Vec<(String, Lval)>) -> (r: Vec<(String, Lval)>)
    ensures
        entries_view(r@) == entries_view(v@),
    decreases v,
{
    let mut r: Vec<(String, Lval)> = Vec::new();
    let mut i: usize = 0;
    while i < v.len()
        invariant
            i <= v.len(),
            r@.len() == i,
            forall|j: int|
                0 <= j < i ==> (#[trigger] r@[j]).0@ == v@[j].0@ && r@[j].1@ == v@[j].1@,
        decreases v.len() - i,
    {
        let k = v[i].0.clone();
        let x = v[i].1.deep_clone();
        r.push((k, x));
        i += 1;
    }
    proof {
        lemma_entries_view(v@);
        lemma_entries_view_ext(r@, entries_view(v@));
    }
    r
}

// ---------------------------------------------------------------------------
// Equality: by variant and content; builtins by name; closures by parameters
// and body, never by captured frame.
pub open spec fn same(a: Value, b: Value) -> bool
    decreases a,
{
    match a {
        Value::Sym(x) => b matches Value::Sym(y) && x == y,
        Value::Num(x) => b matches Value::Num(y) && x == y,
        Value::Sexpr(xs) => b matches Value::Sexpr(ys) && same_all(xs, ys),
        Value::Qexpr(xs) => b matches Value::Qexpr(ys) && same_all(xs, ys),
        Value::Fun(x, _) => b matches Value::Fun(y, _) && x == y,
        Value::Lambda(p, xs, _) => b matches Value::Lambda(q, ys, _) && p == q && same_all(xs, ys),
        Value::Str(x) => b matches Value::Str(y) && x == y,
    }
}

pub open spec fn same_all(xs: Seq<Value>, ys: Seq<Value>) -> bool
    decreases xs,
{
    xs.len() == ys.len() && (xs.len() == 0 || (same_all(xs.drop_last(), ys.drop_last()) && same(
        xs.last(),
        ys.last(),
    )))
}

pub proof fn lemma_same_all(xs: Seq<Value>, ys: Seq<Value>)
    ensures
        same_all(xs, ys) <==> (xs.len() == ys.len() && forall|i: int|
            0 <= i < xs.len() ==> #[trigger] same(xs[i], ys[i])),
    decreases xs.len(),
{
    if xs.len() > 0 && xs.len() == ys.len() {
        lemma_same_all(xs.drop_last(), ys.drop_last());
        let n = xs.len() - 1;
        assert(xs.last() == xs[n] && ys.last() == ys[n]);
        if same_all(xs, ys) {
            assert forall|i: int| 0 <= i < xs.len() implies #[trigger] same(xs[i], ys[i]) by {
                if i < n {
                    assert(xs.drop_last()[i] == xs[i]);
                    assert(ys.drop_last()[i] == ys[i]);
                }
            }
        }
        if forall|i: int| 0 <= i < xs.len() ==> #[trigger] same(xs[i], ys[i]) {
            assert forall|i: int| 0 <= i < xs.drop_last().len() implies #[trigger] same(
                xs.drop_last()[i],
                ys.drop_last()[i],
            ) by {
                assert(same(xs[i], ys[i]));
            }
            assert(same(xs[n], ys[n]));
            assert(same_all(xs, ys));
        }
    }
}

impl Lval {
    /// Structural equality of the language.
    pub fn equals(&self, other: &Lval) -> (r: bool)
        ensures
            r == same(self@, other@),
        decreases self,
    {
        match self {
            Lval::Sym(x) => match other {
                Lval::Sym(y) => *x == *y,
                _ => false,
            },
            Lval::Num(x) => match other {
                Lval::Num(y) => *x == *y,
                _ => false,
            },
            Lval::Sexpr(xs) => match other {
                Lval::Sexpr(ys) => equals_all(xs, ys),
                _ => false,
            },
            Lval::Qexpr(xs) => match other {
                Lval::Qexpr(ys) => equals_all(xs, ys),
                _ => false,
            },
            Lval::Fun(x, _) => match other {
                Lval::Fun(y, _) => *x == *y,
                _ => false,
            },
            Lval::Lambda(l) => match other {
                Lval::Lambda(m) => equal_names(&l.args, &m.args) && equals_all(&l.body, &m.body),
                _ => false,
            },
            Lval::Str(x) => match other {
                Lval::Str(y) => *x == *y,
                _ => false,
            },
        }
    }
}

pub fn equals_all(xs: &Vec<Lval>, ys: &Vec<Lval>) -> (r: bool)
    ensures
        r == same_all(vals_view(xs@), vals_view(ys@)),
    decreases xs,
{
    proof {
        lemma_vals_view(xs@);
        lemma_vals_view(ys@);
        lemma_same_all(vals_view(xs@), vals_view(ys@));
    }
    if xs.len() != ys.len() {
        return false;
    }
    let mut i: usize = 0;
    while i < xs.len()
        invariant
            i <= xs.len(),
            xs.len() == ys.len(),
            same_all(vals_view(xs@), vals_view(ys@)) <==> (forall|j: int|
                0 <= j < xs.len() ==> #[trigger] same(vals_view(xs@)[j], vals_view(ys@)[j])),
            vals_view(xs@).len() == xs.len(),
            vals_view(ys@).len() == ys.len(),
            forall|j: int| 0 <= j < xs.len() ==> #[trigger] vals_view(xs@)[j] == xs@[j]@,
            forall|j: int| 0 <= j < ys.len() ==> #[trigger] vals_view(ys@)[j] == ys@[j]@,
            forall|j: int| 0 <= j < i ==> #[trigger] same(vals_view(xs@)[j], vals_view(ys@)[j]),
        decreases xs.len() - i,
    {
        if !xs[i].equals(&ys[i]) {
            proof {
                assert(vals_view(xs@)[i as int] == xs@[i as int]@);
                assert(vals_view(ys@)[i as int] == ys@[i as int]@);
            }
            return false;
        }
        i += 1;
    }
    true
}

pub fn equal_names(xs: &Vec<String>, ys: &Vec<String>) -> (r: bool)
    ensures
        r == (names_view(xs@) == names_view(ys@)),
{
    if xs.len() != ys.len() {
        proof {
            assert(names_view(xs@).len() != names_view(ys@).len());
        }
        return false;
    }
    let mut i: usize = 0;
    while i < xs.len()
        invariant
            i <= xs.len(),
            xs.len() == ys.len(),
            forall|j: int| 0 <= j < i ==> #[trigger] xs@[j]@ == ys@[j]@,
        decreases xs.len() - i,
    {
        if xs[i] != ys[i] {
            proof {
                assert(names_view(xs@)[i as int] != names_view(ys@)[i as int]);
            }
            return false;
        }
        i += 1;
    }
    assert(names_view(xs@) =~= names_view(ys@));
    true
}

impl Clone for Lval {
    fn clone(&self) -> (r: Lval)
        ensures
            r@ == self@,
    {
        self.deep_clone()
    }
}

impl Clone for Llambda {
    fn clone(&self) -> (r: Llambda)
        ensures
            names_view(r.args@) == names_view(self.args@),
            vals_view(r.body@) == vals_view(self.body@),
            entries_view(r.env.entries@) == entries_view(self.env.entries@),
    {
        Llambda {
            args: clone_names(&self.args),
            body: clone_vals(&self.body),
            env: Lookup { entries: clone_entries(&self.env.entries) },
        }
    }
}

impl Clone for Lookup {
    fn clone(&self) -> (r: Lookup)
        ensures
            r@ == self@,
    {
        Lookup { entries: clone_entries(&self.entries) }
    }
}

impl Llambda {
    /// A closure over `lookup` with the given parameters and body.
    pub fn new(args: Vec<String>, body: Vec<Lval>, lookup: Lookup) -> (r: Llambda)
        ensures
            r.args == args,
            r.body == body,
            r.env == lookup,
    {
        Llambda { args, body, env: lookup }
    }
}

/// The number held, if the value is a number.
pub fn to_num(expr: Lval) -> (r: Option<i64>)
    ensures
        match expr@ {
            Value::Num(n) => r == Some(n),
            _ => r is None,
        },
{
    match expr {
        Lval::Num(n) => Some(n),
        _ => None,
    }
}

/// The name held, if the value is a symbol.
pub fn to_sym(expr: Lval) -> (r: Option<String>)
    ensures
        match expr@ {
            Value::Sym(s) => r matches Some(x) && x@ == s,
            _ => r is None,
        },
{
    match expr {
        Lval::Sym(s) => Some(s),
        _ => None,
    }
}

/// The text held, if the value is a string.
pub fn to_str(expr: Lval) -> (r: Option<String>)
    ensures
        match expr@ {
            Value::Str(s) => r matches Some(x) && x@ == s,
            _ => r is None,
        },
{
    match expr {
        Lval::Str(s) => Some(s),
        _ => None,
    }
}

/// The items held, if the value is a quoted list.
pub fn to_qexpr(expr: Lval) -> (r: Option<Vec<Lval>>)
    ensures
        match expr@ {
            Value::Qexpr(q) => r matches Some(x) && vals_view(x@) == q,
            _ => r is None,
        },
{
    match expr {
        Lval::Qexpr(q) => Some(q),
        _ => None,
    }
}

/// A copy of the closure, if the value is a closure.
pub fn to_lambda(expr: &Lval) -> (r: Option<Llambda>)
    ensures
        match expr@ {
            Value::Lambda(ps, body, fr) => r matches Some(l) && names_view(l.args@) == ps
                && vals_view(l.body@) == body && l.env@ == fr,
            _ => r is None,
        },
{
    match expr {
        Lval::Lambda(l) => Some(l.clone()),
        _ => None,
    }
}

impl PartialEq for Lval {
    fn eq(&self, other: &Lval) -> (r: bool) {
        self.equals(other)
    }
}

impl vstd::std_specs::cmp::PartialEqSpecImpl for Lval {
    open spec fn obeys_eq_spec() -> bool {
        true
    }

    open spec fn eq_spec(&self, other: &Lval) -> bool {
        same(self@, other@)
    }
}

} // verus!
