//! The source-text entry point: read, evaluate, and render the outcome as text.
use vstd::prelude::*;
use crate::env::Lenv;
use crate::eval::{DEPTH, eval, eval_by, readings};
use crate::parser::{Context, ParseError, ParseFail, root, root_spec};
use crate::print::{error_text, kind_text, nat_text, print_spec, push_nat, push_str, string_of};
use crate::value::{Failure, LerrType, Lval, Value, outcome};

verus! {

pub open spec fn context_name(c: Context) -> Seq<char> {
    match c {
        Context::Number => "Number"@,
        Context::Symbol => "Symbol"@,
        Context::String => "String"@,
        Context::SExpression => "S-Expression"@,
        Context::QExpression => "Q-Expression"@,
        Context::Root => "Expression"@,
    }
}

fn context_str(c: Context) -> (r: &'static str)
    ensures
        r@ == context_name(c),
{
    match c {
        Context::Number => "Number",
        Context::Symbol => "Symbol",
        Context::String => "String",
        Context::SExpression => "S-Expression",
        Context::QExpression => "Q-Expression",
        Context::Root => "Expression",
    }
}

/// `, within <context>` for each enclosing expression, innermost first.
pub open spec fn trail_text(t: Seq<Context>) -> Seq<char>
    decreases t.len(),
{
    if t.len() == 0 {
        Seq::empty()
    } else {
        trail_text(t.drop_last()) + ", within "@ + context_name(t.last())
    }
}

/// `Error: Parsing Error - Could not parse the input; at <position> in <context>`
/// followed by the trail.
pub open spec fn fail_text(f: ParseFail) -> Seq<char> {
    "Error: Parsing Error - Could not parse the input; at "@ + nat_text(f.0 as nat) + " in "@
        + context_name(f.1) + trail_text(f.2)
}

pub open spec fn parse_error_text(e: ParseError) -> Seq<char> {
    fail_text((e.position as int, e.context, e.trail@))
}

/// How an outcome of evaluation is shown: a value by its printed form; an
/// error raised by the program by its message; any other error by its kind
/// and the description of the kind, with a message of its own.
pub open spec fn shown(res: Result<Value, Failure>, r: Result<String, String>) -> bool {
    match res {
        Ok(v) => r matches Ok(t) && t@ == print_spec(v),
        Err(Failure::Raised(m)) => r matches Err(t) && t@ == kind_text(LerrType::Interrupt, m),
        Err(Failure::Failed(k)) => r matches Err(t) && exists|m: Seq<char>|
            t@ == #[trigger] kind_text(k, m),
    }
}

impl ParseError {
    pub fn to_text(&self) -> (r: String)
        ensures
            r@ == parse_error_text(*self),
    {
        let mut out: Vec<char> = Vec::new();
        push_str(&mut out, "Error: Parsing Error - Could not parse the input; at ");
        push_nat(&mut out, self.position as u64);
        push_str(&mut out, " in ");
        push_str(&mut out, context_str(self.context));
        let mut i: usize = 0;
        assert(self.trail@.take(0) =~= Seq::<Context>::empty());
        while i < self.trail.len()
            invariant
                i <= self.trail.len(),
                out@ == "Error: Parsing Error - Could not parse the input; at "@ + nat_text(
                    self.position as nat,
                ) + " in "@ + context_name(self.context) + trail_text(self.trail@.take(i as int)),
            decreases self.trail.len() - i,
        {
            assert(self.trail@.take(i + 1).drop_last() =~= self.trail@.take(i as int));
            push_str(&mut out, ", within ");
            push_str(&mut out, context_str(self.trail[i]));
            i += 1;
            assert(out@ =~= "Error: Parsing Error - Could not parse the input; at "@ + nat_text(
                self.position as nat,
            ) + " in "@ + context_name(self.context) + trail_text(self.trail@.take(i as int)));
        }
        assert(self.trail@.take(i as int) =~= self.trail@);
        assert(out@ =~= parse_error_text(*self));
        string_of(&out)
    }
}

/// The language as a whole: source text in, printed result or diagnostic out.
pub struct Lisp;

impl Lisp {
    /// Evaluates a parsed value: the printed result, or the error's diagnostic line.
    pub fn from_ast(env: &mut Lenv, ast: Lval) -> (r: Result<String, String>)
        ensures
            exists|u: Seq<u32>, res: Result<Value, Failure>|
                readings(u) && #[trigger] eval_by(old(env)@, ast@, DEPTH as nat, u, final(env)@, res)
                    && shown(res, r),
    {
        let ghost e0 = env@;
        let ghost a = ast@;
        let v = eval(env, ast);
        let ghost u = choose|u: Seq<u32>|
            readings(u) && eval_by(e0, a, DEPTH as nat, u, env@, outcome(v));
        let r = match v {
            Ok(x) => Ok(x.to_text()),
            Err(e) => {
                proof {
                    if e.etype != LerrType::Interrupt {
                        assert(error_text(e) == kind_text(e.etype, e.message@));
                    }
                }
                Err(e.to_text())
            },
        };
        assert(readings(u) && eval_by(e0, a, DEPTH as nat, u, env@, outcome(v)) && shown(outcome(v), r));
        r
    }

    /// Reads and evaluates source text. Text that does not read is reported
    /// with its position and context, and nothing is evaluated.
    pub fn from_source(env: &mut Lenv, source: &str) -> (r: Result<String, String>)
        ensures
            match root_spec(source@) {
                Err(f) => final(env)@ == old(env)@ && (r matches Err(t) && t@ == fail_text(f)),
                Ok(ast) => exists|u: Seq<u32>, res: Result<Value, Failure>|
                    readings(u) && #[trigger] eval_by(old(env)@, ast, DEPTH as nat, u, final(env)@, res)
                        && shown(res, r),
            },
    {
        match root(source) {
            Ok(ast) => Lisp::from_ast(env, ast),
            Err(e) => Err(e.to_text()),
        }
    }
}

/// What a front end calls: evaluate a parsed value, or read and evaluate
/// source text, and get the outcome as text.
pub trait Compile {
    fn from_ast(env: &mut Lenv, ast: Lval) -> Result<String, String>;

    fn from_source(env: &mut Lenv, source: &str) -> Result<String, String>;
}

impl Compile for Lisp {
    fn from_ast(env: &mut Lenv, ast: Lval) -> Result<String, String> {
        Lisp::from_ast(env, ast)
    }

    fn from_source(env: &mut Lenv, source: &str) -> Result<String, String> {
        Lisp::from_source(env, source)
    }
}

} // verus!
