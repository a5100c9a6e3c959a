use bebop_lang::{
    call, eval, eval_symbol, eval_with, init_env, to_lambda, Builtin, LerrType, Llambda, Lookup, Lval,
};

fn sym(s: &str) -> Lval {
    Lval::Sym(String::from(s))
}

#[test]
fn it_handles_singular_numbers() {
    let env = &mut init_env();
    assert_eq!(eval(env, Lval::Num(1)).unwrap(), Lval::Num(1));
    assert_eq!(eval(env, Lval::Sexpr(vec![Lval::Num(1)])).unwrap(), Lval::Num(1));
}

#[test]
fn it_handles_singular_symbols() {
    let env = &mut init_env();
    assert_eq!(eval(env, sym("+")).unwrap(), Lval::Fun(String::from("+"), Builtin::Add));
    // A lone callable is invoked with no arguments; `*` needs at least one.
    assert_eq!(
        eval(env, Lval::Sexpr(vec![sym("*")])).unwrap_err().etype,
        LerrType::IncorrectParamCount
    );
}

#[test]
fn it_handles_empty_expressions() {
    let env = &mut init_env();
    assert_eq!(eval(env, Lval::Sexpr(vec![])).unwrap(), Lval::Sexpr(vec![]));
    assert_eq!(
        eval(env, Lval::Sexpr(vec![Lval::Sexpr(vec![Lval::Sexpr(vec![])])])).unwrap(),
        Lval::Sexpr(vec![])
    );
}

#[test]
fn it_uses_operators_properly() {
    let env = &mut init_env();
    assert_eq!(
        eval(env, Lval::Sexpr(vec![sym("+"), Lval::Num(1), Lval::Num(1)])).unwrap(),
        Lval::Num(2)
    );
    let _ = eval(env, Lval::Sexpr(vec![sym("+"), sym("+"), Lval::Num(1)]))
        .map_err(|err| assert_eq!(err.etype, LerrType::BadNum));
    let _ = eval(env, Lval::Sexpr(vec![Lval::Num(1), Lval::Num(1), Lval::Num(1)]))
        .map_err(|err| assert_eq!(err.etype, LerrType::BadOp));
}

#[test]
fn it_handles_nested_sexpressions() {
    let env = &mut init_env();
    assert_eq!(
        eval(
            env,
            Lval::Sexpr(vec![
                sym("+"),
                Lval::Num(1),
                Lval::Sexpr(vec![sym("+"), Lval::Num(1), Lval::Num(1)]),
            ])
        )
        .unwrap(),
        Lval::Num(3)
    );
}

#[test]
fn it_handles_symbols() {
    let mut env = init_env();
    let def = |name: &str, n: i64| {
        Lval::Sexpr(vec![sym("def"), Lval::Qexpr(vec![sym(name)]), Lval::Num(n)])
    };

    assert_eq!(eval(&mut env, def("a", 1)).unwrap(), Lval::Sexpr(vec![]));
    assert_eq!(eval_symbol(&mut env, String::from("a")).unwrap(), Lval::Num(1));

    env.push(Lookup::new());
    assert_eq!(eval(&mut env, def("b", 2)).unwrap(), Lval::Sexpr(vec![]));
    assert_eq!(eval_symbol(&mut env, String::from("a")).unwrap(), Lval::Num(1));
    assert_eq!(eval_symbol(&mut env, String::from("b")).unwrap(), Lval::Num(2));

    assert_eq!(eval(&mut env, def("c", 3)).unwrap(), Lval::Sexpr(vec![]));
    assert_eq!(eval_symbol(&mut env, String::from("a")).unwrap(), Lval::Num(1));
    assert_eq!(eval_symbol(&mut env, String::from("b")).unwrap(), Lval::Num(2));
    assert_eq!(eval_symbol(&mut env, String::from("c")).unwrap(), Lval::Num(3));
}

#[test]
fn it_handles_lambdas() {
    let env = &mut init_env();

    let immediately_invoked =
        Llambda::new(vec![], vec![Lval::Num(71)], env.peek().unwrap().clone());
    assert_eq!(
        eval(env, Lval::Sexpr(vec![Lval::Lambda(immediately_invoked)])).unwrap(),
        Lval::Num(71)
    );

    // normal usage
    let lambda = Llambda::new(
        vec![String::from("a")],
        vec![sym("+"), sym("a"), sym("a")],
        env.peek().unwrap().clone(),
    );
    assert_eq!(call(env, lambda, vec![Lval::Num(5)]).unwrap(), Lval::Num(10));

    // partial application
    let lambda = Llambda::new(
        vec![String::from("c"), String::from("d")],
        vec![sym("*"), sym("c"), sym("d")],
        env.peek().unwrap().clone(),
    );
    let new_lambda = call(env, lambda, vec![Lval::Num(15)]).unwrap();
    assert_eq!(
        call(env, to_lambda(&new_lambda).unwrap(), vec![Lval::Num(5)]).unwrap(),
        Lval::Num(75)
    );
}

#[test]
fn it_handles_nested_lambdas() {
    let env = &mut init_env();

    let f = Lval::Sexpr(vec![
        Lval::Sexpr(vec![
            sym("\\"),
            Lval::Qexpr(vec![sym("e")]),
            Lval::Qexpr(vec![sym("\\"), Lval::Qexpr(vec![sym("f")]), Lval::Qexpr(vec![sym("e")])]),
        ]),
        Lval::Num(5),
    ]);

    // defining e
    let partial = eval(env, f).unwrap();
    let partial_lambda = to_lambda(&partial).unwrap();
    assert_eq!(partial_lambda.args.len(), 1);
    assert!(partial_lambda.env.get("+").is_some()); // we want the std lib
    assert!(partial_lambda.env.get("e").is_some()); // we want e to get defined

    assert_eq!(call(env, partial_lambda, vec![Lval::Num(25)]).unwrap(), Lval::Num(5));
}

#[test]
fn rest_parameters_collect_the_remaining_arguments() {
    let env = &mut init_env();
    let lambda = Llambda::new(
        vec![String::from("x"), String::from(":"), String::from("xs")],
        vec![sym("xs")],
        env.peek().unwrap().clone(),
    );
    assert_eq!(
        call(env, lambda, vec![Lval::Num(1), Lval::Num(2), Lval::Num(3)]).unwrap(),
        Lval::Qexpr(vec![Lval::Num(2), Lval::Num(3)])
    );
}

#[test]
fn a_rest_marker_must_be_followed_by_one_name() {
    let env = &mut init_env();
    let lambda = Llambda::new(
        vec![String::from(":"), String::from("a"), String::from("b")],
        vec![sym("a")],
        env.peek().unwrap().clone(),
    );
    assert_eq!(
        call(env, lambda, vec![Lval::Num(1)]).unwrap_err().etype,
        LerrType::IncorrectParamCount
    );
}

#[test]
fn too_many_arguments_is_an_error() {
    let env = &mut init_env();
    let lambda = Llambda::new(vec![String::from("a")], vec![sym("a")], env.peek().unwrap().clone());
    assert_eq!(
        call(env, lambda, vec![Lval::Num(1), Lval::Num(2)]).unwrap_err().etype,
        LerrType::IncorrectParamCount
    );
}

#[test]
fn unbound_symbols_are_errors() {
    let env = &mut init_env();
    assert_eq!(eval(env, sym("nowhere")).unwrap_err().etype, LerrType::UnboundSymbol);
}

#[test]
fn the_environment_keeps_its_depth_across_a_call() {
    let env = &mut init_env();
    let lambda = Llambda::new(vec![String::from("a")], vec![sym("a")], env.peek().unwrap().clone());
    let before = env.depth();
    let _ = call(env, lambda, vec![Lval::Num(1)]);
    assert_eq!(env.depth(), before);
}

#[test]
fn runaway_recursion_stops_at_the_depth_budget() {
    let mut expr = Lval::Num(1);
    for _ in 0..10 {
        expr = Lval::Sexpr(vec![expr]);
    }
    let env = &mut init_env();
    assert_eq!(eval_with(env, expr.clone(), 5).unwrap_err().etype, LerrType::DepthExceeded);
    assert_eq!(eval_with(env, expr, 10).unwrap(), Lval::Num(1));
    assert_eq!(env.depth(), 1);
}
