use bebop_lang::{
    builtin_concat, builtin_def, builtin_eval, builtin_head, builtin_if, builtin_join,
    builtin_lambda, builtin_list, builtin_ord, builtin_tail, eval, init_env, to_lambda, Builtin,
    LerrType, Lval,
};

fn sym(s: &str) -> Lval {
    Lval::Sym(String::from(s))
}

fn sample() -> Lval {
    Lval::Qexpr(vec![
        sym("+"),
        Lval::Num(1),
        Lval::Sexpr(vec![sym("+"), Lval::Num(1), Lval::Num(1)]),
    ])
}

#[test]
fn it_correctly_uses_head() {
    let env = &mut init_env();
    let expr = sample();
    assert_eq!(builtin_head(env, vec![expr.clone()]).unwrap(), sym("+"));

    let _ = builtin_head(env, vec![])
        .map_err(|err| assert_eq!(err.etype, LerrType::IncorrectParamCount));

    let _ = builtin_head(env, vec![sym("+")])
        .map_err(|err| assert_eq!(err.etype, LerrType::WrongType));

    let _ = builtin_head(env, vec![Lval::Qexpr(vec![])])
        .map_err(|err| assert_eq!(err.etype, LerrType::EmptyList));
}

#[test]
fn it_correctly_uses_tail() {
    let env = &mut init_env();
    let expr = sample();
    assert_eq!(
        builtin_tail(env, vec![expr.clone()]).unwrap(),
        Lval::Qexpr(vec![
            Lval::Num(1),
            Lval::Sexpr(vec![sym("+"), Lval::Num(1), Lval::Num(1)]),
        ])
    );
    let _ = builtin_tail(env, vec![])
        .map_err(|err| assert_eq!(err.etype, LerrType::IncorrectParamCount));

    let _ = builtin_tail(env, vec![sym("+")])
        .map_err(|err| assert_eq!(err.etype, LerrType::WrongType));

    let _ = builtin_tail(env, vec![Lval::Qexpr(vec![])])
        .map_err(|err| assert_eq!(err.etype, LerrType::EmptyList));
}

#[test]
fn it_correctly_uses_list() {
    let env = &mut init_env();
    let expr = vec![
        sym("+"),
        Lval::Num(1),
        Lval::Sexpr(vec![sym("+"), Lval::Num(1), Lval::Num(1)]),
    ];
    assert_eq!(
        builtin_list(env, expr.clone()).unwrap(),
        Lval::Qexpr(vec![
            sym("+"),
            Lval::Num(1),
            Lval::Sexpr(vec![sym("+"), Lval::Num(1), Lval::Num(1)]),
        ])
    );
    assert_eq!(
        builtin_list(env, vec![sym("+"), Lval::Num(1), Lval::Num(1)]).unwrap(),
        Lval::Qexpr(vec![sym("+"), Lval::Num(1), Lval::Num(1)])
    );
    assert_eq!(builtin_list(env, vec![]).unwrap(), Lval::Qexpr(vec![]));
    assert_eq!(builtin_list(env, vec![sym("+")]).unwrap(), Lval::Qexpr(vec![sym("+")]));
    assert_eq!(
        builtin_list(env, vec![Lval::Sexpr(vec![])]).unwrap(),
        Lval::Qexpr(vec![Lval::Sexpr(vec![])])
    );
}

#[test]
fn it_correctly_uses_eval() {
    let env = &mut init_env();
    let expr = sample();
    assert_eq!(builtin_eval(env, vec![expr.clone()]).unwrap(), Lval::Num(3));

    let _ = builtin_eval(env, vec![expr.clone(), expr.clone()])
        .map_err(|err| assert_eq!(err.etype, LerrType::IncorrectParamCount));

    let _ = builtin_eval(env, vec![])
        .map_err(|err| assert_eq!(err.etype, LerrType::IncorrectParamCount));

    assert_eq!(
        builtin_eval(env, vec![sym("-")]).unwrap(),
        Lval::Fun(String::from("-"), Builtin::Sub)
    );
    // A lone callable is invoked with no arguments; `-` needs at least one.
    assert_eq!(
        builtin_eval(env, vec![Lval::Sexpr(vec![sym("-")])]).unwrap_err().etype,
        LerrType::IncorrectParamCount
    );
    assert_eq!(builtin_eval(env, vec![Lval::Qexpr(vec![])]).unwrap(), Lval::Sexpr(vec![]));
}

#[test]
fn it_correctly_uses_join() {
    let env = &mut init_env();
    let expr = sample();
    assert_eq!(
        builtin_join(env, vec![expr.clone(), expr.clone()]).unwrap(),
        Lval::Qexpr(vec![
            sym("+"),
            Lval::Num(1),
            Lval::Sexpr(vec![sym("+"), Lval::Num(1), Lval::Num(1)]),
            sym("+"),
            Lval::Num(1),
            Lval::Sexpr(vec![sym("+"), Lval::Num(1), Lval::Num(1)]),
        ])
    );

    let _ = builtin_join(env, vec![expr.clone()])
        .map_err(|err| assert_eq!(err.etype, LerrType::IncorrectParamCount));

    let _ = builtin_join(env, vec![])
        .map_err(|err| assert_eq!(err.etype, LerrType::IncorrectParamCount));

    let _ = builtin_join(env, vec![expr.clone(), sym("+")])
        .map_err(|err| assert_eq!(err.etype, LerrType::WrongType));

    assert_eq!(
        builtin_join(env, vec![expr.clone(), Lval::Qexpr(vec![])]).unwrap(),
        Lval::Qexpr(vec![
            sym("+"),
            Lval::Num(1),
            Lval::Sexpr(vec![sym("+"), Lval::Num(1), Lval::Num(1)]),
        ])
    );
}

#[test]
fn it_correctly_uses_concat() {
    let env = &mut init_env();
    assert_eq!(
        builtin_concat(
            env,
            vec![
                Lval::Str(String::from("ceci")),
                Lval::Str(String::from(" n'est")),
                Lval::Str(String::from(" pas")),
                Lval::Str(String::from(" une")),
                Lval::Str(String::from(" pipe"))
            ]
        )
        .unwrap(),
        Lval::Str(String::from("ceci n'est pas une pipe"))
    );
}

#[test]
fn it_correctly_uses_define() {
    let env = &mut init_env();
    assert_eq!(
        builtin_def(
            env,
            vec![
                Lval::Qexpr(vec![sym("a"), sym("b"), sym("c")]),
                Lval::Num(1),
                sym("+"),
                Lval::Sexpr(vec![]),
            ]
        )
        .unwrap(),
        Lval::Sexpr(vec![])
    );
    assert_eq!(eval(env, sym("a")).unwrap(), Lval::Num(1));
    assert_eq!(eval(env, sym("b")).unwrap(), sym("+"));
    assert_eq!(eval(env, sym("c")).unwrap(), Lval::Sexpr(vec![]));
    let _ = builtin_def(env, vec![Lval::Qexpr(vec![sym("a"), sym("b"), sym("c")])])
        .map_err(|err| assert_eq!(err.etype, LerrType::IncorrectParamCount));

    let _ = builtin_def(
        env,
        vec![
            Lval::Qexpr(vec![sym("a"), sym("b")]),
            Lval::Num(1),
            sym("+"),
            sym("+"),
        ],
    )
    .map_err(|err| assert_eq!(err.etype, LerrType::IncorrectParamCount));
    let _ = builtin_def(env, vec![Lval::Qexpr(vec![Lval::Num(1)]), Lval::Num(1)])
        .map_err(|err| assert_eq!(err.etype, LerrType::WrongType));
}

#[test]
fn it_correctly_uses_lambda() {
    let env = &mut init_env();
    assert!(to_lambda(
        &builtin_lambda(
            env,
            vec![
                Lval::Qexpr(vec![sym("a"), sym("b")]),
                Lval::Qexpr(vec![sym("+"), sym("a"), sym("b")]),
            ]
        )
        .unwrap()
    )
    .is_some());

    let expr = Lval::Sexpr(vec![
        Lval::Sexpr(vec![
            sym("\\"),
            Lval::Qexpr(vec![sym("a"), sym("b")]),
            Lval::Qexpr(vec![sym("+"), sym("a"), sym("b")]),
        ]),
        Lval::Num(2),
        Lval::Num(2),
    ]);
    assert_eq!(eval(env, expr).unwrap(), Lval::Num(4));
}

#[test]
fn it_correctly_uses_ord() {
    let lt = |a: i64, b: i64| builtin_ord(Builtin::Lt, vec![Lval::Num(a), Lval::Num(b)]);
    let gt = |a: i64, b: i64| builtin_ord(Builtin::Gt, vec![Lval::Num(a), Lval::Num(b)]);
    let ge = |a: i64, b: i64| builtin_ord(Builtin::Ge, vec![Lval::Num(a), Lval::Num(b)]);
    let le = |a: i64, b: i64| builtin_ord(Builtin::Le, vec![Lval::Num(a), Lval::Num(b)]);
    assert_eq!(lt(1, 2).unwrap(), Lval::Num(1));
    assert_eq!(lt(2, 1).unwrap(), Lval::Num(0));

    assert_eq!(gt(1, 2).unwrap(), Lval::Num(0));
    assert_eq!(gt(2, 1).unwrap(), Lval::Num(1));

    assert_eq!(ge(1, 2).unwrap(), Lval::Num(0));
    assert_eq!(ge(2, 1).unwrap(), Lval::Num(1));
    assert_eq!(ge(2, 2).unwrap(), Lval::Num(1));

    assert_eq!(le(1, 2).unwrap(), Lval::Num(1));
    assert_eq!(le(2, 1).unwrap(), Lval::Num(0));
    assert_eq!(le(2, 2).unwrap(), Lval::Num(1));
}

#[test]
fn it_correctly_uses_if() {
    let env = &mut init_env();
    assert_eq!(
        builtin_if(
            env,
            vec![
                Lval::Num(1),
                Lval::Qexpr(vec![Lval::Num(6)]),
                Lval::Qexpr(vec![Lval::Num(9)])
            ]
        )
        .unwrap(),
        Lval::Num(6)
    );
    assert_eq!(
        builtin_if(
            env,
            vec![
                Lval::Num(0),
                Lval::Qexpr(vec![Lval::Num(6)]),
                Lval::Qexpr(vec![Lval::Num(9)])
            ]
        )
        .unwrap(),
        Lval::Num(9)
    );
}
