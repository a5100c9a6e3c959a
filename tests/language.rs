use bebop_lang::{
    builtin_echo, builtin_err, builtin_op, builtin_rand, call, eval, init_env, parse_expression,
    rand_from_reading, Compile,
    root, to_lambda, Builtin, Lenv, Lerr, LerrType, Lisp, Lookup, Lval,
};

fn run(env: &mut Lenv, text: &str) -> Result<Lval, Lerr> {
    eval(env, root(text).unwrap())
}

#[test]
fn adding_numbers_gives_their_sum() {
    let env = &mut init_env();
    assert_eq!(run(env, "+ 2 40").unwrap(), Lval::Num(42));
    assert_eq!(run(env, "+ -7 3").unwrap(), Lval::Num(-4));
    assert_eq!(run(env, "+ 1 2 3").unwrap(), Lval::Num(6));
}

#[test]
fn dividing_by_zero_fails_whatever_the_left_operand() {
    let env = &mut init_env();
    for text in ["/ 1 0", "/ 0 0", "/ -5 0", "% 7 0"] {
        assert_eq!(run(env, text).unwrap_err().etype, LerrType::DivZero);
    }
}

#[test]
fn arithmetic_folds_from_the_left() {
    let env = &mut init_env();
    assert_eq!(run(env, "- 10 3 2").unwrap(), Lval::Num(5));
    assert_eq!(run(env, "/ 100 5 2").unwrap(), Lval::Num(10));
    assert_eq!(run(env, "% 17 5").unwrap(), Lval::Num(2));
    assert_eq!(run(env, "* 2 3 4").unwrap(), Lval::Num(24));
    assert_eq!(run(env, "- 5").unwrap(), Lval::Num(-5));
    assert_eq!(run(env, "+ 5").unwrap(), Lval::Num(5));
    assert_eq!(run(env, "! 0").unwrap(), Lval::Num(1));
    assert_eq!(run(env, "! 3").unwrap(), Lval::Num(0));
}

#[test]
fn arithmetic_that_does_not_fit_is_a_bad_operand() {
    let env = &mut init_env();
    assert_eq!(run(env, "+ 9223372036854775807 1").unwrap_err().etype, LerrType::BadNum);
    assert_eq!(run(env, "- -9223372036854775808").unwrap_err().etype, LerrType::BadNum);
    assert_eq!(
        builtin_op(Builtin::Add, vec![Lval::Num(1), Lval::Str(String::from("x"))])
            .unwrap_err()
            .etype,
        LerrType::BadNum
    );
}

#[test]
fn not_takes_exactly_one_operand() {
    assert_eq!(
        builtin_op(Builtin::Not, vec![Lval::Num(1), Lval::Num(2)]).unwrap_err().etype,
        LerrType::IncorrectParamCount
    );
}

#[test]
fn comparisons_and_logic() {
    let env = &mut init_env();
    assert_eq!(run(env, "&& 1 0").unwrap(), Lval::Num(0));
    assert_eq!(run(env, "|| 1 0").unwrap(), Lval::Num(1));
    assert_eq!(run(env, "== [1 2] [1 2]").unwrap(), Lval::Num(1));
    assert_eq!(run(env, "!= [1 2] [1 3]").unwrap(), Lval::Num(1));
    assert_eq!(run(env, "== 1 \"1\"").unwrap(), Lval::Num(0));
    assert_eq!(run(env, "< 1").unwrap_err().etype, LerrType::IncorrectParamCount);
    assert_eq!(run(env, "< 1 [2]").unwrap_err().etype, LerrType::BadNum);
}

#[test]
fn join_of_list_of_head_and_tail_is_the_list() {
    let env = &mut init_env();
    assert_eq!(
        run(env, "join (list (head [1 2 3])) (tail [1 2 3])").unwrap(),
        Lval::Qexpr(vec![Lval::Num(1), Lval::Num(2), Lval::Num(3)])
    );
    assert_eq!(
        run(env, "join (list (head [x])) (tail [x])").unwrap(),
        Lval::Qexpr(vec![Lval::Sym(String::from("x"))])
    );
}

#[test]
fn a_closure_given_fewer_arguments_waits_for_the_rest() {
    let env = &mut init_env();
    let partial = run(env, "((\\ [a b] [* a b]) 5)").unwrap();
    let lambda = to_lambda(&partial).unwrap();
    assert_eq!(lambda.args, vec![String::from("b")]);
    assert_eq!(call(env, lambda, vec![Lval::Num(6)]).unwrap(), Lval::Num(30));
}

#[test]
fn def_binds_at_the_root_and_assignment_in_the_current_frame() {
    let env = &mut init_env();
    run(env, "(def [a] 1)").unwrap();
    env.push(Lookup::new());
    run(env, "(def [b] 2)").unwrap();
    env.pop();
    assert_eq!(run(env, "b").unwrap(), Lval::Num(2));
    assert_eq!(run(env, "a").unwrap(), Lval::Num(1));

    env.push(Lookup::new());
    run(env, "(= [c] 3)").unwrap();
    assert_eq!(run(env, "c").unwrap(), Lval::Num(3));
    env.pop();
    assert_eq!(run(env, "c").unwrap_err().etype, LerrType::UnboundSymbol);
}

#[test]
fn printing_and_reading_back_gives_the_same_expression() {
    for text in ["(+ 1 [a b] (x))", "[]", "(\\ [x] [* x x])", "-42", "head", "[[1] [[2]] ()]"] {
        let value = parse_expression(text).unwrap().1;
        let printed = value.to_text();
        let (rest, again) = parse_expression(&printed).unwrap();
        assert_eq!(rest, "");
        assert_eq!(again, value);
    }
}

#[test]
fn concrete_programs() {
    let env = &mut init_env();
    assert_eq!(run(env, "+ 1 2 3").unwrap(), Lval::Num(6));
    assert_eq!(run(env, "head [1 2 3]").unwrap(), Lval::Num(1));
    assert_eq!(run(env, "(\\ [x] [* x x]) 4").unwrap(), Lval::Num(16));
    assert_eq!(run(env, "/ 1 0").unwrap_err().etype, LerrType::DivZero);
    let err = run(env, "die \"boom\"").unwrap_err();
    assert_eq!(err.etype, LerrType::Interrupt);
    assert_eq!(err.message, "boom");
    assert!(root("(").is_err());
    let before = env.depth();
    assert!(Lisp::from_source(env, "(").unwrap_err().starts_with("Error: Parsing Error"));
    assert_eq!(env.depth(), before);
}

#[test]
fn from_source_prints_results_and_errors() {
    let env = &mut init_env();
    assert_eq!(Lisp::from_source(env, "+ 1 2"), Ok(String::from("3")));
    assert_eq!(Lisp::from_source(env, "list 1 [2 3] \"s\""), Ok(String::from("[ 1 [ 2 3 ] s ]")));
    assert_eq!(Lisp::from_source(env, ""), Ok(String::from("(  )")));
    assert_eq!(Lisp::from_source(env, "\\ [x] [* x x]"), Ok(String::from("(\\ [x] [* x x])")));
    assert_eq!(
        Lisp::from_source(env, "/ 1 0"),
        Err(String::from("Error: DivZero - Cannot Divide By Zero; You cannot divide by 0"))
    );
    assert_eq!(
        Lisp::from_source(env, "(1 2"),
        Err(String::from(
            "Error: Parsing Error - Could not parse the input; at 4 in S-Expression, within Expression"
        ))
    );
}

#[test]
fn definitions_persist_between_sources() {
    let env = &mut init_env();
    Lisp::from_source(env, "def [sq] (\\ [x] [* x x])").unwrap();
    assert_eq!(Lisp::from_source(env, "sq 9"), Ok(String::from("81")));
    Lisp::from_source(env, "def [fun] (\\ [args body] [def (list (head args)) (\\ (tail args) body)])").unwrap();
    Lisp::from_source(env, "fun [add3 a b c] [+ a b c]").unwrap();
    assert_eq!(Lisp::from_source(env, "add3 1 2 3"), Ok(String::from("6")));
    Lisp::from_source(env, "fun [len l] [if (== l []) [0] [+ 1 (len (tail l))]]").unwrap();
    assert_eq!(Lisp::from_source(env, "len [1 2 3 4]"), Ok(String::from("4")));
}

#[test]
fn if_chooses_by_truth_and_checks_its_arguments() {
    let env = &mut init_env();
    assert_eq!(run(env, "if (< 1 2) [+ 1 1] [+ 2 2]").unwrap(), Lval::Num(2));
    assert_eq!(run(env, "if 1 [1]").unwrap_err().etype, LerrType::IncorrectParamCount);
    assert_eq!(run(env, "if [1] [1] [2]").unwrap_err().etype, LerrType::WrongType);
}

#[test]
fn echo_gives_the_printed_value() {
    let env = &mut init_env();
    assert_eq!(
        builtin_echo(env, vec![Lval::Qexpr(vec![Lval::Num(1), Lval::Sym(String::from("a"))])])
            .unwrap(),
        Lval::Str(String::from("[ 1 a ]"))
    );
    assert_eq!(builtin_echo(env, vec![]).unwrap_err().etype, LerrType::IncorrectParamCount);
}

#[test]
fn die_needs_one_string() {
    let env = &mut init_env();
    assert_eq!(builtin_err(env, vec![]).unwrap_err().etype, LerrType::IncorrectParamCount);
    assert_eq!(builtin_err(env, vec![Lval::Num(1)]).unwrap_err().etype, LerrType::WrongType);
}

#[test]
fn concat_needs_strings() {
    let env = &mut init_env();
    assert_eq!(run(env, "concat \"a\" \"b\"").unwrap(), Lval::Str(String::from("ab")));
    assert_eq!(run(env, "concat \"a\" b").unwrap_err().etype, LerrType::UnboundSymbol);
    assert_eq!(run(env, "concat \"a\" 1").unwrap_err().etype, LerrType::WrongType);
    assert_eq!(run(env, "concat").unwrap_err().etype, LerrType::IncorrectParamCount);
}

#[test]
fn rand_reads_the_clock() {
    let env = &mut init_env();
    match builtin_rand(env, vec![]).unwrap() {
        Lval::Num(n) => assert!((0..1_000_000_000).contains(&n)),
        other => panic!("not a number: {:?}", other),
    }
    assert_eq!(
        builtin_rand(env, vec![Lval::Num(1)]).unwrap_err().etype,
        LerrType::IncorrectParamCount
    );
}

#[test]
fn lambda_parameters_must_be_symbols() {
    let env = &mut init_env();
    assert_eq!(run(env, "\\ [1] [1]").unwrap_err().etype, LerrType::WrongType);
    assert_eq!(run(env, "\\ [x]").unwrap_err().etype, LerrType::IncorrectParamCount);
}

#[test]
fn errors_carry_a_fixed_description_of_their_kind() {
    let e = Lerr::new(LerrType::EmptyList, String::from("m"));
    assert_eq!(e.details, "Empty List passed to function");
    assert_eq!(e.message, "m");
    assert_eq!(e.to_text(), "Error: EmptyList - Empty List passed to function; m");
}

#[test]
fn recursion_runs_through_a_list() {
    let env = &mut init_env();
    Lisp::from_source(env, "def [len] (\\ [l] [if (== l []) [0] [+ 1 (len (tail l))]])").unwrap();
    let items: Vec<String> = (0..100).map(|i| i.to_string()).collect();
    let list = format!("len [{}]", items.join(" "));
    assert_eq!(Lisp::from_source(env, &list), Ok(String::from("100")));
}

#[test]
fn programs_that_read_the_clock_follow_the_same_rules() {
    let env = &mut init_env();
    assert_eq!(run(env, "(rand) 1").unwrap_err().etype, LerrType::BadOp);
    match run(env, "list (rand)").unwrap() {
        Lval::Qexpr(items) => {
            assert_eq!(items.len(), 1);
            match &items[0] {
                Lval::Num(n) => assert!((0..1_000_000_000).contains(n)),
                other => panic!("not a number: {:?}", other),
            }
        },
        other => panic!("not a list: {:?}", other),
    }
    assert_eq!(run(env, "rand 1").unwrap_err().etype, LerrType::IncorrectParamCount);
}

#[test]
fn a_raised_error_is_shown_with_its_message() {
    let env = &mut init_env();
    assert_eq!(
        Lisp::from_source(env, "die \"boom\""),
        Err(String::from("Error: Interrupt - User defined Error; boom"))
    );
}

#[test]
fn a_zero_divisor_fails_before_any_overflow() {
    let env = &mut init_env();
    assert_eq!(run(env, "/ -9223372036854775808 -1 0").unwrap_err().etype, LerrType::DivZero);
    assert_eq!(run(env, "% 7 2 0").unwrap_err().etype, LerrType::DivZero);
    assert_eq!(run(env, "/ 0 5").unwrap(), Lval::Num(0));
    assert_eq!(run(env, "/ -9223372036854775808 -1").unwrap_err().etype, LerrType::BadNum);
}

#[test]
fn rand_gives_the_reading_or_a_fixed_number_before_the_epoch() {
    assert_eq!(rand_from_reading(vec![], Some(42)).unwrap(), Lval::Num(42));
    assert_eq!(rand_from_reading(vec![], None).unwrap(), Lval::Num(12345));
    assert_eq!(
        rand_from_reading(vec![Lval::Num(1)], Some(42)).unwrap_err().etype,
        LerrType::IncorrectParamCount
    );
}

#[test]
fn the_language_compiles_through_its_trait() {
    let env = &mut init_env();
    assert_eq!(<Lisp as Compile>::from_source(env, "* 6 7"), Ok(String::from("42")));
    assert_eq!(<Lisp as Compile>::from_ast(env, Lval::Num(5)), Ok(String::from("5")));
}
