use bebop_lang::{
    parse_expression, parse_number, parse_qexpression, parse_sexpression, parse_string,
    parse_symbol, root, Context, Lval, ParseError,
};

fn sym(s: &str) -> Lval {
    Lval::Sym(String::from(s))
}

fn done(v: Lval) -> Result<(String, Lval), ParseError> {
    Ok((String::new(), v))
}

#[test]
fn it_parses_numbers() {
    assert_eq!(parse_number("1"), done(Lval::Num(1)));
    assert_eq!(parse_number("-12302"), done(Lval::Num(-12302)));
    assert_eq!(parse_number("  \t1"), done(Lval::Num(1)));
}

#[test]
fn it_parses_all_symbols() {
    assert_eq!(parse_symbol("+"), done(sym("+")));
    assert_eq!(parse_symbol("\t-"), done(sym("-")));
    assert_eq!(parse_symbol("  *"), done(sym("*")));
    assert_eq!(parse_symbol("\n/"), done(sym("/")));
    assert_eq!(parse_symbol("orange"), done(sym("orange")));
    assert_eq!(parse_symbol("tail"), done(sym("tail")));
}

#[test]
fn it_parses_sexpr() {
    assert_eq!(
        parse_sexpression(
            "(* 1
             2 3)"
        ),
        done(Lval::Sexpr(vec![sym("*"), Lval::Num(1), Lval::Num(2), Lval::Num(3)]))
    );
}

#[test]
fn it_parses_qexpr() {
    assert_eq!(
        parse_qexpression(
            "[* 1
             2 3]"
        ),
        done(Lval::Qexpr(vec![sym("*"), Lval::Num(1), Lval::Num(2), Lval::Num(3)]))
    );
}

#[test]
fn it_parses_an_expression() {
    assert_eq!(
        parse_expression(
            "(* 1
             2 3)"
        ),
        done(Lval::Sexpr(vec![sym("*"), Lval::Num(1), Lval::Num(2), Lval::Num(3)]))
    );

    assert_eq!(
        parse_expression(
            "(* 1
             2 (* 1
          2 3))"
        ),
        done(Lval::Sexpr(vec![
            sym("*"),
            Lval::Num(1),
            Lval::Num(2),
            Lval::Sexpr(vec![sym("*"), Lval::Num(1), Lval::Num(2), Lval::Num(3)]),
        ]))
    );

    assert_eq!(
        parse_expression(
            "9 (* 1
             2 (* 1
          2 3))"
        ),
        Ok((String::from(" (* 1\n             2 (* 1\n          2 3))"), Lval::Num(9)))
    );
    assert_eq!(parse_expression("1"), done(Lval::Num(1)));
    assert_eq!(parse_expression("*"), done(sym("*")));
}

#[test]
fn it_parses_expressions() {
    assert_eq!(
        root(
            "* 9 (* 1
             2 (* 1
          2 3))"
        ),
        Ok(Lval::Sexpr(vec![
            sym("*"),
            Lval::Num(9),
            Lval::Sexpr(vec![
                sym("*"),
                Lval::Num(1),
                Lval::Num(2),
                Lval::Sexpr(vec![sym("*"), Lval::Num(1), Lval::Num(2), Lval::Num(3)]),
            ]),
        ]))
    );
    assert_eq!(root(""), Ok(Lval::Sexpr(vec![])));
    assert_eq!(root("()"), Ok(Lval::Sexpr(vec![Lval::Sexpr(vec![])])));
    assert_eq!(root("*"), Ok(Lval::Sexpr(vec![sym("*")])));
    assert_eq!(root("9"), Ok(Lval::Sexpr(vec![Lval::Num(9)])));
    assert_eq!(
        root("* 1 2 3"),
        Ok(Lval::Sexpr(vec![sym("*"), Lval::Num(1), Lval::Num(2), Lval::Num(3)]))
    );
}

#[test]
fn strings_hold_everything_up_to_the_next_quote() {
    assert_eq!(parse_string(" \"a (b) [c]\" d"), Ok((String::from(" d"), Lval::Str(String::from("a (b) [c]")))));
    assert_eq!(
        parse_string("\"open"),
        Err(ParseError { position: 0, context: Context::String, trail: vec![] })
    );
}

#[test]
fn a_sign_followed_by_a_digit_starts_a_number() {
    assert_eq!(root("-5 - +x"), Ok(Lval::Sexpr(vec![Lval::Num(-5), sym("-"), sym("+x")])));
    assert_eq!(root("2x"), Ok(Lval::Sexpr(vec![Lval::Num(2), sym("x")])));
}

#[test]
fn the_extreme_numbers_read_and_one_beyond_does_not() {
    assert_eq!(root("-9223372036854775808"), Ok(Lval::Sexpr(vec![Lval::Num(i64::MIN)])));
    assert_eq!(root("9223372036854775807"), Ok(Lval::Sexpr(vec![Lval::Num(i64::MAX)])));
    assert_eq!(
        root("9223372036854775808"),
        Err(ParseError { position: 0, context: Context::Number, trail: vec![Context::Root] })
    );
}

#[test]
fn unterminated_input_is_a_parse_error() {
    assert_eq!(
        root("("),
        Err(ParseError { position: 1, context: Context::SExpression, trail: vec![Context::Root] })
    );
    assert_eq!(
        root("[1 2"),
        Err(ParseError { position: 4, context: Context::QExpression, trail: vec![Context::Root] })
    );
    assert_eq!(
        root("1 )"),
        Err(ParseError { position: 2, context: Context::Root, trail: vec![] })
    );
    assert_eq!(
        parse_symbol("(x)"),
        Err(ParseError { position: 0, context: Context::Symbol, trail: vec![] })
    );
}

#[test]
fn errors_name_the_enclosing_expressions() {
    assert_eq!(
        root("(a [b \"c"),
        Err(ParseError {
            position: 6,
            context: Context::String,
            trail: vec![Context::QExpression, Context::SExpression, Context::Root],
        })
    );
}
