use stacklang::ast::Expr;
use stacklang::fault::Fault;
use stacklang::interpreter::{evaluate_expr, execute, handle_input, interpret, Action, Environment};
use stacklang::pipeline::run_source;

fn run(src: &str, lines: &[&str]) -> Result<String, Fault> {
    run_source(src, lines.iter().map(|l| l.to_string()).collect())
}

fn s(t: &str) -> String {
    t.to_string()
}

#[test]
fn text_declaration_round_trip() {
    assert_eq!(run("stack x : text <- \"hello world\" out <- x", &[]), Ok(s("hello world")));
    assert_eq!(run("stack x : text <- \"\" out <- x", &[]), Ok(s("")));
}

#[test]
fn default_values() {
    assert_eq!(run("stack x : text out <- x", &[]), Ok(s("")));
    assert_eq!(run("stack n : num out <- n", &[]), Ok(s("0")));
}

#[test]
fn left_associative_concatenation() {
    let src = "stack a:num<-1 stack b:num<-2 stack c:num<-3 out <- a + b + c";
    assert_eq!(run(src, &[]), Ok(s("123")));
}

#[test]
fn numbers_concatenate_not_sum() {
    assert_eq!(run("out <- 3 + 4", &[]), Ok(s("34")));
    assert_eq!(run("out <- \"n=\" + 42", &[]), Ok(s("n=42")));
}

#[test]
fn input_overwrite() {
    let src = "stack x : text <- \"old\" in -> x out <- x";
    assert_eq!(run(src, &["new"]), Ok(s("new")));
}

#[test]
fn input_is_trimmed() {
    let src = "stack x : text in -> x out <- x + \"|\"";
    assert_eq!(run(src, &["  new \n"]), Ok(s("new|")));
}

#[test]
fn input_past_last_line_is_empty() {
    let src = "stack x : text <- \"old\" in -> x out <- x";
    assert_eq!(run(src, &[]), Ok(s("")));
}

#[test]
fn undeclared_identifier_fault() {
    assert_eq!(run("out <- y", &[]), Err(Fault::UndeclaredVariable));
    assert_eq!(run("out <- \"a\" out <- y", &[]), Err(Fault::UndeclaredVariable));
}

#[test]
fn input_into_undeclared_faults() {
    assert_eq!(run("in -> y", &["v"]), Err(Fault::UndeclaredVariable));
}

#[test]
fn escape_resolution_timing() {
    let src = "stack x : text <- \"a\\nb\" out <- \"a\\nb\" out <- x";
    assert_eq!(run(src, &[]), Ok(s("a\nba\\nb")));
}

#[test]
fn unknown_character_tolerance() {
    assert_eq!(run("# out <- 1", &[]), Err(Fault::UnexpectedToken));
    assert_eq!(run("out <- 1 #", &[]), Err(Fault::UnexpectedToken));
}

#[test]
fn later_declaration_wins() {
    let src = "stack x : num <- 1 stack x : text <- \"two\" out <- x";
    assert_eq!(run(src, &[]), Ok(s("two")));
}

#[test]
fn text_from_number_literal_is_empty() {
    assert_eq!(run("stack x : text <- 5 out <- x + \"!\"", &[]), Ok(s("!")));
}

#[test]
fn num_from_string_literal_faults() {
    assert_eq!(run("stack n : num <- \"5\"", &[]), Err(Fault::ExpectedNumber));
}

#[test]
fn unsupported_type_with_value_faults() {
    let stmt = Expr::StackDecl {
        name: s("x"),
        typ: s("bool"),
        value: Box::new(Expr::NumberLiteral(1)),
    };
    assert_eq!(interpret(vec![stmt], vec![]), Err(Fault::UnsupportedType));
}

#[test]
fn negative_numbers_keep_sign() {
    let stmt = Expr::Output(Box::new(Expr::NumberLiteral(-5)));
    assert_eq!(interpret(vec![stmt], vec![]), Ok(s("-5")));
    let stmt = Expr::Output(Box::new(Expr::NumberLiteral(i64::MIN)));
    assert_eq!(interpret(vec![stmt], vec![]), Ok(s("-9223372036854775808")));
}

#[test]
fn largest_number_prints() {
    assert_eq!(run("out <- 9223372036854775807", &[]), Ok(s("9223372036854775807")));
    assert_eq!(run("out <- 0 + 10", &[]), Ok(s("010")));
}

#[test]
fn non_expression_in_evaluation_faults() {
    let env = Environment::new();
    let e = Expr::Output(Box::new(Expr::NumberLiteral(1)));
    assert_eq!(evaluate_expr(&env, &e), Err(Fault::UnsupportedExpression));
}

#[test]
fn non_statement_faults() {
    let stmt = Expr::Identifier(s("x"));
    assert_eq!(interpret(vec![stmt], vec![]), Err(Fault::UnsupportedStatement));
}

#[test]
fn input_into_non_identifier_faults() {
    let stmt = Expr::Input(Box::new(Expr::NumberLiteral(1)));
    assert_eq!(interpret(vec![stmt], vec![]), Err(Fault::ExpectedIdentifier));
}

#[test]
fn environment_get_and_set() {
    let mut env = Environment::new();
    assert_eq!(env.get(&s("x")), None);
    env.set(s("x"), s("1"));
    env.set(s("y"), s("2"));
    env.set(s("x"), s("3"));
    assert_eq!(env.get(&s("x")), Some(s("3")));
    assert_eq!(env.get(&s("y")), Some(s("2")));
}

#[test]
fn step_by_step_session() {
    let mut env = Environment::new();
    let decl = Expr::StackDecl {
        name: s("x"),
        typ: s("text"),
        value: Box::new(Expr::StringLiteral(s("a"))),
    };
    assert!(matches!(execute(&mut env, &decl), Ok(Action::Proceed)));
    let target = Expr::Identifier(s("x"));
    let read = Expr::Input(Box::new(Expr::Identifier(s("x"))));
    assert!(matches!(execute(&mut env, &read), Ok(Action::ReadLine)));
    assert_eq!(handle_input(&mut env, &target, " b\n"), Ok(()));
    let show = Expr::Output(Box::new(Expr::Identifier(s("x"))));
    match execute(&mut env, &show) {
        Ok(Action::Print(t)) => assert_eq!(t, s("b")),
        _ => panic!("expected text to print"),
    }
}
