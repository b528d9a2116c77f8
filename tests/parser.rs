use stacklang::ast::{parse, Expr};
use stacklang::fault::Fault;
use stacklang::lexer::{Lexer, Token};

fn parse_src(src: &str) -> Result<Vec<Expr>, Fault> {
    let mut lexer = Lexer::new(src);
    parse(lexer.tokenize().unwrap())
}

fn s(t: &str) -> String {
    t.to_string()
}

fn ident(name: &str) -> Box<Expr> {
    Box::new(Expr::Identifier(s(name)))
}

#[test]
fn parses_declaration_with_value() {
    let exprs = parse_src("stack x : num <- 5").unwrap();
    assert_eq!(
        exprs,
        vec![Expr::StackDecl {
            name: s("x"),
            typ: s("num"),
            value: Box::new(Expr::NumberLiteral(5)),
        }]
    );
}

#[test]
fn declaration_without_value_takes_default() {
    let exprs = parse_src("stack t : text stack n : num").unwrap();
    assert_eq!(
        exprs,
        vec![
            Expr::StackDecl {
                name: s("t"),
                typ: s("text"),
                value: Box::new(Expr::StringLiteral(s(""))),
            },
            Expr::StackDecl {
                name: s("n"),
                typ: s("num"),
                value: Box::new(Expr::NumberLiteral(0)),
            },
        ]
    );
}

#[test]
fn addition_groups_to_the_left() {
    let exprs = parse_src("out <- a + b + c").unwrap();
    let ab = Expr::Addition { left: ident("a"), right: ident("b") };
    let abc = Expr::Addition { left: Box::new(ab), right: ident("c") };
    assert_eq!(exprs, vec![Expr::Output(Box::new(abc))]);
}

#[test]
fn parses_input() {
    let exprs = parse_src("in -> x").unwrap();
    assert_eq!(exprs, vec![Expr::Input(ident("x"))]);
}

#[test]
fn empty_program_has_no_statements() {
    assert_eq!(parse(vec![]), Ok(vec![]));
}

#[test]
fn declaration_value_must_be_literal() {
    assert_eq!(parse_src("stack x : text <- y"), Err(Fault::ExpectedLiteral));
}

#[test]
fn unsupported_type_without_value_faults() {
    let tokens = vec![
        Token::Stack,
        Token::Identifier(s("x")),
        Token::Colon,
        Token::Type(s("bool")),
    ];
    assert_eq!(parse(tokens), Err(Fault::UnsupportedType));
}

#[test]
fn malformed_declaration_faults() {
    assert_eq!(parse_src("stack x"), Err(Fault::InvalidStackDecl));
    assert_eq!(parse_src("stack x text"), Err(Fault::InvalidStackDecl));
    assert_eq!(parse_src("stack 5 : num"), Err(Fault::InvalidStackDecl));
}

#[test]
fn declaration_cut_before_value_leaves_arrow() {
    assert_eq!(parse_src("stack x : text <-"), Err(Fault::UnexpectedToken));
}

#[test]
fn output_needs_a_term() {
    assert_eq!(parse_src("out <- :"), Err(Fault::InvalidOutputValue));
}

#[test]
fn addition_needs_a_term() {
    assert_eq!(parse_src("out <- x + :"), Err(Fault::InvalidAdditionOperand));
}

#[test]
fn trailing_plus_faults() {
    assert_eq!(parse_src("out <- x +"), Err(Fault::UnexpectedEnd));
}

#[test]
fn input_needs_an_identifier() {
    assert_eq!(parse_src("in -> 5"), Err(Fault::ExpectedIdentifier));
}

#[test]
fn stray_token_where_statement_expected_faults() {
    assert_eq!(parse_src("# out <- 1"), Err(Fault::UnexpectedToken));
    assert_eq!(parse_src("x"), Err(Fault::UnexpectedToken));
    assert_eq!(parse_src("out <-"), Err(Fault::UnexpectedToken));
}
