use stacklang::fault::Fault;
use stacklang::lexer::{Lexer, Token};

fn lex(src: &str) -> Result<Vec<Token>, Fault> {
    let mut lexer = Lexer::new(src);
    lexer.tokenize()
}

fn s(t: &str) -> String {
    t.to_string()
}

#[test]
fn lexes_full_declaration() {
    let tokens = lex("stack x : text <- \"hi\"").unwrap();
    assert_eq!(
        tokens,
        vec![
            Token::Stack,
            Token::Identifier(s("x")),
            Token::Colon,
            Token::Type(s("text")),
            Token::IntoStream,
            Token::StringLiteral(s("hi")),
        ]
    );
}

#[test]
fn lexes_keywords_and_types() {
    let tokens = lex("out in num stack_x").unwrap();
    assert_eq!(
        tokens,
        vec![Token::Out, Token::In, Token::Type(s("num")), Token::Identifier(s("stack_x"))]
    );
}

#[test]
fn lexes_operators() {
    let tokens = lex("<- -> + - * / :").unwrap();
    assert_eq!(
        tokens,
        vec![
            Token::IntoStream,
            Token::FromStream,
            Token::Add,
            Token::Sub,
            Token::Mul,
            Token::Del,
            Token::Colon,
        ]
    );
}

#[test]
fn bare_minus_and_less_than() {
    let tokens = lex("a-b<c").unwrap();
    assert_eq!(
        tokens,
        vec![
            Token::Identifier(s("a")),
            Token::Sub,
            Token::Identifier(s("b")),
            Token::Unknown('<'),
            Token::Identifier(s("c")),
        ]
    );
}

#[test]
fn digits_end_an_identifier() {
    let tokens = lex("x12y").unwrap();
    assert_eq!(
        tokens,
        vec![Token::Identifier(s("x")), Token::NumberLiteral(12), Token::Identifier(s("y"))]
    );
}

#[test]
fn string_literal_kept_verbatim() {
    let tokens = lex("\"a\\nb + c\"").unwrap();
    assert_eq!(tokens, vec![Token::StringLiteral(s("a\\nb + c"))]);
}

#[test]
fn unterminated_string_yields_what_was_read() {
    let tokens = lex("out <- \"abc").unwrap();
    assert_eq!(tokens, vec![Token::Out, Token::IntoStream, Token::StringLiteral(s("abc"))]);
}

#[test]
fn empty_source_has_no_tokens() {
    assert_eq!(lex("").unwrap(), vec![]);
    assert_eq!(lex(" \n\t ").unwrap(), vec![]);
}

#[test]
fn stray_characters_become_unknown_tokens() {
    let tokens = lex("# x\r").unwrap();
    assert_eq!(tokens, vec![Token::Unknown('#'), Token::Identifier(s("x")), Token::Unknown('\r')]);
}

#[test]
fn non_ascii_letters_form_identifiers() {
    let tokens = lex("ключ é").unwrap();
    assert_eq!(tokens, vec![Token::Identifier(s("ключ")), Token::Identifier(s("é"))]);
}

#[test]
fn largest_number_fits() {
    let tokens = lex("9223372036854775807").unwrap();
    assert_eq!(tokens, vec![Token::NumberLiteral(i64::MAX)]);
}

#[test]
fn number_too_large_faults() {
    assert_eq!(lex("9223372036854775808"), Err(Fault::NumberOutOfRange));
    assert_eq!(lex("out <- 123456789012345678901234567890"), Err(Fault::NumberOutOfRange));
}

#[test]
fn leading_zeros_are_read() {
    assert_eq!(lex("007").unwrap(), vec![Token::NumberLiteral(7)]);
}
