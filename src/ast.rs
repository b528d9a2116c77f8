use vstd::prelude::*;

use crate::fault::Fault;
use crate::lexer::{token_views, type_num, type_text, Token, TokenModel};
use crate::text::{chars_of, same_chars};

verus! {

/// A statement (`StackDecl`, `Output`, `Input`) or an expression of a
/// program.
#[derive(Debug, PartialEq, Eq)]
pub enum Expr {
    StackDecl { name: String, typ: String, value: Box<Expr> },
    Addition { left: Box<Expr>, right: Box<Expr> },
    StringLiteral(String),
    NumberLiteral(i64),
    Identifier(String),
    Output(Box<Expr>),
    Input(Box<Expr>),
}

/// What an `Expr` stands for, with its texts as characters.
pub enum ExprModel {
    StackDecl { name: Seq<char>, typ: Seq<char>, value: Box<ExprModel> },
    Addition { left: Box<ExprModel>, right: Box<ExprModel> },
    StringLiteral(Seq<char>),
    NumberLiteral(i64),
    Identifier(Seq<char>),
    Output(Box<ExprModel>),
    Input(Box<ExprModel>),
}

/// The model of an expression tree, node by node.
pub open spec fn expr_model(e: &Expr) -> ExprModel
    decreases e,
{
    match e {
        Expr::StackDecl { name, typ, value } => ExprModel::StackDecl {
            name: name@,
            typ: typ@,
            value: Box::new(expr_model(value)),
        },
        Expr::Addition { left, right } => ExprModel::Addition {
            left: Box::new(expr_model(left)),
            right: Box::new(expr_model(right)),
        },
        Expr::StringLiteral(s) => ExprModel::StringLiteral(s@),
        Expr::NumberLiteral(n) => ExprModel::NumberLiteral(*n),
        Expr::Identifier(s) => ExprModel::Identifier(s@),
        Expr::Output(inner) => ExprModel::Output(Box::new(expr_model(inner))),
        Expr::Input(inner) => ExprModel::Input(Box::new(expr_model(inner))),
    }
}

impl View for Expr {
    type V = ExprModel;

    open spec fn view(&self) -> ExprModel {
        expr_model(self)
    }
}

pub open spec fn expr_views(es: Seq<Expr>) -> Seq<ExprModel> {
    es.map_values(|e: Expr| e@)
}

/// The value that a string or number literal token stands for.
pub open spec fn literal_expr(t: TokenModel) -> Option<ExprModel> {
    match t {
        TokenModel::StringLiteral(s) => Some(ExprModel::StringLiteral(s)),
        TokenModel::NumberLiteral(n) => Some(ExprModel::NumberLiteral(n)),
        _ => None,
    }
}

/// The term that an identifier or a literal token stands for.
pub open spec fn term_expr(t: TokenModel) -> Option<ExprModel> {
    match t {
        TokenModel::Identifier(s) => Some(ExprModel::Identifier(s)),
        _ => literal_expr(t),
    }
}

/// `left` extended by each `+ term` from position `i` on, folded to the
/// left, and the position after the chain.
pub open spec fn chain(ts: Seq<TokenModel>, i: int, left: ExprModel) -> Result<(ExprModel, int), Fault>
    decreases ts.len() - i,
{
    if i < 0 || i >= ts.len() || !(ts[i] is Add) {
        Ok((left, i))
    } else if i + 1 >= ts.len() {
        Err(Fault::UnexpectedEnd)
    } else {
        match term_expr(ts[i + 1]) {
            None => Err(Fault::InvalidAdditionOperand),
            Some(right) => chain(
                ts,
                i + 2,
                ExprModel::Addition { left: Box::new(left), right: Box::new(right) },
            ),
        }
    }
}

/// The sum of terms that starts at position `i`, and the position after it.
pub open spec fn addition_at(ts: Seq<TokenModel>, i: int) -> Result<(ExprModel, int), Fault> {
    if i < 0 || i >= ts.len() {
        Err(Fault::UnexpectedEnd)
    } else {
        match term_expr(ts[i]) {
            None => Err(Fault::InvalidOutputValue),
            Some(first) => chain(ts, i + 1, first),
        }
    }
}

/// The value a variable of type `typ` has when declared without one.
pub open spec fn default_value(typ: Seq<char>) -> Option<ExprModel> {
    if typ == type_text() {
        Some(ExprModel::StringLiteral(seq![]))
    } else if typ == type_num() {
        Some(ExprModel::NumberLiteral(0))
    } else {
        None
    }
}

/// Tokens `i + 1 ..= i + 3` read `<name> : <type>`.
pub open spec fn declares(ts: Seq<TokenModel>, i: int) -> bool {
    &&& 0 <= i
    &&& i + 3 < ts.len()
    &&& ts[i + 1] is Identifier
    &&& ts[i + 2] is Colon
    &&& ts[i + 3] is Type
}

/// The declaration that starts with the `stack` at position `i`, and the
/// position after it.
pub open spec fn stack_decl_at(ts: Seq<TokenModel>, i: int) -> Result<(ExprModel, int), Fault> {
    if declares(ts, i) && i + 5 < ts.len() && ts[i + 4] is IntoStream {
        match literal_expr(ts[i + 5]) {
            Some(v) => Ok(
                (
                    ExprModel::StackDecl {
                        name: ts[i + 1]->Identifier_0,
                        typ: ts[i + 3]->Type_0,
                        value: Box::new(v),
                    },
                    i + 6,
                ),
            ),
            None => Err(Fault::ExpectedLiteral),
        }
    } else if declares(ts, i) {
        match default_value(ts[i + 3]->Type_0) {
            Some(v) => Ok(
                (
                    ExprModel::StackDecl {
                        name: ts[i + 1]->Identifier_0,
                        typ: ts[i + 3]->Type_0,
                        value: Box::new(v),
                    },
                    i + 4,
                ),
            ),
            None => Err(Fault::UnsupportedType),
        }
    } else {
        Err(Fault::InvalidStackDecl)
    }
}

/// The statement that starts at position `i`, and the position after it.
pub open spec fn statement_at(ts: Seq<TokenModel>, i: int) -> Result<(ExprModel, int), Fault> {
    if 0 <= i < ts.len() && ts[i] is Stack {
        stack_decl_at(ts, i)
    } else if 0 <= i && i + 2 < ts.len() && ts[i] is Out && ts[i + 1] is IntoStream {
        match addition_at(ts, i + 2) {
            Ok((e, j)) => Ok((ExprModel::Output(Box::new(e)), j)),
            Err(f) => Err(f),
        }
    } else if 0 <= i && i + 2 < ts.len() && ts[i] is In && ts[i + 1] is FromStream {
        match ts[i + 2] {
            TokenModel::Identifier(n) => Ok(
                (ExprModel::Input(Box::new(ExprModel::Identifier(n))), i + 3),
            ),
            _ => Err(Fault::ExpectedIdentifier),
        }
    } else {
        Err(Fault::UnexpectedToken)
    }
}

/// The statements from position `i` on, or the fault that stops parsing.
pub open spec fn parse_from(ts: Seq<TokenModel>, i: int) -> Result<Seq<ExprModel>, Fault>
    decreases ts.len() - i,
{
    if i < 0 || i >= ts.len() {
        Ok(seq![])
    } else {
        match statement_at(ts, i) {
            Err(f) => Err(f),
            Ok((e, j)) => if i < j <= ts.len() {
                match parse_from(ts, j) {
                    Err(f) => Err(f),
                    Ok(es) => Ok(seq![e] + es),
                }
            } else {
                Ok(seq![e])
            },
        }
    }
}

/// The statements of a whole token sequence.
pub open spec fn parse_tokens(ts: Seq<TokenModel>) -> Result<Seq<ExprModel>, Fault> {
    parse_from(ts, 0)
}


pub open spec fn opt_model(o: Option<Expr>) -> Option<ExprModel> {
    match o {
        Some(e) => Some(e@),
        None => None,
    }
}

/// `r` is what `expected` describes: a statement that ends at `end`, or a fault.
pub open spec fn parsed_as(
    r: Result<Option<Expr>, Fault>,
    end: int,
    expected: Result<(ExprModel, int), Fault>,
) -> bool {
    match r {
        Ok(Some(e)) => expected == Ok::<(ExprModel, int), Fault>((e@, end)),
        Ok(None) => false,
        Err(f) => expected == Err::<(ExprModel, int), Fault>(f),
    }
}

/// The expression of a string or number literal token.
fn parse_literal(token: &Token) -> (r: Option<Expr>)
    ensures
        opt_model(r) == literal_expr(token@),
{
    match token {
        Token::StringLiteral(s) => Some(Expr::StringLiteral(s.clone())),
        Token::NumberLiteral(n) => Some(Expr::NumberLiteral(*n)),
        _ => None,
    }
}

/// Reads one term (an identifier or a literal) at `*i`, if one stands there.
fn parse_basic_expr(tokens: &[Token], i: &mut usize) -> (r: Option<Expr>)
    ensures
        opt_model(r) == (if *old(i) < tokens@.len() {
            term_expr(tokens@[*old(i) as int]@)
        } else {
            None
        }),
        r is Some ==> *final(i) == *old(i) + 1,
        r is None ==> *final(i) == *old(i),
{
    if *i >= tokens.len() {
        return None;
    }
    let expr = match &tokens[*i] {
        Token::Identifier(name) => Expr::Identifier(name.clone()),
        Token::StringLiteral(val) => Expr::StringLiteral(val.clone()),
        Token::NumberLiteral(n) => Expr::NumberLiteral(*n),
        _ => {
            return None;
        },
    };
    *i = *i + 1;
    Some(expr)
}

/// Reads a sum of terms joined by `+`, grouped to the left.
fn parse_addition_expr(tokens: &[Token], i: &mut usize) -> (r: Result<Expr, Fault>)
    ensures
        match r {
            Ok(e) => {
                &&& addition_at(token_views(tokens@), *old(i) as int) == Ok::<(ExprModel, int), Fault>(
                    (e@, *final(i) as int),
                )
                &&& *old(i) < *final(i) <= tokens@.len()
            },
            Err(f) => addition_at(token_views(tokens@), *old(i) as int) == Err::<(ExprModel, int), Fault>(f),
        },
{
    let ghost ts = token_views(tokens@);
    let ghost i0 = *i as int;
    assert(*i < tokens@.len() ==> ts[*i as int] == tokens@[*i as int]@);
    let mut left = match parse_basic_expr(tokens, i) {
        Some(e) => e,
        None => {
            if *i >= tokens.len() {
                return Err(Fault::UnexpectedEnd);
            }
            return Err(Fault::InvalidOutputValue);
        },
    };
    loop
        invariant
            ts == token_views(tokens@),
            i0 == *old(i),
            i0 < *i <= tokens@.len(),
            addition_at(ts, i0) == chain(ts, *i as int, left@),
        decreases tokens@.len() - *i,
    {
        if *i >= tokens.len() || !matches!(tokens[*i], Token::Add) {
            return Ok(left);
        }
        assert(ts[*i as int] == tokens@[*i as int]@);
        *i = *i + 1;
        assert(*i < tokens@.len() ==> ts[*i as int] == tokens@[*i as int]@);
        let right = match parse_basic_expr(tokens, i) {
            Some(e) => e,
            None => {
                if *i >= tokens.len() {
                    return Err(Fault::UnexpectedEnd);
                }
                return Err(Fault::InvalidAdditionOperand);
            },
        };
        left = Expr::Addition { left: Box::new(left), right: Box::new(right) };
    }
}


/// Reads a declaration, if `stack` stands at `*i`.
fn parse_stack_decl(tokens: &[Token], i: &mut usize) -> (r: Result<Option<Expr>, Fault>)
    ensures
        ({
            let ts = token_views(tokens@);
            if *old(i) < ts.len() && ts[*old(i) as int] is Stack {
                &&& parsed_as(r, *final(i) as int, statement_at(ts, *old(i) as int))
                &&& r is Ok ==> *old(i) < *final(i) <= ts.len()
            } else {
                r == Ok::<Option<Expr>, Fault>(None) && *final(i) == *old(i)
            }
        }),
{
    let ghost ts = token_views(tokens@);
    if *i >= tokens.len() || !matches!(tokens[*i], Token::Stack) {
        assert(*i < ts.len() ==> ts[*i as int] == tokens@[*i as int]@);
        return Ok(None);
    }
    let k = *i;
    assert(ts[k as int] == tokens@[k as int]@);
    if tokens.len() - k <= 3 {
        return Err(Fault::InvalidStackDecl);
    }
    assert(ts[k + 1] == tokens@[k + 1]@);
    assert(ts[k + 2] == tokens@[k + 2]@);
    assert(ts[k + 3] == tokens@[k + 3]@);
    let (name, typ) = match (&tokens[k + 1], &tokens[k + 3]) {
        (Token::Identifier(n), Token::Type(t)) => (n, t),
        _ => {
            return Err(Fault::InvalidStackDecl);
        },
    };
    if !matches!(tokens[k + 2], Token::Colon) {
        return Err(Fault::InvalidStackDecl);
    }
    if tokens.len() - k > 5 && matches!(tokens[k + 4], Token::IntoStream) {
        assert(ts[k + 4] == tokens@[k + 4]@);
        assert(ts[k + 5] == tokens@[k + 5]@);
        return match parse_literal(&tokens[k + 5]) {
            Some(v) => {
                *i = k + 6;
                Ok(Some(Expr::StackDecl { name: name.clone(), typ: typ.clone(), value: Box::new(v) }))
            },
            None => Err(Fault::ExpectedLiteral),
        };
    }
    assert(tokens.len() - k > 5 ==> ts[k + 4] == tokens@[k + 4]@);
    let typ_chars = chars_of(typ.as_str());
    let value = if same_chars(&typ_chars, &vec!['t', 'e', 'x', 't']) {
        let empty = String::new();
        assert(empty@ =~= seq![]);
        Expr::StringLiteral(empty)
    } else if same_chars(&typ_chars, &vec!['n', 'u', 'm']) {
        Expr::NumberLiteral(0)
    } else {
        return Err(Fault::UnsupportedType);
    };
    assert(Some(value@) == default_value(typ@));
    *i = k + 4;
    Ok(Some(Expr::StackDecl { name: name.clone(), typ: typ.clone(), value: Box::new(value) }))
}

/// Reads an output statement, if `out <-` stands at `*i` with a token after it.
fn parse_output(tokens: &[Token], i: &mut usize) -> (r: Result<Option<Expr>, Fault>)
    ensures
        ({
            let ts = token_views(tokens@);
            let k = *old(i) as int;
            if k + 2 < ts.len() && ts[k] is Out && ts[k + 1] is IntoStream {
                &&& parsed_as(r, *final(i) as int, statement_at(ts, k))
                &&& r is Ok ==> k < *final(i) <= ts.len()
            } else {
                r == Ok::<Option<Expr>, Fault>(None) && *final(i) == *old(i)
            }
        }),
{
    let ghost ts = token_views(tokens@);
    if *i >= tokens.len() || tokens.len() - *i <= 2 {
        return Ok(None);
    }
    let k = *i;
    assert(ts[k as int] == tokens@[k as int]@);
    assert(ts[k + 1] == tokens@[k + 1]@);
    if !matches!(tokens[k], Token::Out) || !matches!(tokens[k + 1], Token::IntoStream) {
        return Ok(None);
    }
    *i = k + 2;
    match parse_addition_expr(tokens, i) {
        Ok(e) => Ok(Some(Expr::Output(Box::new(e)))),
        Err(f) => Err(f),
    }
}

/// Reads an input statement, if `in ->` stands at `*i` with a token after it.
fn parse_input(tokens: &[Token], i: &mut usize) -> (r: Result<Option<Expr>, Fault>)
    ensures
        ({
            let ts = token_views(tokens@);
            let k = *old(i) as int;
            if k + 2 < ts.len() && ts[k] is In && ts[k + 1] is FromStream {
                &&& parsed_as(r, *final(i) as int, statement_at(ts, k))
                &&& r is Ok ==> k < *final(i) <= ts.len()
            } else {
                r == Ok::<Option<Expr>, Fault>(None) && *final(i) == *old(i)
            }
        }),
{
    let ghost ts = token_views(tokens@);
    if *i >= tokens.len() || tokens.len() - *i <= 2 {
        return Ok(None);
    }
    let k = *i;
    assert(ts[k as int] == tokens@[k as int]@);
    assert(ts[k + 1] == tokens@[k + 1]@);
    assert(ts[k + 2] == tokens@[k + 2]@);
    if !matches!(tokens[k], Token::In) || !matches!(tokens[k + 1], Token::FromStream) {
        return Ok(None);
    }
    match &tokens[k + 2] {
        Token::Identifier(name) => {
            *i = k + 3;
            let target = Expr::Identifier(name.clone());
            assert(target@ == ExprModel::Identifier(name@));
            Ok(Some(Expr::Input(Box::new(target))))
        },
        _ => Err(Fault::ExpectedIdentifier),
    }
}

/// `es` in front of the statements of `r`; a fault stays as it is.
pub open spec fn prepend_statements(es: Seq<ExprModel>, r: Result<Seq<ExprModel>, Fault>) -> Result<Seq<ExprModel>, Fault> {
    match r {
        Ok(rest) => Ok(es + rest),
        Err(f) => Err(f),
    }
}

/// The statements of a program, in order.
pub fn parse(tokens: Vec<Token>) -> (r: Result<Vec<Expr>, Fault>)
    ensures
        match r {
            Ok(es) => parse_tokens(token_views(tokens@)) == Ok::<Seq<ExprModel>, Fault>(expr_views(es@)),
            Err(f) => parse_tokens(token_views(tokens@)) == Err::<Seq<ExprModel>, Fault>(f),
        },
{
    let ghost ts = token_views(tokens@);
    let mut exprs: Vec<Expr> = Vec::new();
    let mut i: usize = 0;
    assert(expr_views(exprs@) + Seq::<ExprModel>::empty() =~= Seq::<ExprModel>::empty());
    while i < tokens.len()
        invariant
            ts == token_views(tokens@),
            i <= tokens@.len(),
            parse_tokens(ts) == prepend_statements(expr_views(exprs@), parse_from(ts, i as int)),
        decreases tokens@.len() - i,
    {
        let ghost k = i as int;
        let slice = tokens.as_slice();
        let expr = match parse_stack_decl(slice, &mut i) {
            Err(f) => {
                return Err(f);
            },
            Ok(Some(e)) => e,
            Ok(None) => match parse_output(slice, &mut i) {
                Err(f) => {
                    return Err(f);
                },
                Ok(Some(e)) => e,
                Ok(None) => match parse_input(slice, &mut i) {
                    Err(f) => {
                        return Err(f);
                    },
                    Ok(Some(e)) => e,
                    Ok(None) => {
                        return Err(Fault::UnexpectedToken);
                    },
                },
            },
        };
        let ghost before = expr_views(exprs@);
        let ghost em = expr@;
        assert(statement_at(ts, k) == Ok::<(ExprModel, int), Fault>((em, i as int)));
        exprs.push(expr);
        assert(expr_views(exprs@) =~= before.push(em));
        proof {
            if let Ok(rest) = parse_from(ts, i as int) {
                assert(before + (seq![em] + rest) =~= expr_views(exprs@) + rest);
            }
        }
    }
    assert(expr_views(exprs@) + Seq::<ExprModel>::empty() =~= expr_views(exprs@));
    Ok(exprs)
}

} // verus!
