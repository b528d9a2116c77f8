use vstd::prelude::*;

use crate::ast::{addition_at, chain, parse_from, parse_tokens, statement_at, ExprModel};
use crate::fault::Fault;
use crate::interpreter::{eval, input_line, run, run_from};
use crate::lexer::{is_space, lex_from, scan, type_num, type_text, TokenModel};
use crate::pipeline::run_tokens;
use crate::text::{alphabetic, decimal_text, is_decimal_digit, trimmed, unescape};

verus! {

/// `s` holds no backslash directly followed by `n`.
pub open spec fn no_escapes(s: Seq<char>) -> bool {
    forall|i: int| 0 <= i < s.len() - 1 ==> !(#[trigger] s[i] == '\\' && s[i + 1] == 'n')
}

pub proof fn lemma_unescape_plain(s: Seq<char>)
    requires
        no_escapes(s),
    ensures
        unescape(s) == s,
    decreases s.len(),
{
    if s.len() > 0 {
        let t = s.skip(1);
        assert forall|i: int| 0 <= i < t.len() - 1 implies !(#[trigger] t[i] == '\\' && t[i + 1]
            == 'n') by {
            assert(t[i] == s[i + 1]);
            assert(t[i + 1] == s[i + 2]);
        }
        lemma_unescape_plain(s.skip(1));
        assert(seq![s[0]] + s.skip(1) =~= s);
    }
}

/// The tokens of `stack <x> : text <- <lit>`.
pub open spec fn text_declaration(x: Seq<char>, lit: Seq<char>) -> Seq<TokenModel> {
    seq![
        TokenModel::Stack,
        TokenModel::Identifier(x),
        TokenModel::Colon,
        TokenModel::Type(type_text()),
        TokenModel::IntoStream,
        TokenModel::StringLiteral(lit),
    ]
}

/// The tokens of `out <- <x>`.
pub open spec fn output_of(x: Seq<char>) -> Seq<TokenModel> {
    seq![TokenModel::Out, TokenModel::IntoStream, TokenModel::Identifier(x)]
}

/// A text variable declared with a string literal and then written out
/// writes the literal's characters exactly, whatever lines of input there
/// are, as long as the literal holds no `\` `n` pair: such a pair is stored
/// and written as it was typed, not as a newline.
pub proof fn text_declaration_round_trip(x: Seq<char>, lit: Seq<char>, inputs: Seq<Seq<char>>)
    requires
        no_escapes(lit),
    ensures
        run_tokens(text_declaration(x, lit) + output_of(x), inputs) == Ok::<Seq<char>, Fault>(
            unescape(lit),
        ),
{
    let ts = text_declaration(x, lit) + output_of(x);
    let decl = ExprModel::StackDecl {
        name: x,
        typ: type_text(),
        value: Box::new(ExprModel::StringLiteral(lit)),
    };
    let out = ExprModel::Output(Box::new(ExprModel::Identifier(x)));
    assert(statement_at(ts, 0) == Ok::<(ExprModel, int), Fault>((decl, 6)));
    assert(statement_at(ts, 6) == Ok::<(ExprModel, int), Fault>((out, 9)));
    assert(parse_from(ts, 9) == Ok::<Seq<ExprModel>, Fault>(seq![]));
    assert(seq![out] + Seq::<ExprModel>::empty() =~= seq![out]);
    assert(parse_from(ts, 6) == Ok::<Seq<ExprModel>, Fault>(seq![out]));
    assert(seq![decl] + seq![out] =~= seq![decl, out]);
    assert(parse_tokens(ts) == Ok::<Seq<ExprModel>, Fault>(seq![decl, out]));
    let stmts = seq![decl, out];
    let env = Map::<Seq<char>, Seq<char>>::empty().insert(x, lit);
    assert(run_from(env, stmts, 2, inputs, 0) == Ok::<Seq<char>, Fault>(seq![]));
    assert(lit + Seq::<char>::empty() =~= lit);
    assert(run_from(env, stmts, 1, inputs, 0) == Ok::<Seq<char>, Fault>(lit));
    assert(run(stmts, inputs) == Ok::<Seq<char>, Fault>(lit));
    lemma_unescape_plain(lit);
}


/// The tokens of `stack <x> : <typ>`.
pub open spec fn bare_declaration(x: Seq<char>, typ: Seq<char>) -> Seq<TokenModel> {
    seq![TokenModel::Stack, TokenModel::Identifier(x), TokenModel::Colon, TokenModel::Type(typ)]
}

/// A variable declared without a value holds its type's zero value: a
/// `text` variable writes nothing, a `num` variable writes `0`.
pub proof fn default_values(x: Seq<char>, inputs: Seq<Seq<char>>)
    ensures
        run_tokens(bare_declaration(x, type_text()) + output_of(x), inputs) == Ok::<Seq<char>, Fault>(
            seq![],
        ),
        run_tokens(bare_declaration(x, type_num()) + output_of(x), inputs) == Ok::<Seq<char>, Fault>(
            seq!['0'],
        ),
{
    let out = ExprModel::Output(Box::new(ExprModel::Identifier(x)));
    let ts = bare_declaration(x, type_text()) + output_of(x);
    let decl = ExprModel::StackDecl {
        name: x,
        typ: type_text(),
        value: Box::new(ExprModel::StringLiteral(seq![])),
    };
    assert(statement_at(ts, 0) == Ok::<(ExprModel, int), Fault>((decl, 4)));
    assert(statement_at(ts, 4) == Ok::<(ExprModel, int), Fault>((out, 7)));
    assert(parse_from(ts, 7) == Ok::<Seq<ExprModel>, Fault>(seq![]));
    assert(seq![out] + Seq::<ExprModel>::empty() =~= seq![out]);
    assert(parse_from(ts, 4) == Ok::<Seq<ExprModel>, Fault>(seq![out]));
    assert(seq![decl] + seq![out] =~= seq![decl, out]);
    assert(parse_tokens(ts) == Ok::<Seq<ExprModel>, Fault>(seq![decl, out]));
    let env = Map::<Seq<char>, Seq<char>>::empty().insert(x, seq![]);
    assert(run_from(env, seq![decl, out], 2, inputs, 0) == Ok::<Seq<char>, Fault>(seq![]));
    assert(Seq::<char>::empty() + Seq::<char>::empty() =~= Seq::<char>::empty());
    assert(run_from(env, seq![decl, out], 1, inputs, 0) == Ok::<Seq<char>, Fault>(seq![]));
    assert(run(seq![decl, out], inputs) == Ok::<Seq<char>, Fault>(seq![]));

    let ts = bare_declaration(x, type_num()) + output_of(x);
    let decl = ExprModel::StackDecl {
        name: x,
        typ: type_num(),
        value: Box::new(ExprModel::NumberLiteral(0)),
    };
    assert(type_num() != type_text());
    assert(statement_at(ts, 0) == Ok::<(ExprModel, int), Fault>((decl, 4)));
    assert(statement_at(ts, 4) == Ok::<(ExprModel, int), Fault>((out, 7)));
    assert(parse_from(ts, 7) == Ok::<Seq<ExprModel>, Fault>(seq![]));
    assert(parse_from(ts, 4) == Ok::<Seq<ExprModel>, Fault>(seq![out]));
    assert(seq![decl] + seq![out] =~= seq![decl, out]);
    assert(parse_tokens(ts) == Ok::<Seq<ExprModel>, Fault>(seq![decl, out]));
    assert(decimal_text(0) == seq!['0']);
    let env = Map::<Seq<char>, Seq<char>>::empty().insert(x, seq!['0']);
    assert(run_from(env, seq![decl, out], 2, inputs, 0) == Ok::<Seq<char>, Fault>(seq![]));
    assert(seq!['0'] + Seq::<char>::empty() =~= seq!['0']);
    assert(run_from(env, seq![decl, out], 1, inputs, 0) == Ok::<Seq<char>, Fault>(seq!['0']));
    assert(run(seq![decl, out], inputs) == Ok::<Seq<char>, Fault>(seq!['0']));
}

/// The tokens of `stack <x> : num <- <n>`.
pub open spec fn num_declaration(x: Seq<char>, n: i64) -> Seq<TokenModel> {
    seq![
        TokenModel::Stack,
        TokenModel::Identifier(x),
        TokenModel::Colon,
        TokenModel::Type(type_num()),
        TokenModel::IntoStream,
        TokenModel::NumberLiteral(n),
    ]
}

/// The tokens of `out <- <a> + <b> + <c>`.
pub open spec fn output_sum(a: Seq<char>, b: Seq<char>, c: Seq<char>) -> Seq<TokenModel> {
    seq![
        TokenModel::Out,
        TokenModel::IntoStream,
        TokenModel::Identifier(a),
        TokenModel::Add,
        TokenModel::Identifier(b),
        TokenModel::Add,
        TokenModel::Identifier(c),
    ]
}

/// `+` joins texts from left to right, numbers included: three `num`
/// variables added write their decimal texts one after the other, with no
/// arithmetic.
pub proof fn addition_concatenates_left_to_right(
    a: Seq<char>,
    b: Seq<char>,
    c: Seq<char>,
    na: i64,
    nb: i64,
    nc: i64,
    inputs: Seq<Seq<char>>,
)
    requires
        a != b,
        a != c,
        b != c,
    ensures
        run_tokens(
            num_declaration(a, na) + num_declaration(b, nb) + num_declaration(c, nc) + output_sum(
                a,
                b,
                c,
            ),
            inputs,
        ) == Ok::<Seq<char>, Fault>(
            decimal_text(na as int) + decimal_text(nb as int) + decimal_text(nc as int),
        ),
{
    let ts = num_declaration(a, na) + num_declaration(b, nb) + num_declaration(c, nc) + output_sum(
        a,
        b,
        c,
    );
    let da = ExprModel::StackDecl {
        name: a,
        typ: type_num(),
        value: Box::new(ExprModel::NumberLiteral(na)),
    };
    let db = ExprModel::StackDecl {
        name: b,
        typ: type_num(),
        value: Box::new(ExprModel::NumberLiteral(nb)),
    };
    let dc = ExprModel::StackDecl {
        name: c,
        typ: type_num(),
        value: Box::new(ExprModel::NumberLiteral(nc)),
    };
    let ia = ExprModel::Identifier(a);
    let ib = ExprModel::Identifier(b);
    let ic = ExprModel::Identifier(c);
    let sum = ExprModel::Addition {
        left: Box::new(ExprModel::Addition { left: Box::new(ia), right: Box::new(ib) }),
        right: Box::new(ic),
    };
    let out = ExprModel::Output(Box::new(sum));
    assert(statement_at(ts, 0) == Ok::<(ExprModel, int), Fault>((da, 6)));
    assert(statement_at(ts, 6) == Ok::<(ExprModel, int), Fault>((db, 12)));
    assert(statement_at(ts, 12) == Ok::<(ExprModel, int), Fault>((dc, 18)));
    let ab = ExprModel::Addition { left: Box::new(ia), right: Box::new(ib) };
    assert(chain(ts, 25, sum) == Ok::<(ExprModel, int), Fault>((sum, 25)));
    assert(chain(ts, 23, ab) == Ok::<(ExprModel, int), Fault>((sum, 25)));
    assert(chain(ts, 21, ia) == Ok::<(ExprModel, int), Fault>((sum, 25)));
    assert(addition_at(ts, 20) == Ok::<(ExprModel, int), Fault>((sum, 25)));
    assert(statement_at(ts, 18) == Ok::<(ExprModel, int), Fault>((out, 25)));
    assert(parse_from(ts, 25) == Ok::<Seq<ExprModel>, Fault>(seq![]));
    assert(seq![out] + Seq::<ExprModel>::empty() =~= seq![out]);
    assert(parse_from(ts, 18) == Ok::<Seq<ExprModel>, Fault>(seq![out]));
    assert(seq![dc] + seq![out] =~= seq![dc, out]);
    assert(parse_from(ts, 12) == Ok::<Seq<ExprModel>, Fault>(seq![dc, out]));
    assert(seq![db] + seq![dc, out] =~= seq![db, dc, out]);
    assert(parse_from(ts, 6) == Ok::<Seq<ExprModel>, Fault>(seq![db, dc, out]));
    assert(seq![da] + seq![db, dc, out] =~= seq![da, db, dc, out]);
    let stmts = seq![da, db, dc, out];
    assert(parse_tokens(ts) == Ok::<Seq<ExprModel>, Fault>(stmts));
    let ta = decimal_text(na as int);
    let tb = decimal_text(nb as int);
    let tc = decimal_text(nc as int);
    let e1 = Map::<Seq<char>, Seq<char>>::empty().insert(a, ta);
    let e2 = e1.insert(b, tb);
    let e3 = e2.insert(c, tc);
    assert(eval(e3, ia) == Ok::<Seq<char>, Fault>(ta));
    assert(eval(e3, ib) == Ok::<Seq<char>, Fault>(tb));
    assert(eval(e3, ic) == Ok::<Seq<char>, Fault>(tc));
    assert(eval(e3, ab) == Ok::<Seq<char>, Fault>(ta + tb));
    assert(eval(e3, sum) == Ok::<Seq<char>, Fault>(ta + tb + tc));
    assert(run_from(e3, stmts, 4, inputs, 0) == Ok::<Seq<char>, Fault>(seq![]));
    assert(ta + tb + tc + Seq::<char>::empty() =~= ta + tb + tc);
    assert(run_from(e3, stmts, 3, inputs, 0) == Ok::<Seq<char>, Fault>(ta + tb + tc));
    assert(run_from(e2, stmts, 2, inputs, 0) == Ok::<Seq<char>, Fault>(ta + tb + tc));
    assert(run_from(e1, stmts, 1, inputs, 0) == Ok::<Seq<char>, Fault>(ta + tb + tc));
}

/// The tokens of `in -> <x>`.
pub open spec fn input_into(x: Seq<char>) -> Seq<TokenModel> {
    seq![TokenModel::In, TokenModel::FromStream, TokenModel::Identifier(x)]
}

/// Reading into a declared text variable replaces its value with the line
/// read, trimmed; the old value is gone.
pub proof fn input_overwrites(x: Seq<char>, old_text: Seq<char>, inputs: Seq<Seq<char>>)
    ensures
        run_tokens(text_declaration(x, old_text) + input_into(x) + output_of(x), inputs) == Ok::<
            Seq<char>,
            Fault,
        >(trimmed(input_line(inputs, 0))),
{
    let ts = text_declaration(x, old_text) + input_into(x) + output_of(x);
    let decl = ExprModel::StackDecl {
        name: x,
        typ: type_text(),
        value: Box::new(ExprModel::StringLiteral(old_text)),
    };
    let inp = ExprModel::Input(Box::new(ExprModel::Identifier(x)));
    let out = ExprModel::Output(Box::new(ExprModel::Identifier(x)));
    let line = trimmed(input_line(inputs, 0));
    assert(statement_at(ts, 0) == Ok::<(ExprModel, int), Fault>((decl, 6)));
    assert(statement_at(ts, 6) == Ok::<(ExprModel, int), Fault>((inp, 9)));
    assert(statement_at(ts, 9) == Ok::<(ExprModel, int), Fault>((out, 12)));
    assert(parse_from(ts, 12) == Ok::<Seq<ExprModel>, Fault>(seq![]));
    assert(seq![out] + Seq::<ExprModel>::empty() =~= seq![out]);
    assert(parse_from(ts, 9) == Ok::<Seq<ExprModel>, Fault>(seq![out]));
    assert(seq![inp] + seq![out] =~= seq![inp, out]);
    assert(parse_from(ts, 6) == Ok::<Seq<ExprModel>, Fault>(seq![inp, out]));
    assert(seq![decl] + seq![inp, out] =~= seq![decl, inp, out]);
    let stmts = seq![decl, inp, out];
    assert(parse_tokens(ts) == Ok::<Seq<ExprModel>, Fault>(stmts));
    let env1 = Map::<Seq<char>, Seq<char>>::empty().insert(x, old_text);
    let env2 = env1.insert(x, line);
    assert(run_from(env2, stmts, 3, inputs, 1) == Ok::<Seq<char>, Fault>(seq![]));
    assert(line + Seq::<char>::empty() =~= line);
    assert(run_from(env2, stmts, 2, inputs, 1) == Ok::<Seq<char>, Fault>(line));
    assert(run_from(env1, stmts, 1, inputs, 0) == Ok::<Seq<char>, Fault>(line));
    assert(run(stmts, inputs) == Ok::<Seq<char>, Fault>(line));
}

/// Writing out a variable that holds no value yet faults, whatever the
/// statements after it are; nothing stands in for the missing value.
pub proof fn undeclared_output_faults(
    env: Map<Seq<char>, Seq<char>>,
    stmts: Seq<ExprModel>,
    k: int,
    y: Seq<char>,
    inputs: Seq<Seq<char>>,
    used: int,
)
    requires
        0 <= k < stmts.len(),
        stmts[k] == ExprModel::Output(Box::new(ExprModel::Identifier(y))),
        !env.contains_key(y),
    ensures
        run_from(env, stmts, k, inputs, used) == Err::<Seq<char>, Fault>(Fault::UndeclaredVariable),
{
    assert(eval(env, ExprModel::Identifier(y)) == Err::<Seq<char>, Fault>(Fault::UndeclaredVariable));
}

/// The tokens of `out <- <lit>` for a string literal.
pub open spec fn output_literal(lit: Seq<char>) -> Seq<TokenModel> {
    seq![TokenModel::Out, TokenModel::IntoStream, TokenModel::StringLiteral(lit)]
}

/// A `\` `n` pair in a string literal becomes a newline only where an
/// output statement evaluates that literal; a variable declared with it
/// keeps the two characters and writes them as they are.
pub proof fn escapes_resolve_on_output(x: Seq<char>, lit: Seq<char>, inputs: Seq<Seq<char>>)
    ensures
        run_tokens(text_declaration(x, lit) + output_literal(lit) + output_of(x), inputs) == Ok::<
            Seq<char>,
            Fault,
        >(unescape(lit) + lit),
{
    let ts = text_declaration(x, lit) + output_literal(lit) + output_of(x);
    let decl = ExprModel::StackDecl {
        name: x,
        typ: type_text(),
        value: Box::new(ExprModel::StringLiteral(lit)),
    };
    let show = ExprModel::Output(Box::new(ExprModel::StringLiteral(lit)));
    let out = ExprModel::Output(Box::new(ExprModel::Identifier(x)));
    assert(statement_at(ts, 0) == Ok::<(ExprModel, int), Fault>((decl, 6)));
    assert(statement_at(ts, 6) == Ok::<(ExprModel, int), Fault>((show, 9)));
    assert(statement_at(ts, 9) == Ok::<(ExprModel, int), Fault>((out, 12)));
    assert(parse_from(ts, 12) == Ok::<Seq<ExprModel>, Fault>(seq![]));
    assert(seq![out] + Seq::<ExprModel>::empty() =~= seq![out]);
    assert(parse_from(ts, 9) == Ok::<Seq<ExprModel>, Fault>(seq![out]));
    assert(seq![show] + seq![out] =~= seq![show, out]);
    assert(parse_from(ts, 6) == Ok::<Seq<ExprModel>, Fault>(seq![show, out]));
    assert(seq![decl] + seq![show, out] =~= seq![decl, show, out]);
    let stmts = seq![decl, show, out];
    assert(parse_tokens(ts) == Ok::<Seq<ExprModel>, Fault>(stmts));
    let env = Map::<Seq<char>, Seq<char>>::empty().insert(x, lit);
    assert(run_from(env, stmts, 3, inputs, 0) == Ok::<Seq<char>, Fault>(seq![]));
    assert(lit + Seq::<char>::empty() =~= lit);
    assert(run_from(env, stmts, 2, inputs, 0) == Ok::<Seq<char>, Fault>(lit));
    assert(run_from(env, stmts, 1, inputs, 0) == Ok::<Seq<char>, Fault>(unescape(lit) + lit));
}

/// A character that no token rule claims.
pub open spec fn is_stray(c: char) -> bool {
    &&& !is_space(c)
    &&& c != ':' && c != '<' && c != '-' && c != '+' && c != '*' && c != '/' && c != '"'
    &&& !alphabetic(c)
    &&& !is_decimal_digit(c)
}

/// A stray character becomes an unknown token of its own, and lexing goes
/// on after it.
pub proof fn stray_character_is_unknown_token(s: Seq<char>, i: int)
    requires
        0 <= i < s.len(),
        is_stray(s[i]),
    ensures
        scan(s, i) == Ok::<(TokenModel, int), Fault>((TokenModel::Unknown(s[i]), i + 1)),
        lex_from(s, i) == match lex_from(s, i + 1) {
            Ok(ts) => Ok(seq![TokenModel::Unknown(s[i])] + ts),
            Err(f) => Err::<Seq<TokenModel>, Fault>(f),
        },
{
}

/// Lexing stops only on a number literal too large for 64 signed bits;
/// every other character, stray ones included, yields a token or is skipped.
pub proof fn lexing_faults_only_on_large_numbers(s: Seq<char>, i: int)
    ensures
        lex_from(s, i) is Err ==> lex_from(s, i) == Err::<Seq<TokenModel>, Fault>(
            Fault::NumberOutOfRange,
        ),
    decreases s.len() - i,
{
    if 0 <= i < s.len() {
        if is_space(s[i]) {
            lexing_faults_only_on_large_numbers(s, i + 1);
        } else if let Ok((t, j)) = scan(s, i) {
            if i < j <= s.len() {
                lexing_faults_only_on_large_numbers(s, j);
            }
        }
    }
}

/// An unknown token where a statement should start stops parsing with a
/// fault.
pub proof fn unknown_token_faults_in_parser(ts: Seq<TokenModel>, i: int)
    requires
        0 <= i < ts.len(),
        ts[i] is Unknown,
    ensures
        parse_from(ts, i) == Err::<Seq<ExprModel>, Fault>(Fault::UnexpectedToken),
{
}

} // verus!
