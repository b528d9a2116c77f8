use vstd::prelude::*;

use crate::ast::{expr_views, Expr, ExprModel};
use crate::fault::Fault;
use crate::lexer::{type_num, type_text};
use crate::text::{
    chars_of, decimal_string, decimal_text, push_char, resolve_escapes, same_chars, trim_line,
    trimmed, unescape,
};

verus! {

/// The variables of a running program and their values, all kept as text.
pub struct Environment {
    bindings: Vec<(String, String)>,
}

/// The variables that a list of bindings defines; a later binding of a
/// name hides the earlier ones.
pub open spec fn bindings_map(s: Seq<(String, String)>) -> Map<Seq<char>, Seq<char>>
    decreases s.len(),
{
    if s.len() == 0 {
        Map::empty()
    } else {
        bindings_map(s.drop_last()).insert(s.last().0@, s.last().1@)
    }
}

impl View for Environment {
    type V = Map<Seq<char>, Seq<char>>;

    closed spec fn view(&self) -> Map<Seq<char>, Seq<char>> {
        bindings_map(self.bindings@)
    }
}

proof fn lemma_bindings_suffix(s: Seq<(String, String)>, j: int, name: Seq<char>)
    requires
        0 <= j <= s.len(),
        forall|k: int| j <= k < s.len() ==> s[k].0@ != name,
    ensures
        bindings_map(s).contains_key(name) == bindings_map(s.take(j)).contains_key(name),
        bindings_map(s)[name] == bindings_map(s.take(j))[name],
    decreases s.len(),
{
    if j == s.len() {
        assert(s.take(j) =~= s);
    } else {
        lemma_bindings_suffix(s.drop_last(), j, name);
        assert(s.drop_last().take(j) =~= s.take(j));
    }
}

impl Environment {
    /// An environment with no variables.
    pub fn new() -> (r: Environment)
        ensures
            r@ == Map::<Seq<char>, Seq<char>>::empty(),
    {
        Environment { bindings: Vec::new() }
    }

    /// The value of variable `name`, if it is declared.
    pub fn get(&self, name: &String) -> (r: Option<String>)
        ensures
            match r {
                Some(v) => self@.contains_key(name@) && v@ == self@[name@],
                None => !self@.contains_key(name@),
            },
    {
        let ghost s = self.bindings@;
        let mut j: usize = self.bindings.len();
        while j > 0
            invariant
                s == self.bindings@,
                j <= s.len(),
                forall|k: int| j <= k < s.len() ==> s[k].0@ != name@,
            decreases j,
        {
            if self.bindings[j - 1].0 == *name {
                proof {
                    lemma_bindings_suffix(s, j as int, name@);
                    assert(s.take(j as int).drop_last() =~= s.take(j - 1));
                }
                return Some(self.bindings[j - 1].1.clone());
            }
            j = j - 1;
        }
        proof {
            lemma_bindings_suffix(s, 0, name@);
        }
        None
    }

    /// Binds `name` to `value`, in place of any earlier value.
    pub fn set(&mut self, name: String, value: String)
        ensures
            final(self)@ == old(self)@.insert(name@, value@),
    {
        let ghost s = self.bindings@;
        self.bindings.push((name, value));
        assert(self.bindings@.drop_last() =~= s);
    }
}


/// The text an expression evaluates to, or the fault that stops it.
/// Addition joins the two texts; the left side is evaluated first.
pub open spec fn eval(env: Map<Seq<char>, Seq<char>>, e: ExprModel) -> Result<Seq<char>, Fault>
    decreases e,
{
    match e {
        ExprModel::Identifier(name) => if env.contains_key(name) {
            Ok(env[name])
        } else {
            Err(Fault::UndeclaredVariable)
        },
        ExprModel::StringLiteral(s) => Ok(unescape(s)),
        ExprModel::NumberLiteral(n) => Ok(decimal_text(n as int)),
        ExprModel::Addition { left, right } => match eval(env, *left) {
            Err(f) => Err(f),
            Ok(a) => match eval(env, *right) {
                Err(f) => Err(f),
                Ok(b) => Ok(a + b),
            },
        },
        _ => Err(Fault::UnsupportedExpression),
    }
}

/// The text a declaration of type `typ` stores for `value`. A `text`
/// variable keeps a string literal as written and takes the empty text for
/// anything else; a `num` variable takes a number literal's decimal text.
pub open spec fn declared_value(typ: Seq<char>, value: ExprModel) -> Result<Seq<char>, Fault> {
    if typ == type_text() {
        match value {
            ExprModel::StringLiteral(s) => Ok(s),
            _ => Ok(seq![]),
        }
    } else if typ == type_num() {
        match value {
            ExprModel::NumberLiteral(n) => Ok(decimal_text(n as int)),
            _ => Err(Fault::ExpectedNumber),
        }
    } else {
        Err(Fault::UnsupportedType)
    }
}

/// Appends the characters of `t` to `s`.
fn append_text(s: &mut String, t: &str)
    ensures
        final(s)@ == old(s)@ + t@,
{
    let cs = chars_of(t);
    let mut i: usize = 0;
    while i < cs.len()
        invariant
            i <= cs.len(),
            cs@ == t@,
            s@ == old(s)@ + cs@.take(i as int),
        decreases cs.len() - i,
    {
        push_char(s, cs[i]);
        i = i + 1;
        assert(old(s)@ + cs@.take(i as int) =~= old(s)@ + cs@.take(i - 1) + seq![cs@[i - 1]]);
    }
    assert(cs@.take(cs.len() as int) =~= cs@);
}

/// Stores the value of a declaration.
fn handle_stack_decl(env: &mut Environment, name: &String, typ: &String, value: &Expr) -> (r: Result<(), Fault>)
    ensures
        match declared_value(typ@, value@) {
            Ok(v) => r is Ok && final(env)@ == old(env)@.insert(name@, v),
            Err(f) => r == Err::<(), Fault>(f) && final(env)@ == old(env)@,
        },
{
    let typ_chars = chars_of(typ.as_str());
    if same_chars(&typ_chars, &vec!['t', 'e', 'x', 't']) {
        let val = match value {
            Expr::StringLiteral(s) => s.clone(),
            _ => String::new(),
        };
        env.set(name.clone(), val);
        Ok(())
    } else if same_chars(&typ_chars, &vec!['n', 'u', 'm']) {
        match value {
            Expr::NumberLiteral(n) => {
                env.set(name.clone(), decimal_string(*n));
                Ok(())
            },
            _ => Err(Fault::ExpectedNumber),
        }
    } else {
        Err(Fault::UnsupportedType)
    }
}

/// The text of an expression.
pub fn evaluate_expr(env: &Environment, expr: &Expr) -> (r: Result<String, Fault>)
    ensures
        match r {
            Ok(t) => eval(env@, expr@) == Ok::<Seq<char>, Fault>(t@),
            Err(f) => eval(env@, expr@) == Err::<Seq<char>, Fault>(f),
        },
    decreases expr,
{
    match expr {
        Expr::Identifier(name) => match env.get(name) {
            Some(v) => Ok(v),
            None => Err(Fault::UndeclaredVariable),
        },
        Expr::StringLiteral(s) => Ok(resolve_escapes(s.as_str())),
        Expr::NumberLiteral(n) => Ok(decimal_string(*n)),
        Expr::Addition { left, right } => {
            let mut text = match evaluate_expr(env, left) {
                Ok(t) => t,
                Err(f) => {
                    return Err(f);
                },
            };
            let rest = match evaluate_expr(env, right) {
                Ok(t) => t,
                Err(f) => {
                    return Err(f);
                },
            };
            append_text(&mut text, rest.as_str());
            Ok(text)
        },
        _ => Err(Fault::UnsupportedExpression),
    }
}

/// The text that an output statement of `expr` writes.
fn handle_output(env: &Environment, expr: &Expr) -> (r: Result<String, Fault>)
    ensures
        match r {
            Ok(t) => eval(env@, expr@) == Ok::<Seq<char>, Fault>(t@),
            Err(f) => eval(env@, expr@) == Err::<Seq<char>, Fault>(f),
        },
{
    evaluate_expr(env, expr)
}

/// Stores a line of input, trimmed, in the declared variable that `target` names.
pub fn handle_input(env: &mut Environment, target: &Expr, line: &str) -> (r: Result<(), Fault>)
    ensures
        match target@ {
            ExprModel::Identifier(name) => if old(env)@.contains_key(name) {
                r is Ok && final(env)@ == old(env)@.insert(name, trimmed(line@))
            } else {
                r == Err::<(), Fault>(Fault::UndeclaredVariable) && final(env)@ == old(env)@
            },
            _ => r == Err::<(), Fault>(Fault::ExpectedIdentifier) && final(env)@ == old(env)@,
        },
{
    match target {
        Expr::Identifier(name) => {
            if env.get(name).is_none() {
                return Err(Fault::UndeclaredVariable);
            }
            env.set(name.clone(), trim_line(line));
            Ok(())
        },
        _ => Err(Fault::ExpectedIdentifier),
    }
}


/// What the host has to do after a statement has run.
pub enum Action {
    /// Nothing: go on with the next statement.
    Proceed,
    /// Write this text to the output as it is, then go on.
    Print(String),
    /// Read a line of input and hand it to `handle_input` with the
    /// statement's target, then go on.
    ReadLine,
}

/// Runs one statement against `env`, up to the point where the host has to
/// write or read.
pub fn execute(env: &mut Environment, stmt: &Expr) -> (r: Result<Action, Fault>)
    ensures
        match stmt@ {
            ExprModel::StackDecl { name, typ, value } => match declared_value(typ, *value) {
                Ok(v) => r matches Ok(Action::Proceed) && final(env)@ == old(env)@.insert(name, v),
                Err(f) => r == Err::<Action, Fault>(f),
            },
            ExprModel::Output(e) => final(env)@ == old(env)@ && match eval(old(env)@, *e) {
                Ok(t) => r matches Ok(Action::Print(p)) && p@ == t,
                Err(f) => r == Err::<Action, Fault>(f),
            },
            ExprModel::Input(target) => final(env)@ == old(env)@ && match *target {
                ExprModel::Identifier(name) => if old(env)@.contains_key(name) {
                    r matches Ok(Action::ReadLine)
                } else {
                    r == Err::<Action, Fault>(Fault::UndeclaredVariable)
                },
                _ => r == Err::<Action, Fault>(Fault::ExpectedIdentifier),
            },
            _ => r == Err::<Action, Fault>(Fault::UnsupportedStatement),
        },
{
    match stmt {
        Expr::StackDecl { name, typ, value } => match handle_stack_decl(env, name, typ, value) {
            Ok(()) => Ok(Action::Proceed),
            Err(f) => Err(f),
        },
        Expr::Output(e) => match handle_output(env, e) {
            Ok(t) => Ok(Action::Print(t)),
            Err(f) => Err(f),
        },
        Expr::Input(target) => match &**target {
            Expr::Identifier(name) => {
                assert(target@ == ExprModel::Identifier(name@));
                if env.get(name).is_none() {
                    return Err(Fault::UndeclaredVariable);
                }
                Ok(Action::ReadLine)
            },
            _ => {
                assert(!(target@ is Identifier));
                Err(Fault::ExpectedIdentifier)
            },
        },
        _ => Err(Fault::UnsupportedStatement),
    }
}

pub open spec fn line_views(lines: Seq<String>) -> Seq<Seq<char>> {
    lines.map_values(|l: String| l@)
}

/// The line an input statement reads when `used` lines were read before;
/// past the last line it reads the empty text.
pub open spec fn input_line(inputs: Seq<Seq<char>>, used: int) -> Seq<char> {
    if 0 <= used < inputs.len() {
        inputs[used]
    } else {
        seq![]
    }
}

/// The output of statements `k ..` run against `env`, reading lines of
/// `inputs` from position `used` on, or the fault that stops them.
pub open spec fn run_from(
    env: Map<Seq<char>, Seq<char>>,
    stmts: Seq<ExprModel>,
    k: int,
    inputs: Seq<Seq<char>>,
    used: int,
) -> Result<Seq<char>, Fault>
    decreases stmts.len() - k,
{
    if k < 0 || k >= stmts.len() {
        Ok(seq![])
    } else {
        match stmts[k] {
            ExprModel::StackDecl { name, typ, value } => match declared_value(typ, *value) {
                Ok(v) => run_from(env.insert(name, v), stmts, k + 1, inputs, used),
                Err(f) => Err(f),
            },
            ExprModel::Output(e) => match eval(env, *e) {
                Err(f) => Err(f),
                Ok(t) => match run_from(env, stmts, k + 1, inputs, used) {
                    Ok(rest) => Ok(t + rest),
                    Err(f) => Err(f),
                },
            },
            ExprModel::Input(target) => match *target {
                ExprModel::Identifier(name) => if env.contains_key(name) {
                    run_from(
                        env.insert(name, trimmed(input_line(inputs, used))),
                        stmts,
                        k + 1,
                        inputs,
                        used + 1,
                    )
                } else {
                    Err(Fault::UndeclaredVariable)
                },
                _ => Err(Fault::ExpectedIdentifier),
            },
            _ => Err(Fault::UnsupportedStatement),
        }
    }
}

/// The whole output of a program that reads the lines `inputs`.
pub open spec fn run(stmts: Seq<ExprModel>, inputs: Seq<Seq<char>>) -> Result<Seq<char>, Fault> {
    run_from(Map::empty(), stmts, 0, inputs, 0)
}

/// `out` in front of the output of `r`; a fault stays as it is.
pub open spec fn prepend_text(out: Seq<char>, r: Result<Seq<char>, Fault>) -> Result<Seq<char>, Fault> {
    match r {
        Ok(rest) => Ok(out + rest),
        Err(f) => Err(f),
    }
}

/// Runs a program to its end with the given lines of input, and returns
/// all that it wrote.
pub fn interpret(exprs: Vec<Expr>, input: Vec<String>) -> (r: Result<String, Fault>)
    ensures
        match r {
            Ok(out) => run(expr_views(exprs@), line_views(input@)) == Ok::<Seq<char>, Fault>(out@),
            Err(f) => run(expr_views(exprs@), line_views(input@)) == Err::<Seq<char>, Fault>(f),
        },
{
    let ghost stmts = expr_views(exprs@);
    let ghost ins = line_views(input@);
    let mut env = Environment::new();
    let mut out = String::new();
    let mut used: usize = 0;
    let mut k: usize = 0;
    assert(out@ + Seq::<char>::empty() =~= Seq::<char>::empty());
    while k < exprs.len()
        invariant
            stmts == expr_views(exprs@),
            ins == line_views(input@),
            used <= k <= exprs@.len(),
            run(stmts, ins) == prepend_text(out@, run_from(env@, stmts, k as int, ins, used as int)),
        decreases exprs@.len() - k,
    {
        let stmt = &exprs[k];
        assert(stmts[k as int] == stmt@);
        let ghost env0 = env@;
        let ghost out0 = out@;
        match execute(&mut env, stmt) {
            Err(f) => {
                return Err(f);
            },
            Ok(Action::Proceed) => {},
            Ok(Action::Print(t)) => {
                append_text(&mut out, t.as_str());
                proof {
                    if let Ok(rest) = run_from(env@, stmts, k + 1, ins, used as int) {
                        assert(out0 + (t@ + rest) =~= out@ + rest);
                    }
                }
            },
            Ok(Action::ReadLine) => {
                let empty = String::new();
                assert(empty@ =~= input_line(ins, used as int) || used < input.len());
                let line = if used < input.len() {
                    assert(ins[used as int] == input@[used as int]@);
                    input[used].as_str()
                } else {
                    empty.as_str()
                };
                // `execute` has checked the target, so storing the line cannot fail.
                if let Expr::Input(target) = stmt {
                    let _ = handle_input(&mut env, target, line);
                }
                used = used + 1;
            },
        }
        k = k + 1;
    }
    assert(out@ + Seq::<char>::empty() =~= out@);
    Ok(out)
}

} // verus!
