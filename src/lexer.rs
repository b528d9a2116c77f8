use vstd::prelude::*;

use crate::fault::Fault;
use crate::text::{
    alphabetic, chars_of, digit_value, digits_value, is_alphabetic, is_decimal_char, is_decimal_digit,
    push_char, same_chars, string_from_chars,
};

verus! {

/// A cursor over the characters of a source text.
#[derive(Clone, Debug)]
pub struct Lexer {
    input: Vec<char>,
    position: usize,
}

/// A lexical unit of the source text. `Assign` is never produced: `<-`
/// lexes as `IntoStream`. `Sub`, `Mul` and `Del` are lexed but no statement
/// uses them.
#[derive(Clone, Debug, PartialEq, Eq)]
pub enum Token {
    Stack,
    Out,
    In,
    Type(String),
    NumberLiteral(i64),
    StringLiteral(String),
    Identifier(String),
    Colon,
    Assign,
    Add,
    Sub,
    Mul,
    Del,
    IntoStream,
    FromStream,
    Unknown(char),
}

/// What a token stands for, with its text as characters.
pub enum TokenModel {
    Stack,
    Out,
    In,
    Type(Seq<char>),
    NumberLiteral(i64),
    StringLiteral(Seq<char>),
    Identifier(Seq<char>),
    Colon,
    Assign,
    Add,
    Sub,
    Mul,
    Del,
    IntoStream,
    FromStream,
    Unknown(char),
}

impl View for Token {
    type V = TokenModel;

    open spec fn view(&self) -> TokenModel {
        match self {
            Token::Stack => TokenModel::Stack,
            Token::Out => TokenModel::Out,
            Token::In => TokenModel::In,
            Token::Type(s) => TokenModel::Type(s@),
            Token::NumberLiteral(n) => TokenModel::NumberLiteral(*n),
            Token::StringLiteral(s) => TokenModel::StringLiteral(s@),
            Token::Identifier(s) => TokenModel::Identifier(s@),
            Token::Colon => TokenModel::Colon,
            Token::Assign => TokenModel::Assign,
            Token::Add => TokenModel::Add,
            Token::Sub => TokenModel::Sub,
            Token::Mul => TokenModel::Mul,
            Token::Del => TokenModel::Del,
            Token::IntoStream => TokenModel::IntoStream,
            Token::FromStream => TokenModel::FromStream,
            Token::Unknown(c) => TokenModel::Unknown(*c),
        }
    }
}

impl View for Lexer {
    /// The source characters and the read position.
    type V = (Seq<char>, int);

    closed spec fn view(&self) -> (Seq<char>, int) {
        (self.input@, self.position as int)
    }
}

pub open spec fn token_views(ts: Seq<Token>) -> Seq<TokenModel> {
    ts.map_values(|t: Token| t@)
}

pub open spec fn is_space(c: char) -> bool {
    c == ' ' || c == '\n' || c == '\t'
}

pub open spec fn is_word_char(c: char) -> bool {
    alphabetic(c) || c == '_'
}

/// The position of the first `"` at or after `i`, or the end of `s`.
pub open spec fn quote_end(s: Seq<char>, i: int) -> int
    decreases s.len() - i,
{
    if i >= s.len() {
        s.len() as int
    } else if s[i] == '"' {
        i
    } else {
        quote_end(s, i + 1)
    }
}

/// The end of the run of decimal digits that starts at `i`.
pub open spec fn digits_end(s: Seq<char>, i: int) -> int
    decreases s.len() - i,
{
    if i >= s.len() || !is_decimal_digit(s[i]) {
        i
    } else {
        digits_end(s, i + 1)
    }
}

/// The end of the run of letters and underscores that starts at `i`.
pub open spec fn word_end(s: Seq<char>, i: int) -> int
    decreases s.len() - i,
{
    if i >= s.len() || !is_word_char(s[i]) {
        i
    } else {
        word_end(s, i + 1)
    }
}

pub open spec fn kw_stack() -> Seq<char> {
    seq!['s', 't', 'a', 'c', 'k']
}

pub open spec fn kw_out() -> Seq<char> {
    seq!['o', 'u', 't']
}

pub open spec fn kw_in() -> Seq<char> {
    seq!['i', 'n']
}

pub open spec fn type_text() -> Seq<char> {
    seq!['t', 'e', 'x', 't']
}

pub open spec fn type_num() -> Seq<char> {
    seq!['n', 'u', 'm']
}

/// The token for a word: a keyword, a type name or an identifier.
pub open spec fn word_token(w: Seq<char>) -> TokenModel {
    if w == kw_stack() {
        TokenModel::Stack
    } else if w == kw_out() {
        TokenModel::Out
    } else if w == kw_in() {
        TokenModel::In
    } else if w == type_text() || w == type_num() {
        TokenModel::Type(w)
    } else {
        TokenModel::Identifier(w)
    }
}

/// The token that starts at `i`, which holds no white space, and the
/// position after it. A string literal keeps its characters as written; one
/// with no closing quote runs to the end of the source and is no fault. A
/// character that no rule claims becomes an `Unknown` token.
pub open spec fn scan(s: Seq<char>, i: int) -> Result<(TokenModel, int), Fault> {
    let c = s[i];
    if c == ':' {
        Ok((TokenModel::Colon, i + 1))
    } else if c == '<' && i + 1 < s.len() && s[i + 1] == '-' {
        Ok((TokenModel::IntoStream, i + 2))
    } else if c == '-' && i + 1 < s.len() && s[i + 1] == '>' {
        Ok((TokenModel::FromStream, i + 2))
    } else if c == '+' {
        Ok((TokenModel::Add, i + 1))
    } else if c == '-' {
        Ok((TokenModel::Sub, i + 1))
    } else if c == '*' {
        Ok((TokenModel::Mul, i + 1))
    } else if c == '/' {
        Ok((TokenModel::Del, i + 1))
    } else if c == '"' {
        let e = quote_end(s, i + 1);
        Ok((TokenModel::StringLiteral(s.subrange(i + 1, e)), if e < s.len() { e + 1 } else { e }))
    } else if alphabetic(c) {
        let e = word_end(s, i + 1);
        Ok((word_token(s.subrange(i, e)), e))
    } else if is_decimal_digit(c) {
        let e = digits_end(s, i + 1);
        let v = digits_value(s.subrange(i, e));
        if v <= i64::MAX {
            Ok((TokenModel::NumberLiteral(v as i64), e))
        } else {
            Err(Fault::NumberOutOfRange)
        }
    } else {
        Ok((TokenModel::Unknown(c), i + 1))
    }
}

/// The tokens of `s` from position `i` on, or the fault that stops lexing.
pub open spec fn lex_from(s: Seq<char>, i: int) -> Result<Seq<TokenModel>, Fault>
    decreases s.len() - i,
{
    if i < 0 || i >= s.len() {
        Ok(seq![])
    } else if is_space(s[i]) {
        lex_from(s, i + 1)
    } else {
        match scan(s, i) {
            Err(f) => Err(f),
            Ok((t, j)) => if i < j <= s.len() {
                match lex_from(s, j) {
                    Err(f) => Err(f),
                    Ok(ts) => Ok(seq![t] + ts),
                }
            } else {
                Ok(seq![t])
            },
        }
    }
}

/// The tokens of a whole source text.
pub open spec fn lex(s: Seq<char>) -> Result<Seq<TokenModel>, Fault> {
    lex_from(s, 0)
}


/// `r` with `t` in front of its tokens; a fault stays as it is.
pub open spec fn prepend(t: TokenModel, r: Result<Seq<TokenModel>, Fault>) -> Result<Seq<TokenModel>, Fault> {
    match r {
        Ok(ts) => Ok(seq![t] + ts),
        Err(f) => Err(f),
    }
}

/// The tokens `ts` in front of the tokens of `r`; a fault stays as it is.
pub open spec fn prepend_all(ts: Seq<TokenModel>, r: Result<Seq<TokenModel>, Fault>) -> Result<Seq<TokenModel>, Fault> {
    match r {
        Ok(us) => Ok(ts + us),
        Err(f) => Err(f),
    }
}

impl Lexer {
    pub fn new(input: &str) -> (l: Lexer)
        ensures
            l@ == (input@, 0int),
    {
        Lexer { input: chars_of(input), position: 0 }
    }

    fn next_char(&mut self) -> (r: Option<char>)
        ensures
            final(self).input@ == old(self).input@,
            old(self).position < old(self).input.len() ==> r == Some(
                old(self).input@[old(self).position as int],
            ) && final(self).position == old(self).position + 1,
            old(self).position >= old(self).input.len() ==> r.is_none() && final(self).position
                == old(self).position,
    {
        if self.position < self.input.len() {
            let ch = self.input[self.position];
            self.position = self.position + 1;
            Some(ch)
        } else {
            None
        }
    }

    fn peek_char(&self) -> (r: Option<char>)
        ensures
            r == (if self.position < self.input.len() {
                Some(self.input@[self.position as int])
            } else {
                None
            }),
    {
        if self.position < self.input.len() {
            Some(self.input[self.position])
        } else {
            None
        }
    }

    /// Reads the rest of a string literal, whose opening quote was just read.
    fn lex_string(&mut self) -> (t: Token)
        requires
            old(self).position <= old(self).input.len(),
        ensures
            final(self).input@ == old(self).input@,
            old(self).position <= final(self).position <= final(self).input.len(),
            ({
                let s = old(self).input@;
                let e = quote_end(s, old(self).position as int);
                &&& t@ == TokenModel::StringLiteral(s.subrange(old(self).position as int, e))
                &&& final(self).position == if e < s.len() { e + 1 } else { e }
            }),
    {
        let ghost start = self.position as int;
        let ghost s = self.input@;
        let mut token_value = String::new();
        loop
            invariant
                self.input@ == s,
                s == old(self).input@,
                start == old(self).position,
                start <= self.position <= s.len(),
                token_value@ == s.subrange(start, self.position as int),
                quote_end(s, start) == quote_end(s, self.position as int),
            decreases s.len() - self.position,
        {
            match self.next_char() {
                Some(ch) => {
                    if ch == '"' {
                        return Token::StringLiteral(token_value);
                    }
                    push_char(&mut token_value, ch);
                    assert(token_value@ =~= s.subrange(start, self.position as int));
                },
                None => {
                    return Token::StringLiteral(token_value);
                },
            }
        }
    }

    /// Reads the rest of a number literal whose first digit was just read.
    fn lex_number(&mut self, first: char) -> (r: Result<Token, Fault>)
        requires
            1 <= old(self).position <= old(self).input.len(),
            old(self).input@[old(self).position - 1] == first,
            is_decimal_digit(first),
        ensures
            final(self).input@ == old(self).input@,
            old(self).position <= final(self).position <= final(self).input.len(),
            ({
                let s = old(self).input@;
                let e = digits_end(s, old(self).position as int);
                let v = digits_value(s.subrange(old(self).position - 1, e));
                &&& final(self).position == e
                &&& match r {
                    Ok(t) => v <= i64::MAX && t@ == TokenModel::NumberLiteral(v as i64),
                    Err(f) => v > i64::MAX && f == Fault::NumberOutOfRange,
                }
            }),
    {
        let ghost s = self.input@;
        let ghost start = self.position - 1;
        let ghost e = digits_end(s, self.position as int);
        let mut value: i128 = (first as u32 - 48) as i128;
        let mut too_large = false;
        assert(s.subrange(start, start + 1).drop_last() =~= Seq::<char>::empty());
        assert(s.subrange(start, start + 1).last() == first);
        assert(digits_value(s.subrange(start, start + 1)) == digit_value(first)) by {
            reveal_with_fuel(digits_value, 2);
        }
        loop
            invariant
                self.input@ == s,
                s == old(self).input@,
                start + 1 == old(self).position,
                0 <= start < self.position <= s.len(),
                digits_end(s, self.position as int) == e,
                !too_large ==> 0 <= value <= i64::MAX && value == digits_value(
                    s.subrange(start, self.position as int),
                ),
                too_large ==> digits_value(s.subrange(start, self.position as int)) > i64::MAX,
            ensures
                self.input@ == s,
                start < self.position <= s.len(),
                self.position == e,
                !too_large ==> 0 <= value <= i64::MAX && value == digits_value(
                    s.subrange(start, self.position as int),
                ),
                too_large ==> digits_value(s.subrange(start, self.position as int)) > i64::MAX,
            decreases s.len() - self.position,
        {
            let next = self.peek_char();
            let ch = match next {
                Some(ch) => ch,
                None => {
                    break ;
                },
            };
            let code = ch as u32;
            if !(48 <= code && code <= 57) {
                break ;
            }
            let ghost before = s.subrange(start, self.position as int);
            self.next_char();
            let ghost after = s.subrange(start, self.position as int);
            assert(after.drop_last() =~= before);
            assert(after.last() == ch);
            if !too_large {
                let d: i128 = (code - 48) as i128;
                value = value * 10 + d;
                if value > i64::MAX as i128 {
                    too_large = true;
                }
            }
        }
        if too_large {
            Err(Fault::NumberOutOfRange)
        } else {
            Ok(Token::NumberLiteral(value as i64))
        }
    }

    /// Reads the rest of a word whose first letter was just read, and
    /// classifies it.
    fn lex_identifier(&mut self, first: char) -> (t: Token)
        requires
            1 <= old(self).position <= old(self).input.len(),
            old(self).input@[old(self).position - 1] == first,
        ensures
            final(self).input@ == old(self).input@,
            old(self).position <= final(self).position <= final(self).input.len(),
            ({
                let s = old(self).input@;
                let e = word_end(s, old(self).position as int);
                &&& final(self).position == e
                &&& t@ == word_token(s.subrange(old(self).position - 1, e))
            }),
    {
        let ghost s = self.input@;
        let ghost start = self.position - 1;
        let ghost e = word_end(s, self.position as int);
        let mut identifier: Vec<char> = Vec::new();
        identifier.push(first);
        assert(identifier@ =~= s.subrange(start, start + 1));
        loop
            invariant
                self.input@ == s,
                s == old(self).input@,
                start + 1 == old(self).position,
                0 <= start < self.position <= s.len(),
                word_end(s, self.position as int) == e,
                identifier@ == s.subrange(start, self.position as int),
            ensures
                self.input@ == s,
                self.position == e,
                identifier@ == s.subrange(start, self.position as int),
            decreases s.len() - self.position,
        {
            let ch = match self.peek_char() {
                Some(ch) => ch,
                None => {
                    break ;
                },
            };
            if !(is_alphabetic(ch) || ch == '_') {
                break ;
            }
            self.next_char();
            identifier.push(ch);
            assert(identifier@ =~= s.subrange(start, self.position as int));
        }
        let w = string_from_chars(&identifier);
        if same_chars(&identifier, &vec!['s', 't', 'a', 'c', 'k']) {
            Token::Stack
        } else if same_chars(&identifier, &vec!['o', 'u', 't']) {
            Token::Out
        } else if same_chars(&identifier, &vec!['i', 'n']) {
            Token::In
        } else if same_chars(&identifier, &vec!['t', 'e', 'x', 't']) || same_chars(
            &identifier,
            &vec!['n', 'u', 'm'],
        ) {
            Token::Type(w)
        } else {
            Token::Identifier(w)
        }
    }

    /// Skips white space and reads the next token, if any is left.
    fn next_token(&mut self) -> (r: Result<Option<Token>, Fault>)
        ensures
            final(self).input@ == old(self).input@,
            ({
                let s = old(self).input@;
                let p = old(self).position as int;
                match r {
                    Ok(None) => lex_from(s, p) == Ok::<Seq<TokenModel>, Fault>(seq![]),
                    Ok(Some(t)) => {
                        &&& p < final(self).position <= s.len()
                        &&& lex_from(s, p) == prepend(t@, lex_from(s, final(self).position as int))
                    },
                    Err(f) => lex_from(s, p) == Err::<Seq<TokenModel>, Fault>(f),
                }
            }),
    {
        let ghost s = self.input@;
        let ghost p0 = self.position as int;
        loop
            invariant
                self.input@ == s,
                s == old(self).input@,
                p0 == old(self).position,
                p0 <= self.position,
                lex_from(s, p0) == lex_from(s, self.position as int),
            decreases s.len() - self.position,
        {
            let ghost i = self.position as int;
            let ch = match self.next_char() {
                Some(ch) => ch,
                None => {
                    return Ok(None);
                },
            };
            if ch == ' ' || ch == '\n' || ch == '\t' {
                continue ;
            }
            let t = if ch == ':' {
                Token::Colon
            } else if ch == '<' && self.peek_char() == Some('-') {
                self.next_char();
                Token::IntoStream
            } else if ch == '-' && self.peek_char() == Some('>') {
                self.next_char();
                Token::FromStream
            } else if ch == '+' {
                Token::Add
            } else if ch == '-' {
                Token::Sub
            } else if ch == '*' {
                Token::Mul
            } else if ch == '/' {
                Token::Del
            } else if ch == '"' {
                self.lex_string()
            } else if is_alphabetic(ch) {
                self.lex_identifier(ch)
            } else if is_decimal_char(ch) {
                match self.lex_number(ch) {
                    Ok(t) => t,
                    Err(f) => {
                        return Err(f);
                    },
                }
            } else {
                Token::Unknown(ch)
            };
            assert(scan(s, i) == Ok::<(TokenModel, int), Fault>((t@, self.position as int)));
            assert(lex_from(s, i) == prepend(t@, lex_from(s, self.position as int)));
            return Ok(Some(t));
        }
    }

    /// All the tokens from the read position to the end of the source.
    pub fn tokenize(&mut self) -> (r: Result<Vec<Token>, Fault>)
        ensures
            final(self)@.0 == old(self)@.0,
            match r {
                Ok(ts) => lex_from(old(self)@.0, old(self)@.1) == Ok::<Seq<TokenModel>, Fault>(
                    token_views(ts@),
                ),
                Err(f) => lex_from(old(self)@.0, old(self)@.1) == Err::<Seq<TokenModel>, Fault>(f),
            },
    {
        let ghost s = self.input@;
        let ghost p0 = self.position as int;
        let mut tokens: Vec<Token> = Vec::new();
        loop
            invariant
                self.input@ == s,
                s == old(self).input@,
                p0 == old(self).position,
                lex_from(s, p0) == prepend_all(token_views(tokens@), lex_from(s, self.position as int)),
            decreases s.len() - self.position,
        {
            match self.next_token() {
                Ok(Some(t)) => {
                    let ghost before = tokens@;
                    let ghost tm = t@;
                    tokens.push(t);
                    assert(token_views(tokens@) =~= token_views(before) + seq![tm]);
                    proof {
                        if let Ok(us) = lex_from(s, self.position as int) {
                            assert(token_views(before) + (seq![tm] + us) =~= token_views(tokens@)
                                + us);
                        }
                    }
                },
                Ok(None) => {
                    assert(token_views(tokens@) + Seq::<TokenModel>::empty() =~= token_views(tokens@));
                    return Ok(tokens);
                },
                Err(f) => {
                    return Err(f);
                },
            }
        }
    }
}

} // verus!
