//! The parser: a token stream with one token of lookahead and a push-back
//! slot, and the grammar of expressions, statements and items over it.

pub mod ast;
pub mod expressions;
pub mod hierarchy;
pub mod pipeline;
pub mod precedence;
pub mod tuples;

use crate::error::CompileError;
use crate::lexer::scan::{lex, lexeme_models, tokenize, Lexeme, LexemeModel};
use crate::lexer::tokens::Token;
use vstd::prelude::*;

verus! {

/// The kind of the first token of `s`, or the end-of-input token if `s` is
/// empty.
pub open spec fn peek_token(s: Seq<LexemeModel>) -> Token {
    if s.len() == 0 {
        Token::EOF
    } else {
        s[0].token
    }
}

/// The error for a token that does not fit: a lexical error if the token is
/// the lexer's error token, an unexpected token otherwise.
pub open spec fn rejection(t: Token) -> CompileError {
    if t == Token::Error {
        CompileError::LexError
    } else {
        CompileError::UnexpectedToken
    }
}

/// Taking the token `expected` off the front of `s`: the rest of `s` if its
/// first token is `expected`, else the error for the token found.
pub open spec fn expect(s: Seq<LexemeModel>, expected: Token) -> Result<
    Seq<LexemeModel>,
    CompileError,
> {
    if s.len() > 0 && s[0].token == expected {
        Ok(s.drop_first())
    } else {
        Err(rejection(peek_token(s)))
    }
}

/// The outcome of a successful parse: what was built, and the tokens that
/// are left.
pub ghost struct Parsed<T> {
    pub value: T,
    pub rest: Seq<LexemeModel>,
}

/// Whether `rest` holds fewer tokens than `s`. This holds of what every
/// successful parse of `s` leaves, as the progress lemmas beside the
/// grammar show. The grammar states it wherever it goes on with the rest of
/// a parse, so that its recursion is seen to end; it never fails there.
pub open spec fn shorter(rest: Seq<LexemeModel>, s: Seq<LexemeModel>) -> bool {
    rest.len() < s.len()
}

/// Whether the result `r` of a parsing function, together with the tokens
/// `rest` that it left, is what the grammar gives.
pub open spec fn parsed_as<T: View>(
    r: Result<T, CompileError>,
    rest: Seq<LexemeModel>,
    expected: Result<Parsed<T::V>, CompileError>,
) -> bool {
    match r {
        Ok(v) => expected == Ok::<Parsed<T::V>, CompileError>(Parsed { value: v@, rest }),
        Err(e) => expected == Err::<Parsed<T::V>, CompileError>(e),
    }
}

/// A parser over one source text.
pub struct Parser {
    tokens: Vec<Lexeme>,
    pos: usize,
    reserve: Option<(Token, String)>,
}

impl Parser {
    /// The tokens of the source text that were not read yet.
    closed spec fn unread(&self) -> Seq<LexemeModel> {
        if self.pos <= self.tokens@.len() {
            lexeme_models(self.tokens@).skip(self.pos as int)
        } else {
            Seq::empty()
        }
    }

    /// The tokens still to be read, in the order in which `next` hands them
    /// out: the pushed-back one first, if there is one, then the unread
    /// tokens of the source text.
    pub closed spec fn stream(&self) -> Seq<LexemeModel> {
        let unread = self.unread();
        match self.reserve {
            Some(l) => seq![LexemeModel { token: l.0, text: l.1@ }] + unread,
            None => unread,
        }
    }

    /// Whether the push-back slot is occupied.
    pub closed spec fn reserved(&self) -> bool {
        self.reserve is Some
    }

    /// A parser at the start of `input`, with an empty push-back slot.
    pub fn new(input: &str) -> (p: Parser)
        ensures
            p.stream() == lex(input@),
            !p.reserved(),
    {
        let tokens = tokenize(input);
        assert(lexeme_models(tokens@).skip(0) =~= lexeme_models(tokens@));
        Parser { tokens, pos: 0, reserve: None }
    }

    /// The kind of the next token, without reading it; the end-of-input
    /// token at the end.
    pub fn peek(&self) -> (t: Token)
        ensures
            t == peek_token(self.stream()),
    {
        match &self.reserve {
            Some(l) => l.0,
            None => {
                if self.pos < self.tokens.len() {
                    self.tokens[self.pos].token
                } else {
                    Token::EOF
                }
            },
        }
    }

    /// Whether the next token is `kind`.
    pub fn at(&self, kind: Token) -> (b: bool)
        ensures
            b == (peek_token(self.stream()) == kind),
    {
        self.peek() == kind
    }

    /// Reads the next token and its text: the pushed-back pair if there is
    /// one, else the next token of the source text; `None` at the end.
    pub fn next(&mut self) -> (r: Option<(Token, String)>)
        ensures
            !final(self).reserved(),
            old(self).stream().len() == 0 ==> r is None && final(self).stream() == old(
                self,
            ).stream(),
            old(self).stream().len() > 0 ==> final(self).stream() == old(
                self,
            ).stream().drop_first() && (r matches Some(pair) && pair.0 == old(
                self,
            ).stream()[0].token && pair.1@ == old(self).stream()[0].text),
    {
        let ghost unread = self.unread();
        match self.reserve.take() {
            Some(l) => {
                assert((seq![LexemeModel { token: l.0, text: l.1@ }] + unread).drop_first()
                    =~= unread);
                Some(l)
            },
            None => {
                if self.pos < self.tokens.len() {
                    let token = self.tokens[self.pos].token;
                    let text = self.tokens[self.pos].text.clone();
                    self.pos = self.pos + 1;
                    assert(unread.drop_first() =~= self.unread());
                    Some((token, text))
                } else {
                    None
                }
            },
        }
    }

    /// Reads the next token, which must be `expected`. Nothing is read if it
    /// is not.
    pub fn consume(&mut self, expected: Token) -> (r: Result<(), CompileError>)
        ensures
            match expect(old(self).stream(), expected) {
                Ok(rest) => r is Ok && final(self).stream() == rest && !final(self).reserved(),
                Err(e) => r == Err::<(), CompileError>(e) && final(self).stream() == old(
                    self,
                ).stream() && final(self).reserved() == old(self).reserved(),
            },
    {
        let found = self.peek();
        if found == expected {
            match self.next() {
                Some(_) => Ok(()),
                None => Err(CompileError::UnexpectedToken),
            }
        } else if found == Token::Error {
            Err(CompileError::LexError)
        } else {
            Err(CompileError::UnexpectedToken)
        }
    }

    /// Puts a token and its text back in front of the stream, so that the
    /// next `next` returns this pair. The slot holds one pair: a push onto
    /// an occupied slot is refused and changes nothing.
    pub fn push(&mut self, data: (Token, String)) -> (r: Result<(), CompileError>)
        ensures
            old(self).reserved() ==> r == Err::<(), CompileError>(CompileError::PushBufferFull)
                && final(self).stream() == old(self).stream() && final(self).reserved(),
            !old(self).reserved() ==> r is Ok && final(self).reserved() && final(self).stream()
                == seq![LexemeModel { token: data.0, text: data.1@ }] + old(self).stream(),
    {
        if self.reserve.is_some() {
            return Err(CompileError::PushBufferFull);
        }
        self.reserve = Some(data);
        Ok(())
    }
}

} // verus!
