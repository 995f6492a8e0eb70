//! The token kinds and how each is written.

use crate::text::{decimal, decimal_string};
use vstd::prelude::*;

verus! {

/// One kind of token. A numeral carries its value; the text of an
/// identifier or a literal travels beside the token.
#[derive(Debug, PartialEq, Eq, Clone, Copy, Structural)]
pub enum Token {
    /// No pattern matches here, or a numeral has no value.
    Error,
    /// A letter followed by letters, digits and underscores, unless it is a keyword.
    Ident,
    /// A numeral, with its value.
    Number(usize),
    /// A string literal, in double or single quotes.
    String,
    /// A byte literal, in backticks.
    Byte,
    Underscore,
    Plus,
    Minus,
    Asterisk,
    Slash,
    Percent,
    Caret,
    Pipe,
    Inc,
    Dec,
    And,
    Or,
    Bang,
    Tilde,
    Question,
    Comma,
    Semicolon,
    Colon,
    DoubleColon,
    RightArrow,
    Ampersand,
    Assign,
    Declare,
    LeftCurlyBracket,
    RightCurlyBracket,
    LeftParen,
    RightParen,
    LeftSquarBracket,
    RightSquareBracket,
    LeftAngleBracket,
    RightAngleBracket,
    Equal,
    NotEqual,
    GreaterOrEqual,
    LessOrEqual,
    /// A line comment. The lexer skips comments and never hands one out.
    Comment,
    Dot,
    KeywordBreak,
    KeywordContinue,
    KeywordElse,
    KeywordFalse,
    KeywordFor,
    KeywordFn,
    KeywordIf,
    KeywordIn,
    KeywordNone,
    KeywordReturn,
    KeywordTrue,
    KeywordWhile,
    /// The end of the input. The lexer never hands it out; the parser sees it when it peeks past the last token.
    EOF,
}

/// How a token is written in messages and in printed expressions:
/// punctuation and keywords as in the source, a numeral as `num(` value `)`,
/// the other kinds by a fixed word.
pub open spec fn token_text(t: Token) -> Seq<char> {
    match t {
        Token::Error => "error"@,
        Token::Ident => "ident"@,
        Token::Number(n) => "num("@ + decimal(n as nat) + ")"@,
        Token::String => "string"@,
        Token::Byte => "byte"@,
        Token::Underscore => "_"@,
        Token::Plus => "+"@,
        Token::Minus => "-"@,
        Token::Asterisk => "*"@,
        Token::Slash => "/"@,
        Token::Percent => "%"@,
        Token::Caret => "^"@,
        Token::Pipe => "|"@,
        Token::Inc => "++"@,
        Token::Dec => "--"@,
        Token::And => "&&"@,
        Token::Or => "||"@,
        Token::Bang => "!"@,
        Token::Tilde => "~"@,
        Token::Question => "?"@,
        Token::Comma => ","@,
        Token::Semicolon => ";"@,
        Token::Colon => ":"@,
        Token::DoubleColon => "::"@,
        Token::RightArrow => "->"@,
        Token::Ampersand => "&"@,
        Token::Assign => "="@,
        Token::Declare => ":="@,
        Token::LeftCurlyBracket => "{"@,
        Token::RightCurlyBracket => "}"@,
        Token::LeftParen => "("@,
        Token::RightParen => ")"@,
        Token::LeftSquarBracket => "["@,
        Token::RightSquareBracket => "]"@,
        Token::LeftAngleBracket => "<"@,
        Token::RightAngleBracket => ">"@,
        Token::Equal => "=="@,
        Token::NotEqual => "!="@,
        Token::GreaterOrEqual => ">="@,
        Token::LessOrEqual => "<="@,
        Token::Comment => "// comment"@,
        Token::Dot => "."@,
        Token::KeywordBreak => "break"@,
        Token::KeywordContinue => "continue"@,
        Token::KeywordElse => "else"@,
        Token::KeywordFalse => "false"@,
        Token::KeywordFor => "for"@,
        Token::KeywordFn => "fn"@,
        Token::KeywordIf => "if"@,
        Token::KeywordIn => "in"@,
        Token::KeywordNone => "none"@,
        Token::KeywordReturn => "return"@,
        Token::KeywordTrue => "true"@,
        Token::KeywordWhile => "while"@,
        Token::EOF => "<EOF>"@,
    }
}

impl Token {
    /// The written form of the token.
    pub fn to_string(&self) -> (r: String)
        ensures
            r@ == token_text(*self),
    {
        match self {
            Token::Error => String::from_str("error"),
            Token::Ident => String::from_str("ident"),
            Token::Number(n) => {
                let mut s = String::from_str("num(");
                s.append(decimal_string(*n).as_str());
                s.append(")");
                s
            },
            Token::String => String::from_str("string"),
            Token::Byte => String::from_str("byte"),
            Token::Underscore => String::from_str("_"),
            Token::Plus => String::from_str("+"),
            Token::Minus => String::from_str("-"),
            Token::Asterisk => String::from_str("*"),
            Token::Slash => String::from_str("/"),
            Token::Percent => String::from_str("%"),
            Token::Caret => String::from_str("^"),
            Token::Pipe => String::from_str("|"),
            Token::Inc => String::from_str("++"),
            Token::Dec => String::from_str("--"),
            Token::And => String::from_str("&&"),
            Token::Or => String::from_str("||"),
            Token::Bang => String::from_str("!"),
            Token::Tilde => String::from_str("~"),
            Token::Question => String::from_str("?"),
            Token::Comma => String::from_str(","),
            Token::Semicolon => String::from_str(";"),
            Token::Colon => String::from_str(":"),
            Token::DoubleColon => String::from_str("::"),
            Token::RightArrow => String::from_str("->"),
            Token::Ampersand => String::from_str("&"),
            Token::Assign => String::from_str("="),
            Token::Declare => String::from_str(":="),
            Token::LeftCurlyBracket => String::from_str("{"),
            Token::RightCurlyBracket => String::from_str("}"),
            Token::LeftParen => String::from_str("("),
            Token::RightParen => String::from_str(")"),
            Token::LeftSquarBracket => String::from_str("["),
            Token::RightSquareBracket => String::from_str("]"),
            Token::LeftAngleBracket => String::from_str("<"),
            Token::RightAngleBracket => String::from_str(">"),
            Token::Equal => String::from_str("=="),
            Token::NotEqual => String::from_str("!="),
            Token::GreaterOrEqual => String::from_str(">="),
            Token::LessOrEqual => String::from_str("<="),
            Token::Comment => String::from_str("// comment"),
            Token::Dot => String::from_str("."),
            Token::KeywordBreak => String::from_str("break"),
            Token::KeywordContinue => String::from_str("continue"),
            Token::KeywordElse => String::from_str("else"),
            Token::KeywordFalse => String::from_str("false"),
            Token::KeywordFor => String::from_str("for"),
            Token::KeywordFn => String::from_str("fn"),
            Token::KeywordIf => String::from_str("if"),
            Token::KeywordIn => String::from_str("in"),
            Token::KeywordNone => String::from_str("none"),
            Token::KeywordReturn => String::from_str("return"),
            Token::KeywordTrue => String::from_str("true"),
            Token::KeywordWhile => String::from_str("while"),
            Token::EOF => String::from_str("<EOF>"),
        }
    }
}

} // verus!
