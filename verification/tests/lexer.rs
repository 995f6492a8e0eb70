use burn::lexer::scan::{tokenize, Lexeme};
use burn::lexer::Token;

fn kinds(input: &str) -> Vec<Token> {
    tokenize(input).into_iter().map(|l| l.token).collect()
}

fn texts(input: &str) -> Vec<String> {
    tokenize(input).into_iter().map(|l| l.text).collect()
}

fn lexeme(token: Token, text: &str) -> (Token, String) {
    (token, text.to_string())
}

fn pairs(input: &str) -> Vec<(Token, String)> {
    tokenize(input).into_iter().map(|l| (l.token, l.text)).collect()
}

fn places(input: &str) -> Vec<(usize, usize)> {
    tokenize(input).into_iter().map(|l| (l.start, l.end)).collect()
}

#[test]
fn empty_input_has_no_tokens() {
    assert_eq!(pairs(""), Vec::new());
    assert_eq!(pairs("  \t\n\x0c "), Vec::new());
    assert_eq!(pairs("// only a comment"), Vec::new());
    assert_eq!(pairs("// one\n// two\n"), Vec::new());
}

#[test]
fn tokens_carry_their_text() {
    assert_eq!(
        pairs("foo := bar_1 + 42;"),
        vec![
            lexeme(Token::Ident, "foo"),
            lexeme(Token::Declare, ":="),
            lexeme(Token::Ident, "bar_1"),
            lexeme(Token::Plus, "+"),
            lexeme(Token::Number(42), "42"),
            lexeme(Token::Semicolon, ";"),
        ]
    );
    assert_eq!(texts("'a b' \"c\" `d`"), vec!["'a b'", "\"c\"", "`d`"]);
}

#[test]
fn every_punctuation_is_read() {
    assert_eq!(
        kinds("+ - * / % ^ | ++ -- && || ! ~ ? , ; : :: -> & = := { } ( ) [ ] < > == != >= <= ."),
        vec![
            Token::Plus,
            Token::Minus,
            Token::Asterisk,
            Token::Slash,
            Token::Percent,
            Token::Caret,
            Token::Pipe,
            Token::Inc,
            Token::Dec,
            Token::And,
            Token::Or,
            Token::Bang,
            Token::Tilde,
            Token::Question,
            Token::Comma,
            Token::Semicolon,
            Token::Colon,
            Token::DoubleColon,
            Token::RightArrow,
            Token::Ampersand,
            Token::Assign,
            Token::Declare,
            Token::LeftCurlyBracket,
            Token::RightCurlyBracket,
            Token::LeftParen,
            Token::RightParen,
            Token::LeftSquarBracket,
            Token::RightSquareBracket,
            Token::LeftAngleBracket,
            Token::RightAngleBracket,
            Token::Equal,
            Token::NotEqual,
            Token::GreaterOrEqual,
            Token::LessOrEqual,
            Token::Dot,
        ]
    );
}

#[test]
fn longer_punctuation_goes_first() {
    assert_eq!(kinds("::"), vec![Token::DoubleColon]);
    assert_eq!(kinds(":::"), vec![Token::DoubleColon, Token::Colon]);
    assert_eq!(kinds("->"), vec![Token::RightArrow]);
    assert_eq!(kinds("-->"), vec![Token::Dec, Token::RightAngleBracket]);
    assert_eq!(kinds("- >"), vec![Token::Minus, Token::RightAngleBracket]);
    assert_eq!(kinds("==="), vec![Token::Equal, Token::Assign]);
    assert_eq!(kinds(">>"), vec![Token::RightAngleBracket, Token::RightAngleBracket]);
    assert_eq!(kinds("a<=b"), vec![Token::Ident, Token::LessOrEqual, Token::Ident]);
    assert_eq!(kinds("+++"), vec![Token::Inc, Token::Plus]);
    assert_eq!(kinds("&&&"), vec![Token::And, Token::Ampersand]);
}

#[test]
fn every_keyword_is_read() {
    assert_eq!(
        kinds("break continue else false for fn if in none return true while"),
        vec![
            Token::KeywordBreak,
            Token::KeywordContinue,
            Token::KeywordElse,
            Token::KeywordFalse,
            Token::KeywordFor,
            Token::KeywordFn,
            Token::KeywordIf,
            Token::KeywordIn,
            Token::KeywordNone,
            Token::KeywordReturn,
            Token::KeywordTrue,
            Token::KeywordWhile,
        ]
    );
}

#[test]
fn a_longer_word_is_an_identifier() {
    assert_eq!(kinds("fortune"), vec![Token::Ident]);
    assert_eq!(kinds("iff"), vec![Token::Ident]);
    assert_eq!(kinds("fn_"), vec![Token::Ident]);
    assert_eq!(kinds("For"), vec![Token::Ident]);
    assert_eq!(kinds("in1"), vec![Token::Ident]);
    assert_eq!(kinds("import yield"), vec![Token::Ident, Token::Ident]);
    assert_eq!(kinds("a_b_9"), vec![Token::Ident]);
    assert_eq!(texts("x1y"), vec!["x1y"]);
}

#[test]
fn numerals_drop_their_underscores() {
    assert_eq!(kinds("0"), vec![Token::Number(0)]);
    assert_eq!(kinds("007"), vec![Token::Number(7)]);
    assert_eq!(kinds("1_000_000"), vec![Token::Number(1000000)]);
    assert_eq!(kinds("_1"), vec![Token::Number(1)]);
    assert_eq!(kinds("1_"), vec![Token::Number(1)]);
    assert_eq!(kinds("12ab"), vec![Token::Number(12), Token::Ident]);
    assert_eq!(texts("1_0 2"), vec!["1_0", "2"]);
}

#[test]
fn a_lone_underscore_is_the_placeholder() {
    assert_eq!(kinds("_"), vec![Token::Underscore]);
    assert_eq!(kinds("_ _"), vec![Token::Underscore, Token::Underscore]);
    assert_eq!(kinds("(_)"), vec![Token::LeftParen, Token::Underscore, Token::RightParen]);
}

#[test]
fn a_numeral_without_value_is_an_error() {
    assert_eq!(pairs("__"), vec![lexeme(Token::Error, "__")]);
    assert_eq!(pairs("___ 1"), vec![lexeme(Token::Error, "___"), lexeme(Token::Number(1), "1")]);
    let max = format!("{}", usize::MAX);
    assert_eq!(kinds(&max), vec![Token::Number(usize::MAX)]);
    let too_big = format!("{}0", usize::MAX);
    assert_eq!(pairs(&too_big), vec![lexeme(Token::Error, &too_big)]);
    assert_eq!(
        kinds("99999999999999999999999999999999999999999999"),
        vec![Token::Error]
    );
    let padded = format!("0000000000000000000000000{}", usize::MAX);
    assert_eq!(kinds(&padded), vec![Token::Number(usize::MAX)]);
}

#[test]
fn strings_end_at_the_first_free_quote() {
    assert_eq!(texts("\"abc\" d"), vec!["\"abc\"", "d"]);
    assert_eq!(kinds("\"abc\" d"), vec![Token::String, Token::Ident]);
    assert_eq!(kinds("''"), vec![Token::String]);
    assert_eq!(texts("'it\\'s' x"), vec!["'it\\'s'", "x"]);
    assert_eq!(texts("\"a'b\""), vec!["\"a'b\""]);
    assert_eq!(texts("'a\"b'"), vec!["'a\"b'"]);
    assert_eq!(texts("\"a\\\\\" b"), vec!["\"a\\\\\"", "b"]);
    assert_eq!(kinds("\"line\nbreak\""), vec![Token::String]);
    assert_eq!(kinds("\"gr\u{fc}n\" x"), vec![Token::String, Token::Ident]);
    assert_eq!(texts("\"// no comment\""), vec!["\"// no comment\""]);
}

#[test]
fn an_open_string_is_an_error_at_its_quote() {
    assert_eq!(
        pairs("\"abc"),
        vec![lexeme(Token::Error, "\""), lexeme(Token::Ident, "abc")]
    );
    assert_eq!(kinds("'abc\\'"), vec![Token::Error, Token::Ident, Token::Error, Token::Error]);
    assert_eq!(kinds("\"abc\\"), vec![Token::Error, Token::Ident, Token::Error]);
}

#[test]
fn byte_literals_hold_one_glyph_or_an_escape() {
    assert_eq!(pairs("`a`"), vec![lexeme(Token::Byte, "`a`")]);
    assert_eq!(pairs("`\\n`"), vec![lexeme(Token::Byte, "`\\n`")]);
    assert_eq!(pairs("`\\\\`"), vec![lexeme(Token::Byte, "`\\\\`")]);
    assert_eq!(pairs("`\\``"), vec![lexeme(Token::Byte, "`\\``")]);
    assert_eq!(pairs("```"), vec![lexeme(Token::Byte, "```")]);
    assert_eq!(kinds("`~` `!`"), vec![Token::Byte, Token::Byte]);
    assert_eq!(kinds("` `"), vec![Token::Error, Token::Error]);
    assert_eq!(kinds("`ab`"), vec![Token::Error, Token::Ident, Token::Error]);
    assert_eq!(kinds("``"), vec![Token::Error, Token::Error]);
    assert_eq!(kinds("`\\`"), vec![Token::Error, Token::Error, Token::Error]);
    assert_eq!(kinds("`a"), vec![Token::Error, Token::Ident]);
    assert_eq!(kinds("`\u{e9}`"), vec![Token::Error, Token::Error, Token::Error]);
}

#[test]
fn comments_run_to_the_end_of_the_line() {
    assert_eq!(kinds("a // b c\nd"), vec![Token::Ident, Token::Ident]);
    assert_eq!(kinds("a / b"), vec![Token::Ident, Token::Slash, Token::Ident]);
    assert_eq!(kinds("a /// b"), vec![Token::Ident]);
    assert_eq!(kinds("a //\n/ b"), vec![Token::Ident, Token::Slash, Token::Ident]);
    assert_eq!(kinds("//\u{e9}\nx"), vec![Token::Ident]);
}

#[test]
fn what_matches_nothing_is_an_error_of_one_character() {
    assert_eq!(
        pairs("a # b"),
        vec![lexeme(Token::Ident, "a"), lexeme(Token::Error, "#"), lexeme(Token::Ident, "b")]
    );
    assert_eq!(kinds("@$"), vec![Token::Error, Token::Error]);
    assert_eq!(kinds("a\rb"), vec![Token::Ident, Token::Error, Token::Ident]);
    assert_eq!(kinds("\\"), vec![Token::Error]);
    assert_eq!(pairs("\u{e9}x"), vec![lexeme(Token::Error, "\u{e9}"), lexeme(Token::Ident, "x")]);
}

#[test]
fn every_token_has_its_place() {
    assert_eq!(places(""), Vec::new());
    assert_eq!(places("foo"), vec![(0, 3)]);
    assert_eq!(places("  foo  "), vec![(2, 5)]);
    assert_eq!(places("a+b"), vec![(0, 1), (1, 2), (2, 3)]);
    assert_eq!(places("ab := 12;"), vec![(0, 2), (3, 5), (6, 8), (8, 9)]);
    assert_eq!(places("a // c\nb"), vec![(0, 1), (7, 8)]);
    assert_eq!(places("'x y' `z`"), vec![(0, 5), (6, 9)]);
    assert_eq!(places("# a"), vec![(0, 1), (2, 3)]);
}

#[test]
fn places_count_bytes() {
    // two bytes for the umlaut, three for the euro sign, four for the clef
    assert_eq!(places("'\u{fc}' a"), vec![(0, 4), (5, 6)]);
    assert_eq!(places("'\u{20ac}' a"), vec![(0, 5), (6, 7)]);
    assert_eq!(places("'\u{1d11e}' a"), vec![(0, 6), (7, 8)]);
    assert_eq!(places("//\u{fc}\u{20ac}\na"), vec![(8, 9)]);
    assert_eq!(places("\u{fc}a"), vec![(0, 2), (2, 3)]);
}

#[test]
fn the_text_of_a_token_is_the_source_at_its_place() {
    let inputs = [
        "fn main() { 'gr\u{fc}n' -> out; } // \u{20ac}\n x := `a` + 1_000;",
        "a # \u{1d11e} b \"open",
        "foo::bar.baz(1, _, 'x')!",
    ];
    for input in inputs {
        let lexemes: Vec<Lexeme> = tokenize(input);
        let mut last = 0;
        for l in lexemes {
            assert!(last <= l.start);
            assert!(l.start < l.end);
            assert_eq!(&input[l.start..l.end], l.text);
            last = l.end;
        }
        assert!(last <= input.len());
    }
}
