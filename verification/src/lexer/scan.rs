//! The lexical rules: which characters form which token, and the scanner
//! that applies them from left to right.

use crate::lexer::tokens::Token;
use crate::text::{digit_value, is_digit};
use vstd::prelude::*;
use vstd::string::StringSliceAdditionalSpecFns;
use vstd::utf8::{
    char_is_scalar, encode_scalar, encode_utf8, encode_utf8_decode_utf8, encode_utf8_first_scalar,
    encode_utf8_valid_utf8, is_char_boundary, pop_first_scalar,
};

verus! {

/// A token together with the piece of source text that it was read from
/// and the place of that piece: the byte offsets in the source text at
/// which it starts and ends.
#[derive(Debug, PartialEq)]
pub struct Lexeme {
    pub token: Token,
    pub text: String,
    pub start: usize,
    pub end: usize,
}

/// A stretch of the source text, from the byte offset `start` up to, and
/// without, the byte offset `end`.
pub ghost struct Span {
    pub start: int,
    pub end: int,
}

/// What a [`Lexeme`] stands for.
pub ghost struct LexemeModel {
    pub token: Token,
    pub text: Seq<char>,
}

impl View for Lexeme {
    type V = LexemeModel;

    open spec fn view(&self) -> LexemeModel {
        LexemeModel { token: self.token, text: self.text@ }
    }
}

impl Clone for Lexeme {
    fn clone(&self) -> (r: Self)
        ensures
            r@ == self@,
    {
        Lexeme { token: self.token, text: self.text.clone(), start: self.start, end: self.end }
    }
}

/// The models of a sequence of lexemes, in order.
pub open spec fn lexeme_models(v: Seq<Lexeme>) -> Seq<LexemeModel> {
    Seq::new(v.len(), |i: int| v[i]@)
}

/// The places of a sequence of lexemes, in order.
pub open spec fn lexeme_spans(v: Seq<Lexeme>) -> Seq<Span> {
    Seq::new(v.len(), |i: int| Span { start: v[i].start as int, end: v[i].end as int })
}

/// The byte offset of the character position `n`: the number of bytes that
/// the first `n` characters of `src` take in UTF-8.
pub open spec fn byte_offset(src: Seq<char>, n: int) -> int {
    encode_utf8(src.take(n)).len() as int
}

/// Blank characters between tokens: space, tab, line feed, form feed.
pub open spec fn is_space(c: char) -> bool {
    c == ' ' || c == '\t' || c == '\n' || c == '\x0c'
}

/// An ASCII letter.
pub open spec fn is_letter(c: char) -> bool {
    ('a' <= c <= 'z') || ('A' <= c <= 'Z')
}

/// A printable ASCII character other than the space.
pub open spec fn is_glyph(c: char) -> bool {
    '!' <= c <= '~'
}

/// The classes of characters of which a token can hold a run.
#[derive(Debug, PartialEq, Eq, Clone, Copy, Structural)]
pub enum CharClass {
    /// Letters, digits and the underscore: the body of an identifier.
    Word,
    /// Digits and the underscore: a numeral.
    Numeral,
    /// Everything but the line feed: the body of a line comment.
    Line,
}

/// Whether `c` belongs to `class`.
pub open spec fn in_class(class: CharClass, c: char) -> bool {
    match class {
        CharClass::Word => is_letter(c) || is_digit(c) || c == '_',
        CharClass::Numeral => is_digit(c) || c == '_',
        CharClass::Line => c != '\n',
    }
}

/// The end of the longest run of `class` characters that starts at `pos`:
/// the first position from `pos` on that holds no such character.
pub open spec fn run_end(src: Seq<char>, pos: int, class: CharClass) -> int
    decreases src.len() - pos,
{
    if 0 <= pos < src.len() && in_class(class, src[pos]) {
        run_end(src, pos + 1, class)
    } else {
        pos
    }
}

/// Where the first token after `pos` starts: behind all blanks and line
/// comments. A comment runs from `//` to the end of its line.
pub open spec fn skip_trivia(src: Seq<char>, pos: int) -> int
    decreases src.len() - pos,
    via skip_trivia_decreases
{
    if 0 <= pos < src.len() && is_space(src[pos]) {
        skip_trivia(src, pos + 1)
    } else if 0 <= pos && pos + 1 < src.len() && src[pos] == '/' && src[pos + 1] == '/' {
        skip_trivia(src, run_end(src, pos + 2, CharClass::Line))
    } else {
        pos
    }
}

#[via_fn]
proof fn skip_trivia_decreases(src: Seq<char>, pos: int) {
    if 0 <= pos && pos + 1 < src.len() {
        lemma_run_end_bounds(src, pos + 2, CharClass::Line);
    }
}

/// A run ends at or after its start, within the text, at a character outside
/// the class, and holds only characters of the class.
pub proof fn lemma_run_end_bounds(src: Seq<char>, pos: int, class: CharClass)
    requires
        0 <= pos <= src.len(),
    ensures
        pos <= run_end(src, pos, class) <= src.len(),
        run_end(src, pos, class) < src.len() ==> !in_class(
            class,
            src[run_end(src, pos, class)],
        ),
        forall|i: int| pos <= i < run_end(src, pos, class) ==> in_class(class, #[trigger] src[i]),
    decreases src.len() - pos,
{
    if pos < src.len() && in_class(class, src[pos]) {
        lemma_run_end_bounds(src, pos + 1, class);
    }
}

/// The value of the digits of `text`, read as a decimal numeral. Underscores
/// are passed over.
pub open spec fn digits_value(text: Seq<char>) -> nat
    decreases text.len(),
{
    if text.len() == 0 {
        0
    } else if is_digit(text.last()) {
        digits_value(text.drop_last()) * 10 + digit_value(text.last())
    } else {
        digits_value(text.drop_last())
    }
}

/// Whether `text` holds a digit.
pub open spec fn has_digit(text: Seq<char>) -> bool {
    exists|i: int| 0 <= i < text.len() && is_digit(#[trigger] text[i])
}

/// The token of a run of digits and underscores. A lone underscore is the
/// underscore token. Any other run is a numeral whose value is that of its
/// digits; a run without a digit, or with a value that does not fit the
/// machine word, has no value and is an error.
pub open spec fn numeral_token(text: Seq<char>) -> Token {
    if text == seq!['_'] {
        Token::Underscore
    } else if has_digit(text) && digits_value(text) <= usize::MAX {
        Token::Number(digits_value(text) as usize)
    } else {
        Token::Error
    }
}

/// The token of a run that starts with a letter: the keyword of that
/// spelling, or an identifier.
pub open spec fn word_token(text: Seq<char>) -> Token {
    if text == "break"@ {
        Token::KeywordBreak
    } else if text == "continue"@ {
        Token::KeywordContinue
    } else if text == "else"@ {
        Token::KeywordElse
    } else if text == "false"@ {
        Token::KeywordFalse
    } else if text == "for"@ {
        Token::KeywordFor
    } else if text == "fn"@ {
        Token::KeywordFn
    } else if text == "if"@ {
        Token::KeywordIf
    } else if text == "in"@ {
        Token::KeywordIn
    } else if text == "none"@ {
        Token::KeywordNone
    } else if text == "return"@ {
        Token::KeywordReturn
    } else if text == "true"@ {
        Token::KeywordTrue
    } else if text == "while"@ {
        Token::KeywordWhile
    } else {
        Token::Ident
    }
}

/// The punctuation token that is written with the single character `a`.
pub open spec fn punct_one(a: char) -> Option<Token> {
    if a == '+' {
        Some(Token::Plus)
    } else if a == '-' {
        Some(Token::Minus)
    } else if a == '*' {
        Some(Token::Asterisk)
    } else if a == '/' {
        Some(Token::Slash)
    } else if a == '%' {
        Some(Token::Percent)
    } else if a == '^' {
        Some(Token::Caret)
    } else if a == '|' {
        Some(Token::Pipe)
    } else if a == '!' {
        Some(Token::Bang)
    } else if a == '~' {
        Some(Token::Tilde)
    } else if a == '?' {
        Some(Token::Question)
    } else if a == ',' {
        Some(Token::Comma)
    } else if a == ';' {
        Some(Token::Semicolon)
    } else if a == ':' {
        Some(Token::Colon)
    } else if a == '&' {
        Some(Token::Ampersand)
    } else if a == '=' {
        Some(Token::Assign)
    } else if a == '{' {
        Some(Token::LeftCurlyBracket)
    } else if a == '}' {
        Some(Token::RightCurlyBracket)
    } else if a == '(' {
        Some(Token::LeftParen)
    } else if a == ')' {
        Some(Token::RightParen)
    } else if a == '[' {
        Some(Token::LeftSquarBracket)
    } else if a == ']' {
        Some(Token::RightSquareBracket)
    } else if a == '<' {
        Some(Token::LeftAngleBracket)
    } else if a == '>' {
        Some(Token::RightAngleBracket)
    } else if a == '.' {
        Some(Token::Dot)
    } else {
        None
    }
}

/// The punctuation token that is written with the two characters `a`, `b`.
pub open spec fn punct_two(a: char, b: char) -> Option<Token> {
    if a == '+' && b == '+' {
        Some(Token::Inc)
    } else if a == '-' && b == '-' {
        Some(Token::Dec)
    } else if a == '-' && b == '>' {
        Some(Token::RightArrow)
    } else if a == '&' && b == '&' {
        Some(Token::And)
    } else if a == '|' && b == '|' {
        Some(Token::Or)
    } else if a == ':' && b == ':' {
        Some(Token::DoubleColon)
    } else if a == ':' && b == '=' {
        Some(Token::Declare)
    } else if a == '=' && b == '=' {
        Some(Token::Equal)
    } else if a == '!' && b == '=' {
        Some(Token::NotEqual)
    } else if a == '>' && b == '=' {
        Some(Token::GreaterOrEqual)
    } else if a == '<' && b == '=' {
        Some(Token::LessOrEqual)
    } else {
        None
    }
}

/// Where a string literal ends whose body starts at `pos` and whose opening
/// quote was `quote`: just behind the first `quote` that no backslash
/// escapes. A backslash escapes the character behind it, whatever that is.
/// `None` if the text ends before that.
pub open spec fn string_end(src: Seq<char>, pos: int, quote: char) -> Option<int>
    decreases src.len() - pos,
{
    if pos < 0 || pos >= src.len() {
        None
    } else if src[pos] == quote {
        Some(pos + 1)
    } else if src[pos] == '\\' {
        if pos + 1 < src.len() {
            string_end(src, pos + 2, quote)
        } else {
            None
        }
    } else {
        string_end(src, pos + 1, quote)
    }
}

/// Where a byte literal ends that opens with the backtick at `pos`: a
/// backtick, then either one glyph other than the backslash or a backslash
/// and one more character, then a backtick. `None` if there is none.
pub open spec fn byte_end(src: Seq<char>, pos: int) -> Option<int> {
    if pos + 2 < src.len() && is_glyph(src[pos + 1]) && src[pos + 1] != '\\' && src[pos + 2]
        == '`' {
        Some(pos + 3)
    } else if pos + 3 < src.len() && src[pos + 1] == '\\' && src[pos + 3] == '`' {
        Some(pos + 4)
    } else {
        None
    }
}

/// A token and the position just behind it.
pub ghost struct Scanned {
    pub token: Token,
    pub end: int,
}

/// The token that starts at `pos`, which holds neither a blank nor the start
/// of a comment. The longest match wins: a word is read to its end before it
/// is told apart as keyword or identifier, and punctuation of two characters
/// goes before punctuation of one. Where nothing matches, the single
/// character at `pos` is an error token.
pub open spec fn token_at(src: Seq<char>, pos: int) -> Scanned
    recommends
        0 <= pos < src.len(),
{
    let c = src[pos];
    if is_letter(c) {
        let end = run_end(src, pos, CharClass::Word);
        Scanned { token: word_token(src.subrange(pos, end)), end }
    } else if in_class(CharClass::Numeral, c) {
        let end = run_end(src, pos, CharClass::Numeral);
        Scanned { token: numeral_token(src.subrange(pos, end)), end }
    } else if c == '"' || c == '\'' {
        match string_end(src, pos + 1, c) {
            Some(end) => Scanned { token: Token::String, end },
            None => Scanned { token: Token::Error, end: pos + 1 },
        }
    } else if c == '`' {
        match byte_end(src, pos) {
            Some(end) => Scanned { token: Token::Byte, end },
            None => Scanned { token: Token::Error, end: pos + 1 },
        }
    } else if pos + 1 < src.len() && punct_two(c, src[pos + 1]) is Some {
        Scanned { token: punct_two(c, src[pos + 1])->0, end: pos + 2 }
    } else if punct_one(c) is Some {
        Scanned { token: punct_one(c)->0, end: pos + 1 }
    } else {
        Scanned { token: Token::Error, end: pos + 1 }
    }
}

/// A string literal ends behind its body and within the text.
pub proof fn lemma_string_end_bounds(src: Seq<char>, pos: int, quote: char)
    requires
        0 <= pos,
    ensures
        string_end(src, pos, quote) matches Some(end) ==> pos < end <= src.len(),
    decreases src.len() - pos,
{
    if pos < src.len() && src[pos] != quote {
        if src[pos] == '\\' {
            if pos + 1 < src.len() {
                lemma_string_end_bounds(src, pos + 2, quote);
            }
        } else {
            lemma_string_end_bounds(src, pos + 1, quote);
        }
    }
}

/// Every token holds at least one character and ends within the text.
pub proof fn lemma_token_at_bounds(src: Seq<char>, pos: int)
    requires
        0 <= pos < src.len(),
    ensures
        pos < token_at(src, pos).end <= src.len(),
{
    lemma_run_end_bounds(src, pos + 1, CharClass::Word);
    lemma_run_end_bounds(src, pos + 1, CharClass::Numeral);
    lemma_string_end_bounds(src, pos + 1, src[pos]);
}

/// The tokens of `src` from `pos` on, each with its text. Blanks and
/// comments between them are dropped.
pub open spec fn lex_from(src: Seq<char>, pos: int) -> Seq<LexemeModel>
    decreases src.len() - pos,
    via lex_from_decreases
{
    let start = skip_trivia(src, pos);
    if 0 <= start < src.len() {
        let t = token_at(src, start);
        seq![LexemeModel { token: t.token, text: src.subrange(start, t.end) }] + lex_from(
            src,
            t.end,
        )
    } else {
        Seq::empty()
    }
}

#[via_fn]
proof fn lex_from_decreases(src: Seq<char>, pos: int) {
    let start = skip_trivia(src, pos);
    if 0 <= start < src.len() {
        lemma_skip_trivia_bounds(src, pos);
        lemma_token_at_bounds(src, start);
    }
}

/// Skipping blanks and comments moves forward, stays within the text, and
/// stops at a character that starts a token.
pub proof fn lemma_skip_trivia_bounds(src: Seq<char>, pos: int)
    requires
        0 <= pos <= src.len(),
    ensures
        pos <= skip_trivia(src, pos) <= src.len(),
    decreases src.len() - pos,
{
    if pos < src.len() && is_space(src[pos]) {
        lemma_skip_trivia_bounds(src, pos + 1);
    } else if pos + 1 < src.len() && src[pos] == '/' && src[pos + 1] == '/' {
        lemma_run_end_bounds(src, pos + 2, CharClass::Line);
        lemma_skip_trivia_bounds(src, run_end(src, pos + 2, CharClass::Line));
    }
}

/// The tokens of a source text.
pub open spec fn lex(src: Seq<char>) -> Seq<LexemeModel> {
    lex_from(src, 0)
}

/// What the text of a token looks like: an identifier starts with a letter
/// and holds letters, digits and underscores only; a string literal holds
/// at least its two quotes; a byte literal holds three or four characters.
pub open spec fn well_shaped(l: LexemeModel) -> bool {
    &&& l.text.len() > 0
    &&& l.token == Token::Ident ==> is_letter(l.text[0]) && forall|i: int|
        0 <= i < l.text.len() ==> in_class(CharClass::Word, #[trigger] l.text[i])
    &&& l.token == Token::String ==> l.text.len() >= 2
    &&& l.token == Token::Byte ==> 3 <= l.text.len() <= 4
    &&& l.token != Token::EOF && l.token != Token::Comment
}

/// Every token of a source text is well shaped.
pub proof fn lemma_lexemes_well_shaped(src: Seq<char>, pos: int)
    requires
        0 <= pos <= src.len(),
    ensures
        forall|i: int|
            0 <= i < lex_from(src, pos).len() ==> well_shaped(#[trigger] lex_from(src, pos)[i]),
    decreases src.len() - pos,
{
    let start = skip_trivia(src, pos);
    lemma_skip_trivia_bounds(src, pos);
    if start < src.len() {
        let t = token_at(src, start);
        lemma_token_at_bounds(src, start);
        lemma_lexemes_well_shaped(src, t.end);
        lemma_run_end_bounds(src, start, CharClass::Word);
        lemma_string_end_bounds(src, start + 1, src[start]);
        let first = LexemeModel { token: t.token, text: src.subrange(start, t.end) };
        assert(well_shaped(first)) by {
            reveal_strlit("break");
            reveal_strlit("continue");
            reveal_strlit("else");
            reveal_strlit("false");
            reveal_strlit("for");
            reveal_strlit("fn");
            reveal_strlit("if");
            reveal_strlit("in");
            reveal_strlit("none");
            reveal_strlit("return");
            reveal_strlit("true");
            reveal_strlit("while");
        }
        let all = lex_from(src, pos);
        assert forall|i: int| 0 <= i < all.len() implies well_shaped(#[trigger] all[i]) by {
            if i > 0 {
                assert(all[i] == lex_from(src, t.end)[i - 1]);
            }
        }
    }
}

/// The places of the tokens of `src` from `pos` on, in bytes.
pub open spec fn spans_from(src: Seq<char>, pos: int) -> Seq<Span>
    decreases src.len() - pos,
    via spans_from_decreases
{
    let start = skip_trivia(src, pos);
    if 0 <= start < src.len() {
        let t = token_at(src, start);
        seq![Span { start: byte_offset(src, start), end: byte_offset(src, t.end) }] + spans_from(
            src,
            t.end,
        )
    } else {
        Seq::empty()
    }
}

#[via_fn]
proof fn spans_from_decreases(src: Seq<char>, pos: int) {
    let start = skip_trivia(src, pos);
    if 0 <= start < src.len() {
        lemma_skip_trivia_bounds(src, pos);
        lemma_token_at_bounds(src, start);
    }
}

/// The places of the tokens of a source text, in bytes: one for each token
/// of `lex`, in the same order.
pub open spec fn spans(src: Seq<char>) -> Seq<Span> {
    spans_from(src, 0)
}

/// The encoding of two texts, one behind the other, is the encoding of the
/// first followed by that of the second.
pub proof fn lemma_encode_concat(a: Seq<char>, b: Seq<char>)
    ensures
        encode_utf8(a + b) == encode_utf8(a) + encode_utf8(b),
    decreases a.len(),
{
    if a.len() == 0 {
        assert(a + b =~= b);
        assert(encode_utf8(a) + encode_utf8(b) =~= encode_utf8(b));
    } else {
        assert((a + b).drop_first() =~= a.drop_first() + b);
        lemma_encode_concat(a.drop_first(), b);
        assert(encode_utf8(a + b) =~= encode_utf8(a) + encode_utf8(b));
    }
}

/// Byte offsets grow with character positions, and the bytes between two
/// of them are the encoding of the characters between the positions.
pub proof fn lemma_byte_offsets(src: Seq<char>, a: int, b: int)
    requires
        0 <= a <= b <= src.len(),
    ensures
        0 <= byte_offset(src, a) <= byte_offset(src, b) <= encode_utf8(src).len(),
        byte_offset(src, b) - byte_offset(src, a) == encode_utf8(src.subrange(a, b)).len(),
        encode_utf8(src).subrange(byte_offset(src, a), byte_offset(src, b)) == encode_utf8(
            src.subrange(a, b),
        ),
        byte_offset(src, src.len() as int) == encode_utf8(src).len(),
{
    let front = src.take(a);
    let middle = src.subrange(a, b);
    let back = src.skip(b);
    assert(src.take(b) =~= front + middle);
    assert(src =~= src.take(b) + back);
    assert(src.take(src.len() as int) =~= src);
    lemma_encode_concat(front, middle);
    lemma_encode_concat(src.take(b), back);
    assert(encode_utf8(src).subrange(byte_offset(src, a), byte_offset(src, b)) =~= encode_utf8(
        middle,
    ));
}

/// Each token has its place: there are as many places as tokens, the
/// places follow one another in the source text, and the bytes of the
/// source text at the place of a token are the encoding of its text.
pub proof fn lemma_spans_hold_texts(src: Seq<char>, pos: int)
    requires
        0 <= pos <= src.len(),
    ensures
        spans_from(src, pos).len() == lex_from(src, pos).len(),
        forall|i: int|
            0 <= i < spans_from(src, pos).len() ==> {
                let span = #[trigger] spans_from(src, pos)[i];
                &&& byte_offset(src, pos) <= span.start < span.end <= encode_utf8(src).len()
                &&& encode_utf8(src).subrange(span.start, span.end) == encode_utf8(
                    lex_from(src, pos)[i].text,
                )
            },
        forall|i: int, j: int|
            0 <= i < j < spans_from(src, pos).len() ==> (#[trigger] spans_from(src, pos)[i]).end
                <= (#[trigger] spans_from(src, pos)[j]).start,
    decreases src.len() - pos,
{
    let start = skip_trivia(src, pos);
    lemma_skip_trivia_bounds(src, pos);
    if start < src.len() {
        let t = token_at(src, start);
        lemma_token_at_bounds(src, start);
        lemma_spans_hold_texts(src, t.end);
        lemma_byte_offsets(src, pos, start);
        lemma_byte_offsets(src, start, t.end);
        lemma_width_positive(src[start]);
        lemma_byte_offset_step(src, start);
        lemma_byte_offsets(src, start + 1, t.end);
        let all = spans_from(src, pos);
        let later = spans_from(src, t.end);
        assert forall|i: int| 0 <= i < all.len() implies {
            let span = #[trigger] all[i];
            &&& byte_offset(src, pos) <= span.start < span.end <= encode_utf8(src).len()
            &&& encode_utf8(src).subrange(span.start, span.end) == encode_utf8(
                lex_from(src, pos)[i].text,
            )
        } by {
            if i > 0 {
                assert(all[i] == later[i - 1]);
                assert(lex_from(src, pos)[i] == lex_from(src, t.end)[i - 1]);
            }
        }
        assert forall|i: int, j: int| 0 <= i < j < all.len() implies (#[trigger] all[i]).end <= (
        #[trigger] all[j]).start by {
            assert(all[j] == later[j - 1]);
            if i > 0 {
                assert(all[i] == later[i - 1]);
            }
        }
    }
}

/// The width of a character in UTF-8: the number of bytes of its encoding.
pub open spec fn utf8_width(c: char) -> int {
    encode_scalar(c as u32).len() as int
}

/// Every character takes from one to four bytes.
pub proof fn lemma_width_positive(c: char)
    ensures
        1 <= utf8_width(c) <= 4,
{
    char_is_scalar(c);
}

/// The byte offset behind a character is that in front of it plus its
/// width.
pub proof fn lemma_byte_offset_step(src: Seq<char>, n: int)
    requires
        0 <= n < src.len(),
    ensures
        byte_offset(src, n + 1) == byte_offset(src, n) + utf8_width(src[n]),
{
    lemma_byte_offsets(src, n, n + 1);
    let one = src.subrange(n, n + 1);
    assert(one[0] == src[n]);
    assert(one.drop_first() =~= Seq::<char>::empty());
    assert(encode_utf8(one.drop_first()) =~= Seq::<u8>::empty());
    assert(encode_utf8(one) =~= encode_scalar(one[0] as u32) + encode_utf8(one.drop_first()));
}


/// Tells whether `c` belongs to `class`.
fn class_holds(class: CharClass, c: char) -> (b: bool)
    ensures
        b == in_class(class, c),
{
    match class {
        CharClass::Word => ('a' <= c && c <= 'z') || ('A' <= c && c <= 'Z') || ('0' <= c && c
            <= '9') || c == '_',
        CharClass::Numeral => ('0' <= c && c <= '9') || c == '_',
        CharClass::Line => c != '\n',
    }
}

/// Finds the end of the run of `class` characters that starts at `pos`.
fn scan_run(src: &Vec<char>, pos: usize, class: CharClass) -> (end: usize)
    requires
        pos <= src@.len(),
    ensures
        end == run_end(src@, pos as int, class),
        pos <= end <= src@.len(),
{
    let mut i: usize = pos;
    while i < src.len() && class_holds(class, src[i])
        invariant
            pos <= i <= src@.len(),
            run_end(src@, i as int, class) == run_end(src@, pos as int, class),
        decreases src@.len() - i,
    {
        i = i + 1;
    }
    i
}

/// Passes over blanks and comments from `pos` on.
fn scan_trivia(src: &Vec<char>, pos: usize) -> (start: usize)
    requires
        pos <= src@.len(),
    ensures
        start == skip_trivia(src@, pos as int),
        pos <= start <= src@.len(),
{
    let mut i: usize = pos;
    loop
        invariant
            pos <= i <= src@.len(),
            skip_trivia(src@, i as int) == skip_trivia(src@, pos as int),
        decreases src@.len() - i,
    {
        if i < src.len() && (src[i] == ' ' || src[i] == '\t' || src[i] == '\n' || src[i]
            == '\x0c') {
            i = i + 1;
        } else if i < src.len() && src.len() - i >= 2 && src[i] == '/' && src[i + 1] == '/' {
            i = scan_run(src, i + 2, CharClass::Line);
        } else {
            return i;
        }
    }
}

/// Finds the end of the string literal whose body starts at `pos`.
fn scan_string(src: &Vec<char>, pos: usize, quote: char) -> (r: Option<usize>)
    requires
        pos <= src@.len(),
    ensures
        r matches Some(end) ==> string_end(src@, pos as int, quote) == Some(end as int) && pos
            < end <= src@.len(),
        r is None ==> string_end(src@, pos as int, quote) is None,
{
    let mut i: usize = pos;
    loop
        invariant
            pos <= i <= src@.len(),
            string_end(src@, i as int, quote) == string_end(src@, pos as int, quote),
        decreases src@.len() - i,
    {
        if i >= src.len() {
            return None;
        }
        if src[i] == quote {
            return Some(i + 1);
        }
        if src[i] == '\\' {
            if src.len() - i > 1 {
                i = i + 2;
            } else {
                return None;
            }
        } else {
            i = i + 1;
        }
    }
}

/// Tells whether `src[start..end]` spells `word`.
fn spells(src: &Vec<char>, start: usize, end: usize, word: &str) -> (b: bool)
    requires
        start <= end <= src@.len(),
    ensures
        b == (src@.subrange(start as int, end as int) == word@),
{
    let n = word.unicode_len();
    if end - start != n {
        return false;
    }
    let mut j: usize = 0;
    while j < n
        invariant
            j <= n,
            n == word@.len(),
            n == end - start,
            start <= end <= src@.len(),
            forall|k: int| 0 <= k < j ==> src@[start + k] == word@[k],
        decreases n - j,
    {
        if src[start + j] != word.get_char(j) {
            assert(src@.subrange(start as int, end as int)[j as int] != word@[j as int]);
            return false;
        }
        j = j + 1;
    }
    assert(src@.subrange(start as int, end as int) =~= word@);
    true
}

/// Tells a keyword from an identifier.
fn word_kind(src: &Vec<char>, start: usize, end: usize) -> (t: Token)
    requires
        start <= end <= src@.len(),
    ensures
        t == word_token(src@.subrange(start as int, end as int)),
{
    if spells(src, start, end, "break") {
        Token::KeywordBreak
    } else if spells(src, start, end, "continue") {
        Token::KeywordContinue
    } else if spells(src, start, end, "else") {
        Token::KeywordElse
    } else if spells(src, start, end, "false") {
        Token::KeywordFalse
    } else if spells(src, start, end, "for") {
        Token::KeywordFor
    } else if spells(src, start, end, "fn") {
        Token::KeywordFn
    } else if spells(src, start, end, "if") {
        Token::KeywordIf
    } else if spells(src, start, end, "in") {
        Token::KeywordIn
    } else if spells(src, start, end, "none") {
        Token::KeywordNone
    } else if spells(src, start, end, "return") {
        Token::KeywordReturn
    } else if spells(src, start, end, "true") {
        Token::KeywordTrue
    } else if spells(src, start, end, "while") {
        Token::KeywordWhile
    } else {
        Token::Ident
    }
}

/// Reading one more character of a numeral.
proof fn lemma_digits_step(text: Seq<char>, i: int)
    requires
        0 <= i < text.len(),
    ensures
        digits_value(text.take(i + 1)) == if is_digit(text[i]) {
            digits_value(text.take(i)) * 10 + digit_value(text[i])
        } else {
            digits_value(text.take(i))
        },
        has_digit(text.take(i + 1)) == (has_digit(text.take(i)) || is_digit(text[i])),
{
    let longer = text.take(i + 1);
    let shorter = text.take(i);
    assert(longer.drop_last() =~= shorter);
    assert(longer.last() == text[i]);
    if has_digit(shorter) {
        let k = choose|k: int| 0 <= k < shorter.len() && is_digit(#[trigger] shorter[k]);
        assert(is_digit(longer[k]));
    }
    if is_digit(text[i]) {
        assert(is_digit(longer[i]));
    }
    if has_digit(longer) {
        let k = choose|k: int| 0 <= k < longer.len() && is_digit(#[trigger] longer[k]);
        if k < i {
            assert(is_digit(shorter[k]));
        }
    }
}

/// Reads the run of digits and underscores `src[start..end]`.
fn numeral_kind(src: &Vec<char>, start: usize, end: usize) -> (t: Token)
    requires
        start < end <= src@.len(),
    ensures
        t == numeral_token(src@.subrange(start as int, end as int)),
{
    let ghost text = src@.subrange(start as int, end as int);
    if end - start == 1 && src[start] == '_' {
        assert(text =~= seq!['_']);
        return Token::Underscore;
    }
    assert(text != seq!['_']) by {
        if text == seq!['_'] {
            assert(text.len() == 1);
            assert(text[0] == '_');
        }
    }
    let mut value: usize = 0;
    let mut seen: bool = false;
    let mut fits: bool = true;
    let mut i: usize = start;
    assert(text.take(0).len() == 0);
    while i < end
        invariant
            start <= i <= end <= src@.len(),
            text == src@.subrange(start as int, end as int),
            seen == has_digit(text.take(i - start)),
            fits ==> value == digits_value(text.take(i - start)),
            !fits ==> digits_value(text.take(i - start)) > usize::MAX,
        decreases end - i,
    {
        let c = src[i];
        proof {
            lemma_digits_step(text, i - start);
        }
        if '0' <= c && c <= '9' {
            let d: usize = (c as u32 - '0' as u32) as usize;
            seen = true;
            if fits {
                if value > (usize::MAX - d) / 10 {
                    fits = false;
                } else {
                    value = value * 10 + d;
                }
            }
        }
        i = i + 1;
    }
    assert(text.take(end - start) =~= text);
    if seen && fits {
        Token::Number(value)
    } else {
        Token::Error
    }
}

/// Looks up punctuation of one character.
fn punct_one_token(a: char) -> (r: Option<Token>)
    ensures
        r == punct_one(a),
{
    if a == '+' {
        Some(Token::Plus)
    } else if a == '-' {
        Some(Token::Minus)
    } else if a == '*' {
        Some(Token::Asterisk)
    } else if a == '/' {
        Some(Token::Slash)
    } else if a == '%' {
        Some(Token::Percent)
    } else if a == '^' {
        Some(Token::Caret)
    } else if a == '|' {
        Some(Token::Pipe)
    } else if a == '!' {
        Some(Token::Bang)
    } else if a == '~' {
        Some(Token::Tilde)
    } else if a == '?' {
        Some(Token::Question)
    } else if a == ',' {
        Some(Token::Comma)
    } else if a == ';' {
        Some(Token::Semicolon)
    } else if a == ':' {
        Some(Token::Colon)
    } else if a == '&' {
        Some(Token::Ampersand)
    } else if a == '=' {
        Some(Token::Assign)
    } else if a == '{' {
        Some(Token::LeftCurlyBracket)
    } else if a == '}' {
        Some(Token::RightCurlyBracket)
    } else if a == '(' {
        Some(Token::LeftParen)
    } else if a == ')' {
        Some(Token::RightParen)
    } else if a == '[' {
        Some(Token::LeftSquarBracket)
    } else if a == ']' {
        Some(Token::RightSquareBracket)
    } else if a == '<' {
        Some(Token::LeftAngleBracket)
    } else if a == '>' {
        Some(Token::RightAngleBracket)
    } else if a == '.' {
        Some(Token::Dot)
    } else {
        None
    }
}

/// Looks up punctuation of two characters.
fn punct_two_token(a: char, b: char) -> (r: Option<Token>)
    ensures
        r == punct_two(a, b),
{
    if a == '+' && b == '+' {
        Some(Token::Inc)
    } else if a == '-' && b == '-' {
        Some(Token::Dec)
    } else if a == '-' && b == '>' {
        Some(Token::RightArrow)
    } else if a == '&' && b == '&' {
        Some(Token::And)
    } else if a == '|' && b == '|' {
        Some(Token::Or)
    } else if a == ':' && b == ':' {
        Some(Token::DoubleColon)
    } else if a == ':' && b == '=' {
        Some(Token::Declare)
    } else if a == '=' && b == '=' {
        Some(Token::Equal)
    } else if a == '!' && b == '=' {
        Some(Token::NotEqual)
    } else if a == '>' && b == '=' {
        Some(Token::GreaterOrEqual)
    } else if a == '<' && b == '=' {
        Some(Token::LessOrEqual)
    } else {
        None
    }
}

/// Reads the token that starts at `pos` and tells where it ends.
fn scan_token(src: &Vec<char>, pos: usize) -> (r: (Token, usize))
    requires
        pos < src@.len(),
    ensures
        r.0 == token_at(src@, pos as int).token,
        r.1 == token_at(src@, pos as int).end,
        pos < r.1 <= src@.len(),
{
    proof {
        lemma_token_at_bounds(src@, pos as int);
    }
    let c = src[pos];
    let left = src.len() - pos;
    if ('a' <= c && c <= 'z') || ('A' <= c && c <= 'Z') {
        let end = scan_run(src, pos, CharClass::Word);
        (word_kind(src, pos, end), end)
    } else if ('0' <= c && c <= '9') || c == '_' {
        let end = scan_run(src, pos, CharClass::Numeral);
        (numeral_kind(src, pos, end), end)
    } else if c == '"' || c == '\'' {
        match scan_string(src, pos + 1, c) {
            Some(end) => (Token::String, end),
            None => (Token::Error, pos + 1),
        }
    } else if c == '`' {
        if left > 2 && '!' <= src[pos + 1] && src[pos + 1] <= '~' && src[pos + 1]
            != '\\' && src[pos + 2] == '`' {
            (Token::Byte, pos + 3)
        } else if left > 3 && src[pos + 1] == '\\' && src[pos + 3] == '`' {
            (Token::Byte, pos + 4)
        } else {
            (Token::Error, pos + 1)
        }
    } else {
        let two = if left > 1 {
            punct_two_token(c, src[pos + 1])
        } else {
            None
        };
        match two {
            Some(t) => (t, pos + 2),
            None => match punct_one_token(c) {
                Some(t) => (t, pos + 1),
                None => (Token::Error, pos + 1),
            },
        }
    }
}

/// A byte offset of a character position is a character boundary of the
/// encoded text.
pub proof fn lemma_offset_is_boundary(src: Seq<char>, n: int)
    requires
        0 <= n <= src.len(),
    ensures
        is_char_boundary(encode_utf8(src), byte_offset(src, n)),
    decreases n,
{
    let bytes = encode_utf8(src);
    encode_utf8_valid_utf8(src);
    if n == 0 {
        assert(src.take(0) =~= Seq::<char>::empty());
    } else {
        let tail = src.drop_first();
        encode_utf8_first_scalar(src);
        assert(pop_first_scalar(bytes) =~= encode_utf8(tail));
        lemma_offset_is_boundary(tail, n - 1);
        assert(src.take(n) =~= seq![src[0]] + tail.take(n - 1));
        lemma_encode_concat(seq![src[0]], tail.take(n - 1));
        lemma_byte_offset_step(src, 0);
        assert(src.take(1) =~= seq![src[0]]);
        lemma_byte_offsets(src, n, src.len() as int);
        lemma_width_positive(src[0]);
    }
}

/// The piece of `input` between the byte offsets `first` and `last`,
/// which are those of the character positions `start` and `end`.
fn text_between(
    input: &str,
    first: usize,
    last: usize,
    Ghost(start): Ghost<int>,
    Ghost(end): Ghost<int>,
) -> (r: String)
    requires
        0 <= start <= end <= input@.len(),
        first == byte_offset(input@, start),
        last == byte_offset(input@, end),
    ensures
        r@ == input@.subrange(start, end),
{
    let ghost src = input@;
    let ghost front = src.take(end);
    proof {
        lemma_offset_is_boundary(src, end);
        lemma_byte_offsets(src, 0, end);
        assert(src.take(0) =~= Seq::<char>::empty());
        assert(src.subrange(0, end) =~= front);
    }
    let (head, _) = input.split_at(last);
    proof {
        assert(head.spec_bytes() == encode_utf8(front));
        encode_utf8_decode_utf8(head@);
        encode_utf8_decode_utf8(front);
        assert(head@ == front);
        assert(front.take(start) =~= src.take(start));
        lemma_offset_is_boundary(front, start);
        lemma_byte_offsets(front, start, end);
        assert(front.take(end) =~= front);
        assert(front.subrange(start, end) =~= src.subrange(start, end));
    }
    let (_, text) = head.split_at(first);
    proof {
        assert(text.spec_bytes() == encode_utf8(src.subrange(start, end)));
        encode_utf8_decode_utf8(text@);
        encode_utf8_decode_utf8(src.subrange(start, end));
    }
    String::from_str(text)
}

/// The characters of `input`, in order.
fn chars_of(input: &str) -> (r: Vec<char>)
    ensures
        r@ == input@,
{
    let mut out: Vec<char> = Vec::new();
    for c in it: input.chars()
        invariant
            out@ == it.seq().take(it.index() as int),
            it.seq() == input@,
    {
        out.push(c);
    }
    out
}

/// The number of bytes that `c` takes in UTF-8.
fn width_of(c: char) -> (n: usize)
    ensures
        n == utf8_width(c),
{
    proof {
        char_is_scalar(c);
    }
    let v = c as u32;
    if v <= 0x7F {
        1
    } else if v <= 0x7FF {
        2
    } else if v <= 0xFFFF {
        3
    } else {
        4
    }
}

/// The byte offset of the character position `to`, given the byte offset
/// `at` of the position `from` before it.
fn advance_bytes(src: &Vec<char>, from: usize, to: usize, at: usize) -> (r: usize)
    requires
        from <= to <= src@.len(),
        at == byte_offset(src@, from as int),
        encode_utf8(src@).len() <= usize::MAX,
    ensures
        r == byte_offset(src@, to as int),
{
    let mut i: usize = from;
    let mut bytes: usize = at;
    while i < to
        invariant
            from <= i <= to <= src@.len(),
            bytes == byte_offset(src@, i as int),
            encode_utf8(src@).len() <= usize::MAX,
        decreases to - i,
    {
        proof {
            lemma_byte_offset_step(src@, i as int);
            lemma_byte_offsets(src@, i + 1, src@.len() as int);
        }
        bytes = bytes + width_of(src[i]);
        i = i + 1;
    }
    bytes
}

/// Cuts `input` into its tokens, each with its text and its place. Blanks
/// and comments are dropped; a place where no token pattern matches yields
/// an error token, and scanning goes on behind it.
pub fn tokenize(input: &str) -> (r: Vec<Lexeme>)
    ensures
        lexeme_models(r@) == lex(input@),
        lexeme_spans(r@) == spans(input@),
{
    let src = chars_of(input);
    let total = input.as_bytes().len();
    assert(encode_utf8(src@).len() == total);
    let mut out: Vec<Lexeme> = Vec::new();
    let mut pos: usize = 0;
    let mut bytes: usize = 0;
    assert(src@.take(0) =~= Seq::<char>::empty());
    loop
        invariant
            pos <= src@.len(),
            src@ == input@,
            encode_utf8(src@).len() <= usize::MAX,
            bytes == byte_offset(src@, pos as int),
            lexeme_models(out@) + lex_from(src@, pos as int) == lex(src@),
            lexeme_spans(out@) + spans_from(src@, pos as int) == spans(src@),
        decreases src@.len() - pos,
    {
        let start = scan_trivia(&src, pos);
        if start >= src.len() {
            assert(lexeme_models(out@) + Seq::<LexemeModel>::empty() =~= lexeme_models(out@));
            assert(lexeme_spans(out@) + Seq::<Span>::empty() =~= lexeme_spans(out@));
            return out;
        }
        let (token, end) = scan_token(&src, start);
        let first = advance_bytes(&src, pos, start, bytes);
        let last = advance_bytes(&src, start, end, first);
        let text = text_between(input, first, last, Ghost(start as int), Ghost(end as int));
        let ghost before = lexeme_models(out@);
        let ghost places = lexeme_spans(out@);
        let lexeme = Lexeme { token, text, start: first, end: last };
        let ghost span = Span { start: first as int, end: last as int };
        out.push(lexeme);
        assert(lexeme_models(out@) =~= before.push(lexeme@));
        assert(lexeme_spans(out@) =~= places.push(span));
        assert(before.push(lexeme@) + lex_from(src@, end as int) =~= before + lex_from(
            src@,
            pos as int,
        ));
        assert(places.push(span) + spans_from(src@, end as int) =~= places + spans_from(
            src@,
            pos as int,
        ));
        pos = end;
        bytes = last;
    }
}

} // verus!
