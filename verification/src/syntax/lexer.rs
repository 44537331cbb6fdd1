use crate::diagnostics::errors::{LexicalError, LexicalErrorKind};
use crate::syntax::ast::{Span, Spanned, SpannedView};
use crate::utils::{byte_offset, push_char, SourceChars};
use vstd::prelude::*;

verus! {

/// A lexical unit of the language. Identifiers, integer literals and string
/// literals carry what was written; a string literal holds its contents with
/// the escape sequences already replaced.
#[derive(Debug, PartialEq)]
pub enum Token {
    Id(String),
    Int(i64),
    String(String),
    True,
    False,
    Unit,
    Semicolon,
    Plus,
    Minus,
    Multiply,
    Divide,
    Modulo,
    Power,
    Equal,
    NotEqual,
    Less,
    LessOrEqual,
    Greater,
    GreaterOrEqual,
    Not,
    Or,
    And,
    LeftParen,
    RightParen,
    LeftBracket,
    RightBracket,
    Comma,
    SetKw,
    Let,
    Colon,
    Assign,
    Arrow,
    If,
    Then,
    Else,
    While,
    Do,
    New,
    Pipe,
    IntType,
    BoolType,
    StringType,
    UnitType,
}

/// The mathematical value of a [`Token`].
pub enum TokenView {
    Id(Seq<char>),
    Int(i64),
    String(Seq<char>),
    True,
    False,
    Unit,
    Semicolon,
    Plus,
    Minus,
    Multiply,
    Divide,
    Modulo,
    Power,
    Equal,
    NotEqual,
    Less,
    LessOrEqual,
    Greater,
    GreaterOrEqual,
    Not,
    Or,
    And,
    LeftParen,
    RightParen,
    LeftBracket,
    RightBracket,
    Comma,
    SetKw,
    Let,
    Colon,
    Assign,
    Arrow,
    If,
    Then,
    Else,
    While,
    Do,
    New,
    Pipe,
    IntType,
    BoolType,
    StringType,
    UnitType,
}

impl View for Token {
    type V = TokenView;

    open spec fn view(&self) -> TokenView {
        match *self {
            Token::Id(s) => TokenView::Id(s@),
            Token::Int(n) => TokenView::Int(n),
            Token::String(s) => TokenView::String(s@),
            Token::True => TokenView::True,
            Token::False => TokenView::False,
            Token::Unit => TokenView::Unit,
            Token::Semicolon => TokenView::Semicolon,
            Token::Plus => TokenView::Plus,
            Token::Minus => TokenView::Minus,
            Token::Multiply => TokenView::Multiply,
            Token::Divide => TokenView::Divide,
            Token::Modulo => TokenView::Modulo,
            Token::Power => TokenView::Power,
            Token::Equal => TokenView::Equal,
            Token::NotEqual => TokenView::NotEqual,
            Token::Less => TokenView::Less,
            Token::LessOrEqual => TokenView::LessOrEqual,
            Token::Greater => TokenView::Greater,
            Token::GreaterOrEqual => TokenView::GreaterOrEqual,
            Token::Not => TokenView::Not,
            Token::Or => TokenView::Or,
            Token::And => TokenView::And,
            Token::LeftParen => TokenView::LeftParen,
            Token::RightParen => TokenView::RightParen,
            Token::LeftBracket => TokenView::LeftBracket,
            Token::RightBracket => TokenView::RightBracket,
            Token::Comma => TokenView::Comma,
            Token::SetKw => TokenView::SetKw,
            Token::Let => TokenView::Let,
            Token::Colon => TokenView::Colon,
            Token::Assign => TokenView::Assign,
            Token::Arrow => TokenView::Arrow,
            Token::If => TokenView::If,
            Token::Then => TokenView::Then,
            Token::Else => TokenView::Else,
            Token::While => TokenView::While,
            Token::Do => TokenView::Do,
            Token::New => TokenView::New,
            Token::Pipe => TokenView::Pipe,
            Token::IntType => TokenView::IntType,
            Token::BoolType => TokenView::BoolType,
            Token::StringType => TokenView::StringType,
            Token::UnitType => TokenView::UnitType,
        }
    }
}

impl Clone for Token {
    fn clone(&self) -> (copy: Token)
        ensures
            copy@ == self@,
    {
        match self {
            Token::Id(s) => Token::Id(s.clone()),
            Token::Int(n) => Token::Int(*n),
            Token::String(s) => Token::String(s.clone()),
            Token::True => Token::True,
            Token::False => Token::False,
            Token::Unit => Token::Unit,
            Token::Semicolon => Token::Semicolon,
            Token::Plus => Token::Plus,
            Token::Minus => Token::Minus,
            Token::Multiply => Token::Multiply,
            Token::Divide => Token::Divide,
            Token::Modulo => Token::Modulo,
            Token::Power => Token::Power,
            Token::Equal => Token::Equal,
            Token::NotEqual => Token::NotEqual,
            Token::Less => Token::Less,
            Token::LessOrEqual => Token::LessOrEqual,
            Token::Greater => Token::Greater,
            Token::GreaterOrEqual => Token::GreaterOrEqual,
            Token::Not => Token::Not,
            Token::Or => Token::Or,
            Token::And => Token::And,
            Token::LeftParen => Token::LeftParen,
            Token::RightParen => Token::RightParen,
            Token::LeftBracket => Token::LeftBracket,
            Token::RightBracket => Token::RightBracket,
            Token::Comma => Token::Comma,
            Token::SetKw => Token::SetKw,
            Token::Let => Token::Let,
            Token::Colon => Token::Colon,
            Token::Assign => Token::Assign,
            Token::Arrow => Token::Arrow,
            Token::If => Token::If,
            Token::Then => Token::Then,
            Token::Else => Token::Else,
            Token::While => Token::While,
            Token::Do => Token::Do,
            Token::New => Token::New,
            Token::Pipe => Token::Pipe,
            Token::IntType => Token::IntType,
            Token::BoolType => Token::BoolType,
            Token::StringType => Token::StringType,
            Token::UnitType => Token::UnitType,
        }
    }
}

} // verus!

verus! {

/// Whether a character is white space.
pub open spec fn is_space(c: char) -> bool {
    c == ' ' || c == '\t' || c == '\r' || c == '\n' || c == '\x0C'
}

/// Whether a character is a decimal digit.
pub open spec fn is_digit(c: char) -> bool {
    '0' <= c <= '9'
}

/// Whether an identifier can start with the character.
pub open spec fn is_ident_start(c: char) -> bool {
    ('a' <= c <= 'z') || ('A' <= c <= 'Z') || c == '_'
}

/// Whether an identifier can go on with the character.
pub open spec fn is_ident_char(c: char) -> bool {
    is_ident_start(c) || is_digit(c) || c == '\''
}

/// The classes of characters that the lexer reads in runs.
#[derive(Debug, Clone, Copy, PartialEq, Eq, Structural)]
pub enum CharClass {
    Space,
    Digit,
    IdentChar,
    /// Anything but a line feed: what a comment holds.
    NotNewline,
}

/// Whether a character belongs to a class.
pub open spec fn in_class(class: CharClass, c: char) -> bool {
    match class {
        CharClass::Space => is_space(c),
        CharClass::Digit => is_digit(c),
        CharClass::IdentChar => is_ident_char(c),
        CharClass::NotNewline => c != '\n',
    }
}

/// The end of the longest run of characters of one class that starts at
/// `pos`.
pub open spec fn run_end(chars: Seq<char>, pos: int, class: CharClass) -> int
    decreases chars.len() - pos,
{
    if 0 <= pos < chars.len() && in_class(class, chars[pos]) {
        run_end(chars, pos + 1, class)
    } else {
        pos
    }
}

/// Whether a comment starts at `pos`: two minus signs.
pub open spec fn comment_at(chars: Seq<char>, pos: int) -> bool {
    0 <= pos && pos + 1 < chars.len() && chars[pos] == '-' && chars[pos + 1] == '-'
}

/// A run ends at or behind its start, and inside the text.
pub proof fn lemma_run_end_bounds(chars: Seq<char>, pos: int, class: CharClass)
    requires
        0 <= pos <= chars.len(),
    ensures
        pos <= run_end(chars, pos, class) <= chars.len(),
    decreases chars.len() - pos,
{
    if pos < chars.len() && in_class(class, chars[pos]) {
        lemma_run_end_bounds(chars, pos + 1, class);
    }
}

/// The place of the first character at or behind `pos` that belongs to a
/// token: white space and comments are passed over.
pub open spec fn skip_trivia(chars: Seq<char>, pos: int) -> int
    decreases chars.len() - pos,
{
    if pos < 0 || pos >= chars.len() {
        pos
    } else if is_space(chars[pos]) {
        skip_trivia(chars, pos + 1)
    } else if comment_at(chars, pos) {
        proof {
            lemma_run_end_bounds(chars, pos + 2, CharClass::NotNewline);
        }
        skip_trivia(chars, run_end(chars, pos + 2, CharClass::NotNewline))
    } else {
        pos
    }
}

/// The token that a word stands for: a keyword, the name of a base type,
/// or else an identifier.
pub open spec fn word_token(word: Seq<char>) -> TokenView {
    if word == "true"@ {
        TokenView::True
    } else if word == "false"@ {
        TokenView::False
    } else if word == "unit"@ {
        TokenView::Unit
    } else if word == "set"@ {
        TokenView::SetKw
    } else if word == "let"@ {
        TokenView::Let
    } else if word == "if"@ {
        TokenView::If
    } else if word == "then"@ {
        TokenView::Then
    } else if word == "else"@ {
        TokenView::Else
    } else if word == "while"@ {
        TokenView::While
    } else if word == "do"@ {
        TokenView::Do
    } else if word == "new"@ {
        TokenView::New
    } else if word == "Int"@ {
        TokenView::IntType
    } else if word == "Bool"@ {
        TokenView::BoolType
    } else if word == "String"@ {
        TokenView::StringType
    } else if word == "Unit"@ {
        TokenView::UnitType
    } else {
        TokenView::Id(word)
    }
}

/// The number that a digit stands for.
pub open spec fn digit_value(c: char) -> nat {
    (c as int - '0' as int) as nat
}

/// The number that a run of digits writes in decimal.
pub open spec fn decimal_value(digits: Seq<char>) -> nat
    decreases digits.len(),
{
    if digits.len() == 0 {
        0
    } else {
        decimal_value(digits.drop_last()) * 10 + digit_value(digits.last())
    }
}

/// Where the scan of a string literal's contents stops, from `pos` on: at
/// the closing quote, or where the literal breaks off, which is at a line
/// feed, at the end of the text, or at a backslash with nothing to escape.
pub open spec fn string_stop(chars: Seq<char>, pos: int) -> int
    decreases chars.len() - pos,
{
    if pos < 0 || pos >= chars.len() {
        pos
    } else if chars[pos] == '"' || chars[pos] == '\n' {
        pos
    } else if chars[pos] == '\\' {
        if pos + 1 < chars.len() && chars[pos + 1] != '\n' {
            string_stop(chars, pos + 2)
        } else {
            pos
        }
    } else {
        string_stop(chars, pos + 1)
    }
}

/// The character that an escape sequence stands for, named by the
/// character behind the backslash.
pub open spec fn escape_value(c: char) -> Option<char> {
    if c == 'n' {
        Some('\n')
    } else if c == 'r' {
        Some('\r')
    } else if c == 't' {
        Some('\t')
    } else if c == '0' {
        Some('\0')
    } else if c == '"' {
        Some('"')
    } else if c == '\\' {
        Some('\\')
    } else {
        None
    }
}

/// The contents of a string literal with each escape sequence replaced,
/// or nothing if one of them is unknown.
pub open spec fn unescape(raw: Seq<char>) -> Option<Seq<char>>
    decreases raw.len(),
{
    if raw.len() == 0 {
        Some(Seq::empty())
    } else if raw[0] != '\\' {
        match unescape(raw.subrange(1, raw.len() as int)) {
            Some(rest) => Some(seq![raw[0]] + rest),
            None => None,
        }
    } else if raw.len() < 2 {
        None
    } else {
        match (escape_value(raw[1]), unescape(raw.subrange(2, raw.len() as int))) {
            (Some(c), Some(rest)) => Some(seq![c] + rest),
            _ => None,
        }
    }
}

/// What stands at a place of the text where a token must start.
pub enum Lexeme {
    /// A token that ends in front of the character with index `end`.
    Token { token: TokenView, end: int },
    /// A lexical error in the characters up to `end`.
    Error { kind: LexicalErrorKind, end: int },
}

/// The token of one or two punctuation characters at `pos`, the longer
/// one where both are there.
pub open spec fn punct_at(chars: Seq<char>, pos: int) -> Option<(TokenView, int)> {
    let c = chars[pos];
    let d = if pos + 1 < chars.len() {
        Some(chars[pos + 1])
    } else {
        None
    };
    if c == '=' && d == Some('=') {
        Some((TokenView::Equal, 2))
    } else if c == '!' && d == Some('=') {
        Some((TokenView::NotEqual, 2))
    } else if c == '<' && d == Some('=') {
        Some((TokenView::LessOrEqual, 2))
    } else if c == '>' && d == Some('=') {
        Some((TokenView::GreaterOrEqual, 2))
    } else if c == '|' && d == Some('|') {
        Some((TokenView::Or, 2))
    } else if c == '&' && d == Some('&') {
        Some((TokenView::And, 2))
    } else if c == '-' && d == Some('>') {
        Some((TokenView::Arrow, 2))
    } else if c == ';' {
        Some((TokenView::Semicolon, 1))
    } else if c == '+' {
        Some((TokenView::Plus, 1))
    } else if c == '-' {
        Some((TokenView::Minus, 1))
    } else if c == '*' {
        Some((TokenView::Multiply, 1))
    } else if c == '/' {
        Some((TokenView::Divide, 1))
    } else if c == '%' {
        Some((TokenView::Modulo, 1))
    } else if c == '^' {
        Some((TokenView::Power, 1))
    } else if c == '<' {
        Some((TokenView::Less, 1))
    } else if c == '>' {
        Some((TokenView::Greater, 1))
    } else if c == '!' {
        Some((TokenView::Not, 1))
    } else if c == '(' {
        Some((TokenView::LeftParen, 1))
    } else if c == ')' {
        Some((TokenView::RightParen, 1))
    } else if c == '[' {
        Some((TokenView::LeftBracket, 1))
    } else if c == ']' {
        Some((TokenView::RightBracket, 1))
    } else if c == ',' {
        Some((TokenView::Comma, 1))
    } else if c == ':' {
        Some((TokenView::Colon, 1))
    } else if c == '=' {
        Some((TokenView::Assign, 1))
    } else if c == '|' {
        Some((TokenView::Pipe, 1))
    } else {
        None
    }
}

/// The lexeme that starts at `pos`, a place inside the text where no white
/// space and no comment starts.
///
/// A word is the longest run of identifier characters. A number is the
/// longest run of digits; followed by a dot and a digit it is a floating
/// point number, which the language does not have; too large for 64 bits
/// with a sign, it is an overflow. A string literal runs to its closing
/// quote. Any other character that starts no punctuation is not
/// recognized.
pub open spec fn lexeme_at(chars: Seq<char>, pos: int) -> Lexeme {
    let c = chars[pos];
    if is_ident_start(c) {
        let end = run_end(chars, pos + 1, CharClass::IdentChar);
        Lexeme::Token { token: word_token(chars.subrange(pos, end)), end }
    } else if is_digit(c) {
        let end = run_end(chars, pos + 1, CharClass::Digit);
        if end + 1 < chars.len() && chars[end] == '.' && is_digit(chars[end + 1]) {
            Lexeme::Error {
                kind: LexicalErrorKind::FloatingPointNumber,
                end: run_end(chars, end + 2, CharClass::Digit),
            }
        } else if decimal_value(chars.subrange(pos, end)) > i64::MAX {
            Lexeme::Error {
                kind: LexicalErrorKind::IntegerOverflow,
                end,
            }
        } else {
            Lexeme::Token {
                token: TokenView::Int(decimal_value(chars.subrange(pos, end)) as i64),
                end,
            }
        }
    } else if c == '"' {
        let stop = string_stop(chars, pos + 1);
        if stop < chars.len() && chars[stop] == '"' {
            match unescape(chars.subrange(pos + 1, stop)) {
                Some(text) => Lexeme::Token { token: TokenView::String(text), end: stop + 1 },
                None => Lexeme::Error {
                    kind: LexicalErrorKind::InvalidEscape,
                    end: stop + 1,
                },
            }
        } else {
            Lexeme::Error {
                kind: LexicalErrorKind::UnterminatedString,
                end: stop,
            }
        }
    } else {
        match punct_at(chars, pos) {
            Some((token, width)) => Lexeme::Token { token, end: pos + width },
            None => Lexeme::Error {
                kind: LexicalErrorKind::UnrecognizedToken,
                end: pos + 1,
            },
        }
    }
}

/// The end of a lexeme.
pub open spec fn lexeme_end(l: Lexeme) -> int {
    match l {
        Lexeme::Token { token, end } => end,
        Lexeme::Error { kind, end } => end,
    }
}

} // verus!

verus! {

/// Passing over white space and comments never goes back, nor beyond
/// the end of the text.
pub proof fn lemma_skip_trivia_bounds(chars: Seq<char>, pos: int)
    requires
        0 <= pos <= chars.len(),
    ensures
        pos <= skip_trivia(chars, pos) <= chars.len(),
    decreases chars.len() - pos,
{
    if pos < chars.len() {
        if is_space(chars[pos]) {
            lemma_skip_trivia_bounds(chars, pos + 1);
        } else if comment_at(chars, pos) {
            lemma_run_end_bounds(chars, pos + 2, CharClass::NotNewline);
            lemma_skip_trivia_bounds(chars, run_end(chars, pos + 2, CharClass::NotNewline));
        }
    }
}

/// The scan of a string literal stops at or behind its start, and inside
/// the text.
pub proof fn lemma_string_stop_bounds(chars: Seq<char>, pos: int)
    requires
        0 <= pos <= chars.len(),
    ensures
        pos <= string_stop(chars, pos) <= chars.len(),
    decreases chars.len() - pos,
{
    if pos < chars.len() && chars[pos] != '"' && chars[pos] != '\n' {
        if chars[pos] == '\\' {
            if pos + 1 < chars.len() && chars[pos + 1] != '\n' {
                lemma_string_stop_bounds(chars, pos + 2);
            }
        } else {
            lemma_string_stop_bounds(chars, pos + 1);
        }
    }
}

/// Every lexeme takes at least one character, and none beyond the end of
/// the text.
pub proof fn lemma_lexeme_advances(chars: Seq<char>, pos: int)
    requires
        0 <= pos < chars.len(),
    ensures
        pos < lexeme_end(lexeme_at(chars, pos)) <= chars.len(),
{
    lemma_run_end_bounds(chars, pos + 1, CharClass::IdentChar);
    lemma_run_end_bounds(chars, pos + 1, CharClass::Digit);
    let end = run_end(chars, pos + 1, CharClass::Digit);
    if end + 2 <= chars.len() {
        lemma_run_end_bounds(chars, end + 2, CharClass::Digit);
    }
    lemma_string_stop_bounds(chars, pos + 1);
}

/// A token with the indices of its first character and of the character
/// behind its last.
pub struct Lexed {
    pub token: TokenView,
    pub from: int,
    pub to: int,
}

/// A lexical error with the indices of the characters it covers.
pub struct LexFault {
    pub kind: LexicalErrorKind,
    pub from: int,
    pub to: int,
}

/// The tokens of the text from `pos` on, or the first lexical error.
/// Between two tokens, in front of the first and behind the last there is
/// nothing but white space and comments.
pub open spec fn lex_from(chars: Seq<char>, pos: int) -> Result<Seq<Lexed>, LexFault>
    decreases chars.len() - pos,
{
    if pos < 0 || pos > chars.len() {
        Ok(Seq::empty())
    } else {
        let start = skip_trivia(chars, pos);
        if start >= chars.len() {
            Ok(Seq::empty())
        } else {
            proof {
                lemma_skip_trivia_bounds(chars, pos);
                lemma_lexeme_advances(chars, start);
            }
            match lexeme_at(chars, start) {
                Lexeme::Error { kind, end } => Err(LexFault { kind, from: start, to: end }),
                Lexeme::Token { token, end } => match lex_from(chars, end) {
                    Ok(rest) => Ok(seq![Lexed { token, from: start, to: end }] + rest),
                    Err(fault) => Err(fault),
                },
            }
        }
    }
}

/// The byte span of the characters from index `from` up to index `to`.
pub open spec fn span_of(chars: Seq<char>, from: int, to: int) -> Span {
    Span {
        start: byte_offset(chars, from) as usize,
        end: byte_offset(chars, to) as usize,
    }
}

/// A token with its byte span.
pub open spec fn spanned_token(chars: Seq<char>, l: Lexed) -> SpannedView<
    TokenView,
> {
    SpannedView { value: l.token, span: span_of(chars, l.from, l.to) }
}

/// The tokens of a text with their byte spans, or its first lexical error.
pub open spec fn lex_text(chars: Seq<char>) -> Result<
    Seq<SpannedView<TokenView>>,
    LexicalError,
> {
    match lex_from(chars, 0) {
        Ok(tokens) => Ok(Seq::new(tokens.len(), |i: int| spanned_token(chars, tokens[i]))),
        Err(fault) => Err(
            LexicalError {
                kind: fault.kind,
                span: span_of(chars, fault.from, fault.to),
            },
        ),
    }
}

} // verus!

verus! {

fn class_holds(class: CharClass, c: char) -> (holds: bool)
    ensures
        holds == in_class(class, c),
{
    let start = (c >= 'a' && c <= 'z') || (c >= 'A' && c <= 'Z') || c == '_';
    let digit = c >= '0' && c <= '9';
    match class {
        CharClass::Space => c == ' ' || c == '\t' || c == '\r' || c == '\n' || c == '\x0C',
        CharClass::Digit => digit,
        CharClass::IdentChar => start || digit || c == '\'',
        CharClass::NotNewline => c != '\n',
    }
}

/// Finds the end of the run of characters of one class that starts at `pos`.
fn scan_run(chars: &Vec<char>, pos: usize, class: CharClass) -> (end: usize)
    requires
        pos <= chars@.len(),
    ensures
        pos <= end <= chars@.len(),
        end == run_end(chars@, pos as int, class),
{
    let mut end = pos;
    while end < chars.len() && class_holds(class, chars[end])
        invariant
            pos <= end <= chars@.len(),
            run_end(chars@, pos as int, class) == run_end(chars@, end as int, class),
        decreases chars@.len() - end,
    {
        end += 1;
    }
    end
}

/// Passes over white space and comments.
fn skip(chars: &Vec<char>, pos: usize) -> (start: usize)
    requires
        pos <= chars@.len(),
    ensures
        pos <= start <= chars@.len(),
        start == skip_trivia(chars@, pos as int),
{
    let mut start = pos;
    loop
        invariant
            pos <= start <= chars@.len(),
            skip_trivia(chars@, pos as int) == skip_trivia(chars@, start as int),
        decreases chars@.len() - start,
    {
        if start >= chars.len() {
            return start;
        }
        let c = chars[start];
        if class_holds(CharClass::Space, c) {
            start += 1;
        } else if c == '-' && start + 1 < chars.len() && chars[start + 1] == '-' {
            let end = scan_run(chars, start + 2, CharClass::NotNewline);
            start = end;
        } else {
            return start;
        }
    }
}

/// Finds where the contents of a string literal stop.
fn scan_string(chars: &Vec<char>, pos: usize) -> (stop: usize)
    requires
        pos <= chars@.len(),
    ensures
        pos <= stop <= chars@.len(),
        stop == string_stop(chars@, pos as int),
{
    let mut stop = pos;
    loop
        invariant
            pos <= stop <= chars@.len(),
            string_stop(chars@, pos as int) == string_stop(chars@, stop as int),
        decreases chars@.len() - stop,
    {
        if stop >= chars.len() {
            return stop;
        }
        let c = chars[stop];
        if c == '"' || c == '\n' {
            return stop;
        } else if c == '\\' {
            if stop + 1 < chars.len() && chars[stop + 1] != '\n' {
                stop += 2;
            } else {
                return stop;
            }
        } else {
            stop += 1;
        }
    }
}

fn escape_char(c: char) -> (value: Option<char>)
    ensures
        value == escape_value(c),
{
    if c == 'n' {
        Some('\n')
    } else if c == 'r' {
        Some('\r')
    } else if c == 't' {
        Some('\t')
    } else if c == '0' {
        Some('\0')
    } else if c == '"' {
        Some('"')
    } else if c == '\\' {
        Some('\\')
    } else {
        None
    }
}

/// Replaces the escape sequences in the contents of a string literal,
/// which are the characters from index `from` up to index `to`.
pub fn parse_string(chars: &Vec<char>, from: usize, to: usize) -> (result: Result<
    String,
    LexicalErrorKind,
>)
    requires
        from <= to <= chars@.len(),
    ensures
        match result {
            Ok(text) => unescape(chars@.subrange(from as int, to as int)) == Some(text@),
            Err(kind) => kind == LexicalErrorKind::InvalidEscape && unescape(
                chars@.subrange(from as int, to as int),
            ) is None,
        },
{
    let mut out = String::new();
    let mut i = from;
    let ghost whole = chars@.subrange(from as int, to as int);
    proof {
        assert(Seq::<char>::empty() + unescape(whole).unwrap_or(Seq::empty()) =~= unescape(
            whole,
        ).unwrap_or(Seq::empty()));
    }
    while i < to
        invariant
            from <= i <= to <= chars@.len(),
            whole == chars@.subrange(from as int, to as int),
            match unescape(chars@.subrange(i as int, to as int)) {
                Some(rest) => unescape(whole) == Some(out@ + rest),
                None => unescape(whole) is None,
            },
        decreases to - i,
    {
        let ghost raw = chars@.subrange(i as int, to as int);
        let c = chars[i];
        proof {
            assert(raw[0] == c);
            assert(raw.subrange(1, raw.len() as int) =~= chars@.subrange(i + 1, to as int));
        }
        if c != '\\' {
            let ghost before = out@;
            push_char(&mut out, c);
            proof {
                match unescape(chars@.subrange(i + 1, to as int)) {
                    Some(rest) => {
                        assert(before + (seq![c] + rest) =~= before.push(c) + rest);
                    },
                    None => {},
                }
            }
            i += 1;
        } else {
            if i + 1 >= to {
                return Err(LexicalErrorKind::InvalidEscape);
            }
            proof {
                assert(raw[1] == chars@[i + 1]);
                assert(raw.subrange(2, raw.len() as int) =~= chars@.subrange(i + 2, to as int));
            }
            match escape_char(chars[i + 1]) {
                Some(value) => {
                    let ghost before = out@;
                    push_char(&mut out, value);
                    proof {
                        match unescape(chars@.subrange(i + 2, to as int)) {
                            Some(rest) => {
                                assert(before + (seq![value] + rest) =~= before.push(value) + rest);
                            },
                            None => {},
                        }
                    }
                    i += 2;
                },
                None => {
                    return Err(LexicalErrorKind::InvalidEscape);
                },
            }
        }
    }
    proof {
        assert(chars@.subrange(to as int, to as int) =~= Seq::<char>::empty());
        assert(out@ + Seq::<char>::empty() =~= out@);
    }
    Ok(out)
}

/// Copies the characters from index `from` up to index `to` into a string.
fn text_of(chars: &Vec<char>, from: usize, to: usize) -> (text: String)
    requires
        from <= to <= chars@.len(),
    ensures
        text@ == chars@.subrange(from as int, to as int),
{
    let mut text = String::new();
    let mut i = from;
    while i < to
        invariant
            from <= i <= to <= chars@.len(),
            text@ == chars@.subrange(from as int, i as int),
        decreases to - i,
    {
        push_char(&mut text, chars[i]);
        proof {
            assert(chars@.subrange(from as int, i as int).push(chars@[i as int])
                =~= chars@.subrange(from as int, i + 1));
        }
        i += 1;
    }
    text
}

/// Turns a word into its token.
fn word_to_token(word: String) -> (token: Token)
    ensures
        token@ == word_token(word@),
{
    let w = word.as_str();
    if crate::utils::same_text(w, "true") {
        Token::True
    } else if crate::utils::same_text(w, "false") {
        Token::False
    } else if crate::utils::same_text(w, "unit") {
        Token::Unit
    } else if crate::utils::same_text(w, "set") {
        Token::SetKw
    } else if crate::utils::same_text(w, "let") {
        Token::Let
    } else if crate::utils::same_text(w, "if") {
        Token::If
    } else if crate::utils::same_text(w, "then") {
        Token::Then
    } else if crate::utils::same_text(w, "else") {
        Token::Else
    } else if crate::utils::same_text(w, "while") {
        Token::While
    } else if crate::utils::same_text(w, "do") {
        Token::Do
    } else if crate::utils::same_text(w, "new") {
        Token::New
    } else if crate::utils::same_text(w, "Int") {
        Token::IntType
    } else if crate::utils::same_text(w, "Bool") {
        Token::BoolType
    } else if crate::utils::same_text(w, "String") {
        Token::StringType
    } else if crate::utils::same_text(w, "Unit") {
        Token::UnitType
    } else {
        Token::Id(word)
    }
}

proof fn lemma_decimal_value_grows(digits: Seq<char>, k: int)
    requires
        0 <= k <= digits.len(),
    ensures
        decimal_value(digits.take(k)) <= decimal_value(digits),
    decreases digits.len() - k,
{
    if k < digits.len() {
        lemma_decimal_value_grows(digits, k + 1);
        assert(digits.take(k + 1).drop_last() =~= digits.take(k));
    } else {
        assert(digits.take(k) =~= digits);
    }
}

/// Reads the number that the digits from index `from` up to index `to`
/// write, if it fits.
fn parse_number(chars: &Vec<char>, from: usize, to: usize) -> (value: Option<i64>)
    requires
        from <= to <= chars@.len(),
        forall|i: int| from <= i < to ==> is_digit(#[trigger] chars@[i]),
    ensures
        match value {
            Some(n) => n >= 0 && n == decimal_value(chars@.subrange(from as int, to as int)),
            None => decimal_value(chars@.subrange(from as int, to as int)) > i64::MAX,
        },
{
    let ghost digits = chars@.subrange(from as int, to as int);
    let mut value: i64 = 0;
    let mut i = from;
    proof {
        assert(digits.take(0) =~= Seq::<char>::empty());
    }
    while i < to
        invariant
            from <= i <= to <= chars@.len(),
            digits == chars@.subrange(from as int, to as int),
            forall|i: int| from <= i < to ==> is_digit(#[trigger] chars@[i]),
            value >= 0,
            value == decimal_value(digits.take(i - from)),
        decreases to - i,
    {
        let c = chars[i];
        let d: i64 = (c as u32 - '0' as u32) as i64;
        proof {
            assert(digits.take(i - from + 1).drop_last() =~= digits.take(i - from));
            assert(digits.take(i - from + 1).last() == c);
            assert(d == digit_value(c));
            lemma_decimal_value_grows(digits, i - from + 1);
        }
        if value > (i64::MAX - d) / 10 {
            return None;
        }
        value = value * 10 + d;
        i += 1;
    }
    proof {
        assert(digits.take(to - from) =~= digits);
    }
    Some(value)
}

} // verus!

verus! {

/// Reads the punctuation at `pos` and says how many characters it takes.
fn read_punct(chars: &Vec<char>, pos: usize) -> (result: Option<(Token, usize)>)
    requires
        pos < chars@.len(),
    ensures
        match result {
            Some((token, width)) => punct_at(chars@, pos as int) == Some((token@, width as int))
                && 1 <= width && pos + width <= chars@.len(),
            None => punct_at(chars@, pos as int) is None,
        },
{
    let n = chars.len();
    let c = chars[pos];
    let d: Option<char> = if pos + 1 < n {
        Some(chars[pos + 1])
    } else {
        None
    };
    let second_eq = match d {
        Some(x) => x == '=',
        None => false,
    };
    let second_pipe = match d {
        Some(x) => x == '|',
        None => false,
    };
    let second_amp = match d {
        Some(x) => x == '&',
        None => false,
    };
    let second_gt = match d {
        Some(x) => x == '>',
        None => false,
    };
    if c == '=' && second_eq {
        Some((Token::Equal, 2))
    } else if c == '!' && second_eq {
        Some((Token::NotEqual, 2))
    } else if c == '<' && second_eq {
        Some((Token::LessOrEqual, 2))
    } else if c == '>' && second_eq {
        Some((Token::GreaterOrEqual, 2))
    } else if c == '|' && second_pipe {
        Some((Token::Or, 2))
    } else if c == '&' && second_amp {
        Some((Token::And, 2))
    } else if c == '-' && second_gt {
        Some((Token::Arrow, 2))
    } else if c == ';' {
        Some((Token::Semicolon, 1))
    } else if c == '+' {
        Some((Token::Plus, 1))
    } else if c == '-' {
        Some((Token::Minus, 1))
    } else if c == '*' {
        Some((Token::Multiply, 1))
    } else if c == '/' {
        Some((Token::Divide, 1))
    } else if c == '%' {
        Some((Token::Modulo, 1))
    } else if c == '^' {
        Some((Token::Power, 1))
    } else if c == '<' {
        Some((Token::Less, 1))
    } else if c == '>' {
        Some((Token::Greater, 1))
    } else if c == '!' {
        Some((Token::Not, 1))
    } else if c == '(' {
        Some((Token::LeftParen, 1))
    } else if c == ')' {
        Some((Token::RightParen, 1))
    } else if c == '[' {
        Some((Token::LeftBracket, 1))
    } else if c == ']' {
        Some((Token::RightBracket, 1))
    } else if c == ',' {
        Some((Token::Comma, 1))
    } else if c == ':' {
        Some((Token::Colon, 1))
    } else if c == '=' {
        Some((Token::Assign, 1))
    } else if c == '|' {
        Some((Token::Pipe, 1))
    } else {
        None
    }
}

/// What the lexer read at one place: a token or the kind of an error, and
/// the index of the character behind it.
pub enum Scanned {
    Token { token: Token, end: usize },
    Error { kind: LexicalErrorKind, end: usize },
}

impl View for Scanned {
    type V = Lexeme;

    open spec fn view(&self) -> Lexeme {
        match *self {
            Scanned::Token { token, end } => Lexeme::Token { token: token@, end: end as int },
            Scanned::Error { kind, end } => Lexeme::Error { kind, end: end as int },
        }
    }
}

proof fn lemma_run_is_in_class(chars: Seq<char>, pos: int, class: CharClass, i: int)
    requires
        0 <= pos <= i < run_end(chars, pos, class),
    ensures
        i < chars.len(),
        in_class(class, chars[i]),
    decreases chars.len() - pos,
{
    if 0 <= pos < chars.len() && in_class(class, chars[pos]) {
        if i > pos {
            lemma_run_is_in_class(chars, pos + 1, class, i);
        }
    }
}

/// Reads the lexeme that starts at `pos`.
pub fn scan_lexeme(chars: &Vec<char>, pos: usize) -> (scanned: Scanned)
    requires
        pos < chars@.len(),
    ensures
        scanned@ == lexeme_at(chars@, pos as int),
        pos < lexeme_end(scanned@) <= chars@.len(),
{
    proof {
        lemma_lexeme_advances(chars@, pos as int);
    }
    let n = chars.len();
    let c = chars[pos];
    let ident_start = (c >= 'a' && c <= 'z') || (c >= 'A' && c <= 'Z') || c == '_';
    let digit = c >= '0' && c <= '9';
    if ident_start {
        let end = scan_run(chars, pos + 1, CharClass::IdentChar);
        Scanned::Token { token: word_to_token(text_of(chars, pos, end)), end }
    } else if digit {
        let end = scan_run(chars, pos + 1, CharClass::Digit);
        let fraction = end < n && end + 1 < n && chars[end] == '.' && class_holds(
            CharClass::Digit,
            chars[end + 1],
        );
        if fraction {
            let float_end = scan_run(chars, end + 2, CharClass::Digit);
            Scanned::Error { kind: LexicalErrorKind::FloatingPointNumber, end: float_end }
        } else {
            proof {
                assert forall|i: int| pos <= i < end implies is_digit(#[trigger] chars@[i]) by {
                    if i > pos {
                        lemma_run_is_in_class(chars@, pos + 1, CharClass::Digit, i);
                    }
                }
            }
            match parse_number(chars, pos, end) {
                Some(value) => Scanned::Token { token: Token::Int(value), end },
                None => Scanned::Error { kind: LexicalErrorKind::IntegerOverflow, end },
            }
        }
    } else if c == '"' {
        let stop = scan_string(chars, pos + 1);
        if stop < chars.len() && chars[stop] == '"' {
            match parse_string(chars, pos + 1, stop) {
                Ok(text) => Scanned::Token { token: Token::String(text), end: stop + 1 },
                Err(kind) => Scanned::Error { kind, end: stop + 1 },
            }
        } else {
            Scanned::Error { kind: LexicalErrorKind::UnterminatedString, end: stop }
        }
    } else {
        match read_punct(chars, pos) {
            Some((token, width)) => Scanned::Token { token, end: pos + width },
            None => Scanned::Error { kind: LexicalErrorKind::UnrecognizedToken, end: pos + 1 },
        }
    }
}

/// The views of a list of tokens with their spans.
pub open spec fn token_views(tokens: Seq<Spanned<Token>>) -> Seq<SpannedView<TokenView>> {
    Seq::new(tokens.len(), |i: int| tokens[i]@)
}

/// A lexer for one source text.
pub struct Lexer<'a> {
    pub src: &'a str,
}

impl<'a> Lexer<'a> {
    pub fn new(src: &'a str) -> (lexer: Self)
        ensures
            lexer.src@ == src@,
    {
        Lexer { src }
    }

    /// Splits the source text into tokens, each with its byte span, or
    /// returns the first lexical error.
    pub fn tokenize(&mut self) -> (result: Result<Vec<Spanned<Token>>, LexicalError>)
        ensures
            final(self).src@ == old(self).src@,
            match result {
                Ok(tokens) => lex_text(old(self).src@) == Ok::<
                    Seq<SpannedView<TokenView>>,
                    LexicalError,
                >(token_views(tokens@)),
                Err(e) => lex_text(old(self).src@) == Err::<
                    Seq<SpannedView<TokenView>>,
                    LexicalError,
                >(e),
            },
    {
        let sc = SourceChars::new(self.src);
        let ghost chars = sc.chars@;
        let mut tokens: Vec<Spanned<Token>> = Vec::new();
        let ghost mut lexed: Seq<Lexed> = Seq::empty();
        let mut pos: usize = 0;
        proof {
            match lex_from(chars, 0) {
                Ok(rest) => {
                    assert(lexed + rest =~= rest);
                },
                Err(_) => {},
            }
        }
        loop
            invariant
                sc.wf(),
                chars == sc.chars@,
                chars == self.src@,
                self.src@ == old(self).src@,
                pos <= chars.len(),
                tokens@.len() == lexed.len(),
                forall|i: int|
                    0 <= i < lexed.len() ==> (#[trigger] tokens@[i])@ == spanned_token(
                        chars,
                        lexed[i],
                    ),
                match lex_from(chars, pos as int) {
                    Ok(rest) => lex_from(chars, 0) == Ok::<Seq<Lexed>, LexFault>(lexed + rest),
                    Err(fault) => lex_from(chars, 0) == Err::<Seq<Lexed>, LexFault>(fault),
                },
            decreases chars.len() - pos,
        {
            let start = skip(&sc.chars, pos);
            if start >= sc.chars.len() {
                proof {
                    assert(lexed + Seq::<Lexed>::empty() =~= lexed);
                    assert(token_views(tokens@) =~= Seq::new(
                        lexed.len(),
                        |i: int| spanned_token(chars, lexed[i]),
                    ));
                }
                return Ok(tokens);
            }
            match scan_lexeme(&sc.chars, start) {
                Scanned::Error { kind, end } => {
                    let span = Span { start: sc.offsets[start], end: sc.offsets[end] };
                    return Err(LexicalError { kind, span });
                },
                Scanned::Token { token, end } => {
                    let span = Span { start: sc.offsets[start], end: sc.offsets[end] };
                    let ghost item = Lexed { token: token@, from: start as int, to: end as int };
                    proof {
                        match lex_from(chars, end as int) {
                            Ok(rest) => {
                                assert(lexed + (seq![item] + rest) =~= lexed.push(item) + rest);
                            },
                            Err(_) => {},
                        }
                    }
                    tokens.push(Spanned { value: token, span });
                    proof {
                        lexed = lexed.push(item);
                    }
                    pos = end;
                },
            }
        }
    }
}

} // verus!

verus! {

impl Token {
    /// Tests whether two tokens are the same, with the same contents.
    pub fn same_as(&self, other: &Token) -> (same: bool)
        ensures
            same == (self@ == other@),
    {
        match (self, other) {
            (Token::Id(a), Token::Id(b)) => crate::utils::same_text(
                a.as_str(),
                b.as_str(),
            ),
            (Token::Int(a), Token::Int(b)) => *a == *b,
            (Token::String(a), Token::String(b)) => crate::utils::same_text(
                a.as_str(),
                b.as_str(),
            ),
            (Token::True, Token::True) => true,
            (Token::False, Token::False) => true,
            (Token::Unit, Token::Unit) => true,
            (Token::Semicolon, Token::Semicolon) => true,
            (Token::Plus, Token::Plus) => true,
            (Token::Minus, Token::Minus) => true,
            (Token::Multiply, Token::Multiply) => true,
            (Token::Divide, Token::Divide) => true,
            (Token::Modulo, Token::Modulo) => true,
            (Token::Power, Token::Power) => true,
            (Token::Equal, Token::Equal) => true,
            (Token::NotEqual, Token::NotEqual) => true,
            (Token::Less, Token::Less) => true,
            (Token::LessOrEqual, Token::LessOrEqual) => true,
            (Token::Greater, Token::Greater) => true,
            (Token::GreaterOrEqual, Token::GreaterOrEqual) => true,
            (Token::Not, Token::Not) => true,
            (Token::Or, Token::Or) => true,
            (Token::And, Token::And) => true,
            (Token::LeftParen, Token::LeftParen) => true,
            (Token::RightParen, Token::RightParen) => true,
            (Token::LeftBracket, Token::LeftBracket) => true,
            (Token::RightBracket, Token::RightBracket) => true,
            (Token::Comma, Token::Comma) => true,
            (Token::SetKw, Token::SetKw) => true,
            (Token::Let, Token::Let) => true,
            (Token::Colon, Token::Colon) => true,
            (Token::Assign, Token::Assign) => true,
            (Token::Arrow, Token::Arrow) => true,
            (Token::If, Token::If) => true,
            (Token::Then, Token::Then) => true,
            (Token::Else, Token::Else) => true,
            (Token::While, Token::While) => true,
            (Token::Do, Token::Do) => true,
            (Token::New, Token::New) => true,
            (Token::Pipe, Token::Pipe) => true,
            (Token::IntType, Token::IntType) => true,
            (Token::BoolType, Token::BoolType) => true,
            (Token::StringType, Token::StringType) => true,
            (Token::UnitType, Token::UnitType) => true,
            _ => false,
        }
    }
}

} // verus!

verus! {

/// Whether the tokens, with the white space and the comments between
/// them, make up the text from `pos` on: in front of each token and behind
/// the last one there is nothing but white space and comments, and no
/// token is empty.
pub open spec fn partitions(chars: Seq<char>, tokens: Seq<Lexed>, pos: int) -> bool
    decreases tokens.len(),
{
    if tokens.len() == 0 {
        skip_trivia(chars, pos) >= chars.len()
    } else {
        &&& skip_trivia(chars, pos) == tokens[0].from
        &&& tokens[0].from < tokens[0].to <= chars.len()
        &&& partitions(chars, tokens.drop_first(), tokens[0].to)
    }
}

/// The tokens of a text partition it, but for the white space and the
/// comments that are passed over.
pub proof fn lemma_tokens_partition(chars: Seq<char>, pos: int)
    requires
        0 <= pos <= chars.len(),
    ensures
        lex_from(chars, pos) matches Ok(tokens) ==> partitions(chars, tokens, pos),
    decreases chars.len() - pos,
{
    let start = skip_trivia(chars, pos);
    lemma_skip_trivia_bounds(chars, pos);
    if start < chars.len() {
        lemma_lexeme_advances(chars, start);
        match lexeme_at(chars, start) {
            Lexeme::Error { kind, end } => {},
            Lexeme::Token { token, end } => {
                lemma_tokens_partition(chars, end);
                match lex_from(chars, end) {
                    Ok(rest) => {
                        let all = seq![Lexed { token, from: start, to: end }] + rest;
                        assert(all.drop_first() =~= rest);
                    },
                    Err(_) => {},
                }
            },
        }
    }
}

/// Whether the spans of a list of tokens are in order: no span ends in
/// front of its start, and each token ends where the next one starts or
/// in front of it.
#[verifier::opaque]
pub open spec fn spans_in_order(tokens: Seq<SpannedView<TokenView>>) -> bool {
    &&& forall|i: int| 0 <= i < tokens.len() ==> (#[trigger] tokens[i]).span.start <= tokens[i].span.end
    &&& forall|i: int, j: int|
        0 <= i < j < tokens.len() ==> (#[trigger] tokens[i]).span.end <= (#[trigger] tokens[j]).span.start
}

proof fn lemma_lexed_in_order(chars: Seq<char>, pos: int)
    requires
        0 <= pos <= chars.len(),
    ensures
        lex_from(chars, pos) matches Ok(tokens) ==> forall|i: int|
            0 <= i < tokens.len() ==> pos <= (#[trigger] tokens[i]).from < tokens[i].to
                <= chars.len() && (forall|j: int|
                i < j < tokens.len() ==> tokens[i].to <= (#[trigger] tokens[j]).from),
    decreases chars.len() - pos,
{
    let start = skip_trivia(chars, pos);
    lemma_skip_trivia_bounds(chars, pos);
    if start < chars.len() {
        lemma_lexeme_advances(chars, start);
        match lexeme_at(chars, start) {
            Lexeme::Error { kind, end } => {},
            Lexeme::Token { token, end } => {
                lemma_lexed_in_order(chars, end);
                match lex_from(chars, end) {
                    Ok(rest) => {
                        let first = Lexed { token, from: start, to: end };
                        let all = seq![first] + rest;
                        assert forall|i: int| 0 <= i < all.len() implies pos <= (
                        #[trigger] all[i]).from < all[i].to <= chars.len() && (forall|j: int|
                            i < j < all.len() ==> all[i].to <= (#[trigger] all[j]).from) by {
                            if i > 0 {
                                assert(all[i] == rest[i - 1]);
                                assert forall|j: int| i < j < all.len() implies all[i].to <= (
                                #[trigger] all[j]).from by {
                                    assert(all[j] == rest[j - 1]);
                                }
                            } else {
                                assert forall|j: int| i < j < all.len() implies all[i].to <= (
                                #[trigger] all[j]).from by {
                                    assert(all[j] == rest[j - 1]);
                                }
                            }
                        }
                    },
                    Err(_) => {},
                }
            },
        }
    }
}

/// The spans of the tokens of a text are in order, for a text whose
/// length in bytes is a `usize`.
pub proof fn lemma_token_spans_in_order(chars: Seq<char>)
    requires
        vstd::utf8::encode_utf8(chars).len() <= usize::MAX,
    ensures
        lex_text(chars) matches Ok(tokens) ==> spans_in_order(tokens),
{
    reveal(spans_in_order);
    lemma_lexed_in_order(chars, 0);
    match lex_from(chars, 0) {
        Ok(lexed) => {
            let tokens = lex_text(chars)->Ok_0;
            assert forall|i: int| 0 <= i < tokens.len() implies (#[trigger] tokens[i]).span.start
                <= tokens[i].span.end by {
                crate::utils::lemma_byte_offset_ordered(chars, lexed[i].from, lexed[i].to);
            }
            assert forall|i: int, j: int| 0 <= i < j < tokens.len() implies (
            #[trigger] tokens[i]).span.end <= (#[trigger] tokens[j]).span.start by {
                assert(lexed[i].to <= lexed[j].from);
                crate::utils::lemma_byte_offset_ordered(chars, lexed[i].to, lexed[j].from);
                crate::utils::lemma_byte_offset_ordered(chars, lexed[j].from, lexed[j].to);
            }
        },
        Err(_) => {},
    }
}

/// The span of every token of a text is not empty and lies inside the
/// text, for a text whose length in bytes is a `usize`.
pub proof fn lemma_token_spans_inside(chars: Seq<char>)
    requires
        vstd::utf8::encode_utf8(chars).len() <= usize::MAX,
    ensures
        lex_text(chars) matches Ok(tokens) ==> forall|i: int|
            0 <= i < tokens.len() ==> (#[trigger] tokens[i]).span.start < tokens[i].span.end
                <= vstd::utf8::encode_utf8(chars).len(),
{
    lemma_lexed_in_order(chars, 0);
    match lex_from(chars, 0) {
        Ok(lexed) => {
            let tokens = lex_text(chars)->Ok_0;
            assert forall|i: int| 0 <= i < tokens.len() implies (#[trigger] tokens[i]).span.start
                < tokens[i].span.end <= vstd::utf8::encode_utf8(chars).len() by {
                assert(lexed[i].from < lexed[i].to);
                crate::utils::lemma_byte_offset_ordered(chars, lexed[i].from, lexed[i].to);
            }
        },
        Err(_) => {},
    }
}

/// Whether the character with index `at` stands in a comment: behind two
/// minus signs, with no line feed between them and the character.
pub open spec fn in_comment(chars: Seq<char>, at: int) -> bool {
    exists|start: int|
        0 <= start <= at && #[trigger] comment_at(chars, start) && forall|j: int|
            start <= j <= at ==> #[trigger] chars[j] != '\n'
}

/// Whether the character with index `at` is white space or stands in a
/// comment.
pub open spec fn is_trivia(chars: Seq<char>, at: int) -> bool {
    is_space(chars[at]) || in_comment(chars, at)
}

/// What is passed over in front of a token is white space and comments.
pub proof fn lemma_skipped_is_trivia(chars: Seq<char>, pos: int)
    requires
        0 <= pos <= chars.len(),
    ensures
        forall|at: int| pos <= at < skip_trivia(chars, pos) ==> #[trigger] is_trivia(chars, at),
    decreases chars.len() - pos,
{
    if pos < chars.len() {
        if is_space(chars[pos]) {
            lemma_skipped_is_trivia(chars, pos + 1);
        } else if comment_at(chars, pos) {
            let end = run_end(chars, pos + 2, CharClass::NotNewline);
            lemma_run_end_bounds(chars, pos + 2, CharClass::NotNewline);
            lemma_skipped_is_trivia(chars, end);
            assert forall|at: int| pos <= at < end implies #[trigger] is_trivia(chars, at) by {
                assert forall|j: int| pos <= j <= at implies #[trigger] chars[j] != '\n' by {
                    if j >= pos + 2 {
                        lemma_run_is_in_class(chars, pos + 2, CharClass::NotNewline, j);
                    }
                }
                assert(comment_at(chars, pos));
            }
        }
    }
}

/// Whether the character with index `at` belongs to one of the tokens.
pub open spec fn in_token(tokens: Seq<Lexed>, at: int) -> bool {
    exists|i: int| 0 <= i < tokens.len() && (#[trigger] tokens[i]).from <= at < tokens[i].to
}

/// Between the tokens there is nothing but white space and comments:
/// every character of a text from `pos` on that belongs to no token is
/// white space or stands in a comment. The byte span of a token is that
/// of its characters.
pub proof fn lemma_outside_tokens_is_trivia(chars: Seq<char>, pos: int)
    requires
        0 <= pos <= chars.len(),
    ensures
        lex_from(chars, pos) matches Ok(tokens) ==> forall|at: int|
            pos <= at < chars.len() && !in_token(tokens, at) ==> #[trigger] is_trivia(chars, at),
    decreases chars.len() - pos,
{
    let start = skip_trivia(chars, pos);
    lemma_skip_trivia_bounds(chars, pos);
    lemma_skipped_is_trivia(chars, pos);
    if start < chars.len() {
        lemma_lexeme_advances(chars, start);
        match lexeme_at(chars, start) {
            Lexeme::Error { kind, end } => {},
            Lexeme::Token { token, end } => {
                lemma_outside_tokens_is_trivia(chars, end);
                match lex_from(chars, end) {
                    Ok(rest) => {
                        let first = Lexed { token, from: start, to: end };
                        let all = seq![first] + rest;
                        assert forall|at: int|
                            pos <= at < chars.len() && !in_token(
                                all,
                                at,
                            ) implies #[trigger] is_trivia(chars, at) by {
                            if at < start {
                            } else if at < end {
                                assert(all[0] == first);
                                assert(in_token(all, at));
                            } else {
                                if in_token(rest, at) {
                                    let i = choose|i: int|
                                        0 <= i < rest.len() && (#[trigger] rest[i]).from <= at
                                            < rest[i].to;
                                    assert(all[i + 1] == rest[i]);
                                    assert(in_token(all, at));
                                }
                            }
                        }
                    },
                    Err(_) => {},
                }
            },
        }
    }
}

} // verus!
