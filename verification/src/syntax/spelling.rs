use crate::syntax::ast::{
    decl_text, escaped_text, expr_text, expr_texts, id_texts, in_brackets, left_strength, lhs_text,
    op_text, program_text, right_strength, strength, type_text, type_texts, DeclView, ExprView,
    LhsView, Op, SpannedView, TypeView,
};
use crate::syntax::grammar::parse_tokens;
use crate::syntax::lexer::lex_text;
use crate::syntax::reading::{
    args_tokens, bare_program, decl_tokens, expr_tokens, lemma_program_reads_back, lhs_tokens,
    op_token, operand_tokens, params_tokens, program_tokens, readable, readable_all,
    readable_decl, readable_lhs, readable_program, stands, type_tokens, types_tokens,
    written_type, written_types,
};
use crate::syntax::lexer::{
    comment_at, decimal_value, digit_value, in_class, is_digit, is_ident_char, is_ident_start,
    is_space, lemma_lexeme_advances, lemma_skip_trivia_bounds, lex_from, lexeme_at, punct_at,
    run_end, skip_trivia, word_token, CharClass, Lexeme, TokenView,
};
use crate::syntax::literals::{lemma_string_stop_escaped, lemma_unescape_escaped};
use crate::utils::{digit_text, indent_text, int_text, join_texts, nat_text};
use vstd::prelude::*;

verus! {

/// The tokens of a text from `pos` on, without their places, or nothing
/// where the text has a lexical error.
pub open spec fn tokens_from(chars: Seq<char>, pos: int) -> Option<Seq<TokenView>> {
    match lex_from(chars, pos) {
        Ok(lexed) => Some(Seq::new(lexed.len(), |i: int| lexed[i].token)),
        Err(_) => None,
    }
}

/// The tokens `first` in front of what comes later.
pub open spec fn before(first: Seq<TokenView>, rest: Option<Seq<TokenView>>) -> Option<
    Seq<TokenView>,
> {
    match rest {
        Some(more) => Some(first + more),
        None => None,
    }
}

/// Whether the characters of `text` stand in `chars` from `pos` on.
pub open spec fn spelled(chars: Seq<char>, pos: int, text: Seq<char>) -> bool {
    0 <= pos && pos + text.len() <= chars.len() && forall|i: int|
        0 <= i < text.len() ==> #[trigger] chars[pos + i] == text[i]
}

/// Whether a word or a number that ends in front of `pos` ends there: the
/// text ends, or a character follows that goes on with neither.
pub open spec fn closed_at(chars: Seq<char>, pos: int) -> bool {
    pos >= chars.len() || (!is_ident_char(chars[pos]) && chars[pos] != '.')
}

/// Whether every character of a text is white space.
pub open spec fn blank(text: Seq<char>) -> bool {
    forall|i: int| 0 <= i < text.len() ==> is_space(#[trigger] text[i])
}

proof fn lemma_spelled_parts(chars: Seq<char>, pos: int, a: Seq<char>, b: Seq<char>)
    requires
        spelled(chars, pos, a + b),
    ensures
        spelled(chars, pos, a),
        spelled(chars, pos + a.len(), b),
{
    assert forall|i: int| 0 <= i < a.len() implies #[trigger] chars[pos + i] == a[i] by {
        assert((a + b)[i] == a[i]);
    }
    assert forall|i: int| 0 <= i < b.len() implies #[trigger] chars[pos + a.len() + i] == b[i] by {
        assert((a + b)[a.len() + i] == b[i]);
        assert(chars[pos + (a.len() + i)] == (a + b)[a.len() + i]);
    }
}

proof fn lemma_spelled_is(chars: Seq<char>, pos: int, text: Seq<char>)
    requires
        spelled(chars, pos, text),
    ensures
        chars.subrange(pos, pos + text.len()) == text,
{
    let part = chars.subrange(pos, pos + text.len());
    assert forall|i: int| 0 <= i < text.len() implies part[i] == text[i] by {
        assert(chars[pos + i] == text[i]);
    }
    assert(part =~= text);
}

proof fn lemma_before_before(a: Seq<TokenView>, b: Seq<TokenView>, rest: Option<Seq<TokenView>>)
    ensures
        before(a, before(b, rest)) == before(a + b, rest),
{
    match rest {
        Some(more) => {
            assert(a + (b + more) =~= (a + b) + more);
        },
        None => {},
    }
}

proof fn lemma_before_nothing(rest: Option<Seq<TokenView>>)
    ensures
        before(Seq::empty(), rest) == rest,
{
    match rest {
        Some(more) => {
            assert(Seq::<TokenView>::empty() + more =~= more);
        },
        None => {},
    }
}

/// White space between tokens changes nothing.
pub proof fn lemma_blank_skipped(chars: Seq<char>, pos: int, space: Seq<char>)
    requires
        spelled(chars, pos, space),
        blank(space),
    ensures
        skip_trivia(chars, pos) == skip_trivia(chars, pos + space.len()),
        tokens_from(chars, pos) == tokens_from(chars, pos + space.len()),
    decreases space.len(),
{
    if space.len() > 0 {
        let rest = space.subrange(1, space.len() as int);
        assert(space =~= seq![space[0]] + rest);
        lemma_spelled_parts(chars, pos, seq![space[0]], rest);
        assert(blank(rest)) by {
            assert forall|i: int| 0 <= i < rest.len() implies is_space(#[trigger] rest[i]) by {
                assert(rest[i] == space[i + 1]);
            }
        }
        lemma_blank_skipped(chars, pos + 1, rest);
        assert(chars[pos + 0] == space[0]);
        assert(is_space(space[0]));
    }
}

/// One token: where a token starts at `pos` and ends in front of `end`,
/// the tokens from `pos` on are that token and then the tokens from `end`
/// on.
proof fn lemma_one_token(chars: Seq<char>, pos: int, token: TokenView, end: int)
    requires
        0 <= pos < chars.len(),
        !is_space(chars[pos]),
        !comment_at(chars, pos),
        lexeme_at(chars, pos) == (Lexeme::Token { token, end }),
    ensures
        tokens_from(chars, pos) == before(seq![token], tokens_from(chars, end)),
{
    lemma_lexeme_advances(chars, pos);
    match lex_from(chars, end) {
        Ok(rest) => {
            let all = lex_from(chars, pos)->Ok_0;
            assert(Seq::new(all.len(), |i: int| all[i].token) =~= seq![token] + Seq::new(
                rest.len(),
                |i: int| rest[i].token,
            ));
        },
        Err(_) => {},
    }
}

/// A run of characters of one class ends where the class ends.
proof fn lemma_run(chars: Seq<char>, pos: int, text: Seq<char>, class: CharClass)
    requires
        spelled(chars, pos, text),
        forall|i: int| 0 <= i < text.len() ==> in_class(class, #[trigger] text[i]),
        pos + text.len() == chars.len() || !in_class(class, chars[pos + text.len()]),
    ensures
        run_end(chars, pos, class) == pos + text.len(),
    decreases text.len(),
{
    if text.len() > 0 {
        let rest = text.subrange(1, text.len() as int);
        assert(text =~= seq![text[0]] + rest);
        lemma_spelled_parts(chars, pos, seq![text[0]], rest);
        assert forall|i: int| 0 <= i < rest.len() implies in_class(class, #[trigger] rest[i]) by {
            assert(rest[i] == text[i + 1]);
        }
        lemma_run(chars, pos + 1, rest, class);
        assert(chars[pos + 0] == text[0]);
    }
}

/// Whether a text is a name: it starts as an identifier does, goes on as
/// one, and is no keyword and no name of a base type.
pub open spec fn is_name(word: Seq<char>) -> bool {
    &&& word.len() > 0
    &&& is_ident_start(word[0])
    &&& forall|i: int| 0 <= i < word.len() ==> is_ident_char(#[trigger] word[i])
    &&& word_token(word) == TokenView::Id(word)
}

/// Whether a text is a word: a name, a keyword or the name of a base type.
pub open spec fn is_word(word: Seq<char>) -> bool {
    &&& word.len() > 0
    &&& is_ident_start(word[0])
    &&& forall|i: int| 0 <= i < word.len() ==> is_ident_char(#[trigger] word[i])
}

/// A word reads back: where it is spelled and ends, the lexer reads the
/// token of the word.
pub proof fn lemma_word(chars: Seq<char>, pos: int, word: Seq<char>)
    requires
        is_word(word),
        spelled(chars, pos, word),
        closed_at(chars, pos + word.len()),
    ensures
        tokens_from(chars, pos) == before(
            seq![word_token(word)],
            tokens_from(chars, pos + word.len()),
        ),
{
    let rest = word.subrange(1, word.len() as int);
    assert(word =~= seq![word[0]] + rest);
    lemma_spelled_parts(chars, pos, seq![word[0]], rest);
    assert forall|i: int| 0 <= i < rest.len() implies in_class(
        CharClass::IdentChar,
        #[trigger] rest[i],
    ) by {
        assert(rest[i] == word[i + 1]);
    }
    lemma_run(chars, pos + 1, rest, CharClass::IdentChar);
    assert(chars[pos + 0] == word[0]);
    lemma_spelled_is(chars, pos, word);
    lemma_one_token(chars, pos, word_token(word), pos + word.len());
}

proof fn lemma_digit_text(d: nat)
    requires
        d < 10,
    ensures
        digit_text(d).len() == 1,
        is_digit(digit_text(d)[0]),
        digit_value(digit_text(d)[0]) == d,
{
    reveal_strlit("0");
    reveal_strlit("1");
    reveal_strlit("2");
    reveal_strlit("3");
    reveal_strlit("4");
    reveal_strlit("5");
    reveal_strlit("6");
    reveal_strlit("7");
    reveal_strlit("8");
    reveal_strlit("9");
}

/// The decimal text of a number is made of digits and writes the number.
pub proof fn lemma_nat_text(n: nat)
    ensures
        nat_text(n).len() >= 1,
        forall|i: int| 0 <= i < nat_text(n).len() ==> is_digit(#[trigger] nat_text(n)[i]),
        decimal_value(nat_text(n)) == n,
    decreases n,
{
    if n < 10 {
        lemma_digit_text(n);
        let text = nat_text(n);
        assert(text.drop_last().len() == 0);
        assert(decimal_value(text.drop_last()) == 0);
    } else {
        lemma_nat_text(n / 10);
        lemma_digit_text(n % 10);
        let text = nat_text(n);
        let front = nat_text(n / 10);
        let last = digit_text(n % 10);
        assert(text =~= front + last);
        assert(text.drop_last() =~= front);
        assert(text.last() == last[0]);
        assert forall|i: int| 0 <= i < text.len() implies is_digit(#[trigger] text[i]) by {
            if i < front.len() {
                assert(text[i] == front[i]);
            } else {
                assert(text[i] == last[i - front.len()]);
            }
        }
    }
}

/// A number reads back: where the decimal text of a number that an `i64`
/// holds is spelled and ends, the lexer reads the number.
pub proof fn lemma_number(chars: Seq<char>, pos: int, n: nat)
    requires
        n <= i64::MAX,
        spelled(chars, pos, nat_text(n)),
        closed_at(chars, pos + nat_text(n).len()),
    ensures
        tokens_from(chars, pos) == before(
            seq![TokenView::Int(n as i64)],
            tokens_from(chars, pos + nat_text(n).len()),
        ),
{
    lemma_nat_text(n);
    let text = nat_text(n);
    let rest = text.subrange(1, text.len() as int);
    assert(text =~= seq![text[0]] + rest);
    lemma_spelled_parts(chars, pos, seq![text[0]], rest);
    assert forall|i: int| 0 <= i < rest.len() implies in_class(
        CharClass::Digit,
        #[trigger] rest[i],
    ) by {
        assert(rest[i] == text[i + 1]);
    }
    lemma_run(chars, pos + 1, rest, CharClass::Digit);
    assert(chars[pos + 0] == text[0]);
    lemma_spelled_is(chars, pos, text);
    lemma_one_token(chars, pos, TokenView::Int(n as i64), pos + text.len());
}

/// A string literal reads back: where the escaped characters of a string
/// are spelled between double quotes, the lexer reads the string.
pub proof fn lemma_string(chars: Seq<char>, pos: int, s: Seq<char>)
    requires
        spelled(chars, pos, "\""@ + escaped_text(s) + "\""@),
    ensures
        tokens_from(chars, pos) == before(
            seq![TokenView::String(s)],
            tokens_from(chars, pos + escaped_text(s).len() + 2),
        ),
{
    reveal_strlit("\"");
    let quote = "\""@;
    let inner = escaped_text(s);
    let all = quote + inner + quote;
    let stop = pos + 1 + inner.len();
    let front = chars.subrange(0, pos + 1);
    let back = chars.subrange(stop, chars.len() as int);
    assert(chars[pos + 0] == all[0]);
    let close: int = 1 + inner.len() as int;
    assert(chars[pos + close] == all[close]);
    assert(chars =~= front + inner + back) by {
        assert forall|i: int| 0 <= i < chars.len() implies chars[i] == (front + inner
            + back)[i] by {
            if pos + 1 <= i < stop {
                assert(chars[pos + (i - pos)] == all[i - pos]);
            }
        }
    }
    lemma_string_stop_escaped(front, s, back);
    lemma_unescape_escaped(s);
    assert(chars.subrange(pos + 1, stop) =~= inner);
    lemma_one_token(chars, pos, TokenView::String(s), stop + 1);
}

/// Whether a token is written with the punctuation `text`, and stands
/// apart from a character `next` that follows it.
pub open spec fn punct(text: Seq<char>, token: TokenView, next: Option<char>) -> bool {
    ||| (text == seq![';'] && token == TokenView::Semicolon)
    ||| (text == seq!['+'] && token == TokenView::Plus)
    ||| (text == seq!['*'] && token == TokenView::Multiply)
    ||| (text == seq!['/'] && token == TokenView::Divide)
    ||| (text == seq!['%'] && token == TokenView::Modulo)
    ||| (text == seq!['('] && token == TokenView::LeftParen)
    ||| (text == seq![')'] && token == TokenView::RightParen)
    ||| (text == seq!['['] && token == TokenView::LeftBracket)
    ||| (text == seq![']'] && token == TokenView::RightBracket)
    ||| (text == seq![','] && token == TokenView::Comma)
    ||| (text == seq![':'] && token == TokenView::Colon)
    ||| (text == seq!['-'] && token == TokenView::Minus && next != Some('>') && next != Some('-'))
    ||| (text == seq!['<'] && token == TokenView::Less && next != Some('='))
    ||| (text == seq!['>'] && token == TokenView::Greater && next != Some('='))
    ||| (text == seq!['!'] && token == TokenView::Not && next != Some('='))
    ||| (text == seq!['='] && token == TokenView::Assign && next != Some('='))
    ||| (text == seq!['|'] && token == TokenView::Pipe && next != Some('|'))
    ||| (text == seq!['=', '='] && token == TokenView::Equal)
    ||| (text == seq!['!', '='] && token == TokenView::NotEqual)
    ||| (text == seq!['<', '='] && token == TokenView::LessOrEqual)
    ||| (text == seq!['>', '='] && token == TokenView::GreaterOrEqual)
    ||| (text == seq!['|', '|'] && token == TokenView::Or)
    ||| (text == seq!['&', '&'] && token == TokenView::And)
    ||| (text == seq!['-', '>'] && token == TokenView::Arrow)
}

/// The character at a place, if the text is that long.
pub open spec fn char_at(chars: Seq<char>, pos: int) -> Option<char> {
    if 0 <= pos < chars.len() {
        Some(chars[pos])
    } else {
        None
    }
}

/// Punctuation reads back.
pub proof fn lemma_punct(chars: Seq<char>, pos: int, text: Seq<char>, token: TokenView)
    requires
        spelled(chars, pos, text),
        punct(text, token, char_at(chars, pos + text.len())),
    ensures
        tokens_from(chars, pos) == before(seq![token], tokens_from(chars, pos + text.len())),
{
    assert(chars[pos + 0] == text[0]);
    if text.len() == 2 {
        assert(chars[pos + 1] == text[1]);
    }
    lemma_one_token(chars, pos, token, pos + text.len());
}

} // verus!

verus! {

/// The tokens that the keywords and the names of the base types write.
proof fn lemma_keywords()
    ensures
        word_token(seq!['t', 'r', 'u', 'e']) == TokenView::True,
        word_token(seq!['f', 'a', 'l', 's', 'e']) == TokenView::False,
        word_token(seq!['u', 'n', 'i', 't']) == TokenView::Unit,
        word_token(seq!['s', 'e', 't']) == TokenView::SetKw,
        word_token(seq!['l', 'e', 't']) == TokenView::Let,
        word_token(seq!['i', 'f']) == TokenView::If,
        word_token(seq!['t', 'h', 'e', 'n']) == TokenView::Then,
        word_token(seq!['e', 'l', 's', 'e']) == TokenView::Else,
        word_token(seq!['w', 'h', 'i', 'l', 'e']) == TokenView::While,
        word_token(seq!['d', 'o']) == TokenView::Do,
        word_token(seq!['n', 'e', 'w']) == TokenView::New,
        word_token(seq!['I', 'n', 't']) == TokenView::IntType,
        word_token(seq!['B', 'o', 'o', 'l']) == TokenView::BoolType,
        word_token(seq!['S', 't', 'r', 'i', 'n', 'g']) == TokenView::StringType,
        word_token(seq!['U', 'n', 'i', 't']) == TokenView::UnitType,
{
    reveal_strlit("true");
    reveal_strlit("false");
    reveal_strlit("unit");
    reveal_strlit("set");
    reveal_strlit("let");
    reveal_strlit("if");
    reveal_strlit("then");
    reveal_strlit("else");
    reveal_strlit("while");
    reveal_strlit("do");
    reveal_strlit("new");
    reveal_strlit("Int");
    reveal_strlit("Bool");
    reveal_strlit("String");
    reveal_strlit("Unit");
    assert(seq!['t', 'r', 'u', 'e'] =~= "true"@);
    assert(seq!['f', 'a', 'l', 's', 'e'] =~= "false"@);
    assert(seq!['u', 'n', 'i', 't'] =~= "unit"@);
    assert(seq!['s', 'e', 't'] =~= "set"@);
    assert(seq!['l', 'e', 't'] =~= "let"@);
    assert(seq!['i', 'f'] =~= "if"@);
    assert(seq!['t', 'h', 'e', 'n'] =~= "then"@);
    assert(seq!['e', 'l', 's', 'e'] =~= "else"@);
    assert(seq!['w', 'h', 'i', 'l', 'e'] =~= "while"@);
    assert(seq!['d', 'o'] =~= "do"@);
    assert(seq!['n', 'e', 'w'] =~= "new"@);
    assert(seq!['I', 'n', 't'] =~= "Int"@);
    assert(seq!['B', 'o', 'o', 'l'] =~= "Bool"@);
    assert(seq!['S', 't', 'r', 'i', 'n', 'g'] =~= "String"@);
    assert(seq!['U', 'n', 'i', 't'] =~= "Unit"@);
}

/// One more step of reading: white space.
proof fn lemma_step_gap(
    chars: Seq<char>,
    start: int,
    got: Seq<TokenView>,
    at: int,
    gap: Seq<char>,
)
    requires
        tokens_from(chars, start) == before(got, tokens_from(chars, at)),
        spelled(chars, at, gap),
        blank(gap),
    ensures
        tokens_from(chars, start) == before(got, tokens_from(chars, at + gap.len())),
{
    lemma_blank_skipped(chars, at, gap);
}

/// One more step of reading: tokens that are read from `at` to `end`.
proof fn lemma_step_tokens(
    chars: Seq<char>,
    start: int,
    got: Seq<TokenView>,
    at: int,
    more: Seq<TokenView>,
    end: int,
)
    requires
        tokens_from(chars, start) == before(got, tokens_from(chars, at)),
        tokens_from(chars, at) == before(more, tokens_from(chars, end)),
    ensures
        tokens_from(chars, start) == before(got + more, tokens_from(chars, end)),
{
    lemma_before_before(got, more, tokens_from(chars, end));
}

/// The start of reading: nothing was read yet.
proof fn lemma_start(chars: Seq<char>, start: int)
    ensures
        tokens_from(chars, start) == before(Seq::empty(), tokens_from(chars, start)),
{
    lemma_before_nothing(tokens_from(chars, start));
}

/// One more step of reading: punctuation between white space.
proof fn lemma_glue_punct(
    chars: Seq<char>,
    start: int,
    got: Seq<TokenView>,
    at: int,
    lead: Seq<char>,
    core: Seq<char>,
    trail: Seq<char>,
    token: TokenView,
)
    requires
        tokens_from(chars, start) == before(got, tokens_from(chars, at)),
        spelled(chars, at, lead + core + trail),
        blank(lead),
        blank(trail),
        trail.len() > 0 ==> punct(core, token, Some(trail[0])),
        trail.len() == 0 ==> punct(core, token, char_at(chars, at + lead.len() + core.len())),
    ensures
        tokens_from(chars, start) == before(
            got + seq![token],
            tokens_from(chars, at + lead.len() + core.len() + trail.len()),
        ),
{
    lemma_spelled_parts(chars, at, lead + core, trail);
    lemma_spelled_parts(chars, at, lead, core);
    let mid = at + lead.len();
    let end = mid + core.len();
    if trail.len() > 0 {
        assert(chars[end + 0] == trail[0]);
    }
    lemma_step_gap(chars, start, got, at, lead);
    lemma_punct(chars, mid, core, token);
    lemma_step_tokens(chars, start, got, mid, seq![token], end);
    lemma_step_gap(chars, start, got + seq![token], end, trail);
}

/// One more step of reading: a word in front of white space.
proof fn lemma_glue_word(
    chars: Seq<char>,
    start: int,
    got: Seq<TokenView>,
    at: int,
    word: Seq<char>,
    trail: Seq<char>,
)
    requires
        tokens_from(chars, start) == before(got, tokens_from(chars, at)),
        spelled(chars, at, word + trail),
        is_word(word),
        blank(trail),
        trail.len() == 0 ==> closed_at(chars, at + word.len()),
    ensures
        tokens_from(chars, start) == before(
            got + seq![word_token(word)],
            tokens_from(chars, at + word.len() + trail.len()),
        ),
{
    lemma_spelled_parts(chars, at, word, trail);
    let end = at + word.len();
    if trail.len() > 0 {
        assert(chars[end + 0] == trail[0]);
    }
    lemma_word(chars, at, word);
    lemma_step_tokens(chars, start, got, at, seq![word_token(word)], end);
    lemma_step_gap(chars, start, got + seq![word_token(word)], end, trail);
}

proof fn glue_semicolon(chars: Seq<char>, start: int, got: Seq<TokenView>, at: int)
    requires
        tokens_from(chars, start) == before(got, tokens_from(chars, at)),
        spelled(chars, at, ";\n"@),
    ensures
        ";\n"@.len() == 2,
        tokens_from(chars, start) == before(
            got + seq![TokenView::Semicolon],
            tokens_from(chars, at + 2),
        ),
{
    reveal_strlit(";\n");
    assert(";\n"@ =~= Seq::<char>::empty() + seq![';'] + seq!['\n']);
    lemma_glue_punct(
        chars,
        start,
        got,
        at,
        Seq::<char>::empty(),
        seq![';'],
        seq!['\n'],
        TokenView::Semicolon,
    );
}

proof fn glue_colon(chars: Seq<char>, start: int, got: Seq<TokenView>, at: int)
    requires
        tokens_from(chars, start) == before(got, tokens_from(chars, at)),
        spelled(chars, at, " : "@),
    ensures
        " : "@.len() == 3,
        tokens_from(chars, start) == before(
            got + seq![TokenView::Colon],
            tokens_from(chars, at + 3),
        ),
{
    reveal_strlit(" : ");
    assert(" : "@ =~= seq![' '] + seq![':'] + seq![' ']);
    lemma_glue_punct(chars, start, got, at, seq![' '], seq![':'], seq![' '], TokenView::Colon);
}

proof fn glue_assign(chars: Seq<char>, start: int, got: Seq<TokenView>, at: int)
    requires
        tokens_from(chars, start) == before(got, tokens_from(chars, at)),
        spelled(chars, at, " = "@),
    ensures
        " = "@.len() == 3,
        tokens_from(chars, start) == before(
            got + seq![TokenView::Assign],
            tokens_from(chars, at + 3),
        ),
{
    reveal_strlit(" = ");
    assert(" = "@ =~= seq![' '] + seq!['='] + seq![' ']);
    lemma_glue_punct(chars, start, got, at, seq![' '], seq!['='], seq![' '], TokenView::Assign);
}

proof fn glue_assign_line(chars: Seq<char>, start: int, got: Seq<TokenView>, at: int)
    requires
        tokens_from(chars, start) == before(got, tokens_from(chars, at)),
        spelled(chars, at, " =\n"@),
    ensures
        " =\n"@.len() == 3,
        tokens_from(chars, start) == before(
            got + seq![TokenView::Assign],
            tokens_from(chars, at + 3),
        ),
{
    reveal_strlit(" =\n");
    assert(" =\n"@ =~= seq![' '] + seq!['='] + seq!['\n']);
    lemma_glue_punct(chars, start, got, at, seq![' '], seq!['='], seq!['\n'], TokenView::Assign);
}

proof fn glue_pipe(chars: Seq<char>, start: int, got: Seq<TokenView>, at: int)
    requires
        tokens_from(chars, start) == before(got, tokens_from(chars, at)),
        spelled(chars, at, " | "@),
    ensures
        " | "@.len() == 3,
        tokens_from(chars, start) == before(
            got + seq![TokenView::Pipe],
            tokens_from(chars, at + 3),
        ),
{
    reveal_strlit(" | ");
    assert(" | "@ =~= seq![' '] + seq!['|'] + seq![' ']);
    lemma_glue_punct(chars, start, got, at, seq![' '], seq!['|'], seq![' '], TokenView::Pipe);
}

proof fn glue_open(chars: Seq<char>, start: int, got: Seq<TokenView>, at: int)
    requires
        tokens_from(chars, start) == before(got, tokens_from(chars, at)),
        spelled(chars, at, "("@),
    ensures
        "("@.len() == 1,
        tokens_from(chars, start) == before(
            got + seq![TokenView::LeftParen],
            tokens_from(chars, at + 1),
        ),
{
    reveal_strlit("(");
    assert("("@ =~= Seq::<char>::empty() + seq!['('] + Seq::<char>::empty());
    lemma_glue_punct(
        chars,
        start,
        got,
        at,
        Seq::<char>::empty(),
        seq!['('],
        Seq::<char>::empty(),
        TokenView::LeftParen,
    );
}

proof fn glue_close(chars: Seq<char>, start: int, got: Seq<TokenView>, at: int)
    requires
        tokens_from(chars, start) == before(got, tokens_from(chars, at)),
        spelled(chars, at, ")"@),
    ensures
        ")"@.len() == 1,
        tokens_from(chars, start) == before(
            got + seq![TokenView::RightParen],
            tokens_from(chars, at + 1),
        ),
{
    reveal_strlit(")");
    assert(")"@ =~= Seq::<char>::empty() + seq![')'] + Seq::<char>::empty());
    lemma_glue_punct(
        chars,
        start,
        got,
        at,
        Seq::<char>::empty(),
        seq![')'],
        Seq::<char>::empty(),
        TokenView::RightParen,
    );
}

proof fn glue_open_square(chars: Seq<char>, start: int, got: Seq<TokenView>, at: int)
    requires
        tokens_from(chars, start) == before(got, tokens_from(chars, at)),
        spelled(chars, at, "["@),
    ensures
        "["@.len() == 1,
        tokens_from(chars, start) == before(
            got + seq![TokenView::LeftBracket],
            tokens_from(chars, at + 1),
        ),
{
    reveal_strlit("[");
    assert("["@ =~= Seq::<char>::empty() + seq!['['] + Seq::<char>::empty());
    lemma_glue_punct(
        chars,
        start,
        got,
        at,
        Seq::<char>::empty(),
        seq!['['],
        Seq::<char>::empty(),
        TokenView::LeftBracket,
    );
}

proof fn glue_close_square(chars: Seq<char>, start: int, got: Seq<TokenView>, at: int)
    requires
        tokens_from(chars, start) == before(got, tokens_from(chars, at)),
        spelled(chars, at, "]"@),
    ensures
        "]"@.len() == 1,
        tokens_from(chars, start) == before(
            got + seq![TokenView::RightBracket],
            tokens_from(chars, at + 1),
        ),
{
    reveal_strlit("]");
    assert("]"@ =~= Seq::<char>::empty() + seq![']'] + Seq::<char>::empty());
    lemma_glue_punct(
        chars,
        start,
        got,
        at,
        Seq::<char>::empty(),
        seq![']'],
        Seq::<char>::empty(),
        TokenView::RightBracket,
    );
}

proof fn glue_comma(chars: Seq<char>, start: int, got: Seq<TokenView>, at: int)
    requires
        tokens_from(chars, start) == before(got, tokens_from(chars, at)),
        spelled(chars, at, ", "@),
    ensures
        ", "@.len() == 2,
        tokens_from(chars, start) == before(
            got + seq![TokenView::Comma],
            tokens_from(chars, at + 2),
        ),
{
    reveal_strlit(", ");
    assert(", "@ =~= Seq::<char>::empty() + seq![','] + seq![' ']);
    lemma_glue_punct(
        chars,
        start,
        got,
        at,
        Seq::<char>::empty(),
        seq![','],
        seq![' '],
        TokenView::Comma,
    );
}

proof fn glue_not(chars: Seq<char>, start: int, got: Seq<TokenView>, at: int)
    requires
        tokens_from(chars, start) == before(got, tokens_from(chars, at)),
        spelled(chars, at, "!"@),
        punct(seq!['!'], TokenView::Not, char_at(chars, at + 1)),
    ensures
        "!"@.len() == 1,
        tokens_from(chars, start) == before(
            got + seq![TokenView::Not],
            tokens_from(chars, at + 1),
        ),
{
    reveal_strlit("!");
    assert("!"@ =~= Seq::<char>::empty() + seq!['!'] + Seq::<char>::empty());
    lemma_glue_punct(
        chars,
        start,
        got,
        at,
        Seq::<char>::empty(),
        seq!['!'],
        Seq::<char>::empty(),
        TokenView::Not,
    );
}

proof fn glue_open_spaced(chars: Seq<char>, start: int, got: Seq<TokenView>, at: int)
    requires
        tokens_from(chars, start) == before(got, tokens_from(chars, at)),
        spelled(chars, at, " ("@),
    ensures
        " ("@.len() == 2,
        tokens_from(chars, start) == before(
            got + seq![TokenView::LeftParen],
            tokens_from(chars, at + 2),
        ),
{
    reveal_strlit(" (");
    assert(" ("@ =~= seq![' '] + seq!['('] + Seq::<char>::empty());
    lemma_glue_punct(
        chars,
        start,
        got,
        at,
        seq![' '],
        seq!['('],
        Seq::<char>::empty(),
        TokenView::LeftParen,
    );
}

proof fn glue_let(chars: Seq<char>, start: int, got: Seq<TokenView>, at: int)
    requires
        tokens_from(chars, start) == before(got, tokens_from(chars, at)),
        spelled(chars, at, "let "@),
    ensures
        "let "@.len() == 4,
        tokens_from(chars, start) == before(
            got + seq![TokenView::Let],
            tokens_from(chars, at + 4),
        ),
{
    reveal_strlit("let ");
    lemma_keywords();
    assert("let "@ =~= seq!['l','e','t'] + seq![' ']);
    lemma_glue_word(chars, start, got, at, seq!['l','e','t'], seq![' ']);
}

proof fn glue_set(chars: Seq<char>, start: int, got: Seq<TokenView>, at: int)
    requires
        tokens_from(chars, start) == before(got, tokens_from(chars, at)),
        spelled(chars, at, "set "@),
    ensures
        "set "@.len() == 4,
        tokens_from(chars, start) == before(
            got + seq![TokenView::SetKw],
            tokens_from(chars, at + 4),
        ),
{
    reveal_strlit("set ");
    lemma_keywords();
    assert("set "@ =~= seq!['s','e','t'] + seq![' ']);
    lemma_glue_word(chars, start, got, at, seq!['s','e','t'], seq![' ']);
}

proof fn glue_new(chars: Seq<char>, start: int, got: Seq<TokenView>, at: int)
    requires
        tokens_from(chars, start) == before(got, tokens_from(chars, at)),
        spelled(chars, at, "new "@),
    ensures
        "new "@.len() == 4,
        tokens_from(chars, start) == before(
            got + seq![TokenView::New],
            tokens_from(chars, at + 4),
        ),
{
    reveal_strlit("new ");
    lemma_keywords();
    assert("new "@ =~= seq!['n','e','w'] + seq![' ']);
    lemma_glue_word(chars, start, got, at, seq!['n','e','w'], seq![' ']);
}

proof fn glue_if(chars: Seq<char>, start: int, got: Seq<TokenView>, at: int)
    requires
        tokens_from(chars, start) == before(got, tokens_from(chars, at)),
        spelled(chars, at, "if "@),
    ensures
        "if "@.len() == 3,
        tokens_from(chars, start) == before(
            got + seq![TokenView::If],
            tokens_from(chars, at + 3),
        ),
{
    reveal_strlit("if ");
    lemma_keywords();
    assert("if "@ =~= seq!['i','f'] + seq![' ']);
    lemma_glue_word(chars, start, got, at, seq!['i','f'], seq![' ']);
}

proof fn glue_while(chars: Seq<char>, start: int, got: Seq<TokenView>, at: int)
    requires
        tokens_from(chars, start) == before(got, tokens_from(chars, at)),
        spelled(chars, at, "while "@),
    ensures
        "while "@.len() == 6,
        tokens_from(chars, start) == before(
            got + seq![TokenView::While],
            tokens_from(chars, at + 6),
        ),
{
    reveal_strlit("while ");
    lemma_keywords();
    assert("while "@ =~= seq!['w','h','i','l','e'] + seq![' ']);
    lemma_glue_word(chars, start, got, at, seq!['w','h','i','l','e'], seq![' ']);
}

proof fn glue_else(chars: Seq<char>, start: int, got: Seq<TokenView>, at: int)
    requires
        tokens_from(chars, start) == before(got, tokens_from(chars, at)),
        spelled(chars, at, "else\n"@),
    ensures
        "else\n"@.len() == 5,
        tokens_from(chars, start) == before(
            got + seq![TokenView::Else],
            tokens_from(chars, at + 5),
        ),
{
    reveal_strlit("else\n");
    lemma_keywords();
    assert("else\n"@ =~= seq!['e','l','s','e'] + seq!['\n']);
    lemma_glue_word(chars, start, got, at, seq!['e','l','s','e'], seq!['\n']);
}

proof fn glue_true(chars: Seq<char>, start: int, got: Seq<TokenView>, at: int)
    requires
        tokens_from(chars, start) == before(got, tokens_from(chars, at)),
        spelled(chars, at, "true"@),
        closed_at(chars, at + "true"@.len()),
    ensures
        "true"@.len() == 4,
        tokens_from(chars, start) == before(
            got + seq![TokenView::True],
            tokens_from(chars, at + 4),
        ),
{
    reveal_strlit("true");
    lemma_keywords();
    assert("true"@ =~= seq!['t','r','u','e'] + Seq::<char>::empty());
    lemma_glue_word(chars, start, got, at, seq!['t','r','u','e'], Seq::<char>::empty());
}

proof fn glue_false(chars: Seq<char>, start: int, got: Seq<TokenView>, at: int)
    requires
        tokens_from(chars, start) == before(got, tokens_from(chars, at)),
        spelled(chars, at, "false"@),
        closed_at(chars, at + "false"@.len()),
    ensures
        "false"@.len() == 5,
        tokens_from(chars, start) == before(
            got + seq![TokenView::False],
            tokens_from(chars, at + 5),
        ),
{
    reveal_strlit("false");
    lemma_keywords();
    assert("false"@ =~= seq!['f','a','l','s','e'] + Seq::<char>::empty());
    lemma_glue_word(chars, start, got, at, seq!['f','a','l','s','e'], Seq::<char>::empty());
}

proof fn glue_unit(chars: Seq<char>, start: int, got: Seq<TokenView>, at: int)
    requires
        tokens_from(chars, start) == before(got, tokens_from(chars, at)),
        spelled(chars, at, "unit"@),
        closed_at(chars, at + "unit"@.len()),
    ensures
        "unit"@.len() == 4,
        tokens_from(chars, start) == before(
            got + seq![TokenView::Unit],
            tokens_from(chars, at + 4),
        ),
{
    reveal_strlit("unit");
    lemma_keywords();
    assert("unit"@ =~= seq!['u','n','i','t'] + Seq::<char>::empty());
    lemma_glue_word(chars, start, got, at, seq!['u','n','i','t'], Seq::<char>::empty());
}

proof fn glue_int_type(chars: Seq<char>, start: int, got: Seq<TokenView>, at: int)
    requires
        tokens_from(chars, start) == before(got, tokens_from(chars, at)),
        spelled(chars, at, "Int"@),
        closed_at(chars, at + "Int"@.len()),
    ensures
        "Int"@.len() == 3,
        tokens_from(chars, start) == before(
            got + seq![TokenView::IntType],
            tokens_from(chars, at + 3),
        ),
{
    reveal_strlit("Int");
    lemma_keywords();
    assert("Int"@ =~= seq!['I','n','t'] + Seq::<char>::empty());
    lemma_glue_word(chars, start, got, at, seq!['I','n','t'], Seq::<char>::empty());
}

proof fn glue_bool_type(chars: Seq<char>, start: int, got: Seq<TokenView>, at: int)
    requires
        tokens_from(chars, start) == before(got, tokens_from(chars, at)),
        spelled(chars, at, "Bool"@),
        closed_at(chars, at + "Bool"@.len()),
    ensures
        "Bool"@.len() == 4,
        tokens_from(chars, start) == before(
            got + seq![TokenView::BoolType],
            tokens_from(chars, at + 4),
        ),
{
    reveal_strlit("Bool");
    lemma_keywords();
    assert("Bool"@ =~= seq!['B','o','o','l'] + Seq::<char>::empty());
    lemma_glue_word(chars, start, got, at, seq!['B','o','o','l'], Seq::<char>::empty());
}

proof fn glue_string_type(chars: Seq<char>, start: int, got: Seq<TokenView>, at: int)
    requires
        tokens_from(chars, start) == before(got, tokens_from(chars, at)),
        spelled(chars, at, "String"@),
        closed_at(chars, at + "String"@.len()),
    ensures
        "String"@.len() == 6,
        tokens_from(chars, start) == before(
            got + seq![TokenView::StringType],
            tokens_from(chars, at + 6),
        ),
{
    reveal_strlit("String");
    lemma_keywords();
    assert("String"@ =~= seq!['S','t','r','i','n','g'] + Seq::<char>::empty());
    lemma_glue_word(chars, start, got, at, seq!['S','t','r','i','n','g'], Seq::<char>::empty());
}

proof fn glue_unit_type(chars: Seq<char>, start: int, got: Seq<TokenView>, at: int)
    requires
        tokens_from(chars, start) == before(got, tokens_from(chars, at)),
        spelled(chars, at, "Unit"@),
        closed_at(chars, at + "Unit"@.len()),
    ensures
        "Unit"@.len() == 4,
        tokens_from(chars, start) == before(
            got + seq![TokenView::UnitType],
            tokens_from(chars, at + 4),
        ),
{
    reveal_strlit("Unit");
    lemma_keywords();
    assert("Unit"@ =~= seq!['U','n','i','t'] + Seq::<char>::empty());
    lemma_glue_word(chars, start, got, at, seq!['U','n','i','t'], Seq::<char>::empty());
}

} // verus!

verus! {

proof fn ends_semicolon(chars: Seq<char>, at: int)
    requires
        spelled(chars, at, ";\n"@),
    ensures
        closed_at(chars, at),
        char_at(chars, at) != Some('='),
{
    reveal_strlit(";\n");
    assert(chars[at + 0] == ";\n"@[0]);
}

proof fn ends_space(chars: Seq<char>, at: int)
    requires
        spelled(chars, at, " "@),
    ensures
        closed_at(chars, at),
        char_at(chars, at) != Some('='),
{
    reveal_strlit(" ");
    assert(chars[at + 0] == " "@[0]);
}

proof fn ends_close(chars: Seq<char>, at: int)
    requires
        spelled(chars, at, ")"@),
    ensures
        closed_at(chars, at),
        char_at(chars, at) != Some('='),
{
    reveal_strlit(")");
    assert(chars[at + 0] == ")"@[0]);
}

proof fn ends_close_square(chars: Seq<char>, at: int)
    requires
        spelled(chars, at, "]"@),
    ensures
        closed_at(chars, at),
        char_at(chars, at) != Some('='),
{
    reveal_strlit("]");
    assert(chars[at + 0] == "]"@[0]);
}

proof fn ends_open_square(chars: Seq<char>, at: int)
    requires
        spelled(chars, at, "["@),
    ensures
        closed_at(chars, at),
        char_at(chars, at) != Some('='),
{
    reveal_strlit("[");
    assert(chars[at + 0] == "["@[0]);
}

proof fn ends_comma(chars: Seq<char>, at: int)
    requires
        spelled(chars, at, ", "@),
    ensures
        closed_at(chars, at),
        char_at(chars, at) != Some('='),
{
    reveal_strlit(", ");
    assert(chars[at + 0] == ", "@[0]);
}

proof fn ends_colon(chars: Seq<char>, at: int)
    requires
        spelled(chars, at, " : "@),
    ensures
        closed_at(chars, at),
        char_at(chars, at) != Some('='),
{
    reveal_strlit(" : ");
    assert(chars[at + 0] == " : "@[0]);
}

proof fn ends_assign(chars: Seq<char>, at: int)
    requires
        spelled(chars, at, " = "@),
    ensures
        closed_at(chars, at),
        char_at(chars, at) != Some('='),
{
    reveal_strlit(" = ");
    assert(chars[at + 0] == " = "@[0]);
}

proof fn ends_assign_line(chars: Seq<char>, at: int)
    requires
        spelled(chars, at, " =\n"@),
    ensures
        closed_at(chars, at),
        char_at(chars, at) != Some('='),
{
    reveal_strlit(" =\n");
    assert(chars[at + 0] == " =\n"@[0]);
}

proof fn ends_pipe(chars: Seq<char>, at: int)
    requires
        spelled(chars, at, " | "@),
    ensures
        closed_at(chars, at),
        char_at(chars, at) != Some('='),
{
    reveal_strlit(" | ");
    assert(chars[at + 0] == " | "@[0]);
}

proof fn ends_then(chars: Seq<char>, at: int)
    requires
        spelled(chars, at, " then\n"@),
    ensures
        closed_at(chars, at),
        char_at(chars, at) != Some('='),
{
    reveal_strlit(" then\n");
    assert(chars[at + 0] == " then\n"@[0]);
}

proof fn ends_do(chars: Seq<char>, at: int)
    requires
        spelled(chars, at, " do\n"@),
    ensures
        closed_at(chars, at),
        char_at(chars, at) != Some('='),
{
    reveal_strlit(" do\n");
    assert(chars[at + 0] == " do\n"@[0]);
}

proof fn ends_line(chars: Seq<char>, at: int)
    requires
        spelled(chars, at, "\n"@),
    ensures
        closed_at(chars, at),
        char_at(chars, at) != Some('='),
{
    reveal_strlit("\n");
    assert(chars[at + 0] == "\n"@[0]);
}

proof fn ends_lines(chars: Seq<char>, at: int)
    requires
        spelled(chars, at, "\n\n"@),
    ensures
        closed_at(chars, at),
        char_at(chars, at) != Some('='),
{
    reveal_strlit("\n\n");
    assert(chars[at + 0] == "\n\n"@[0]);
}

proof fn ends_open(chars: Seq<char>, at: int)
    requires
        spelled(chars, at, "("@),
    ensures
        closed_at(chars, at),
        char_at(chars, at) != Some('='),
{
    reveal_strlit("(");
    assert(chars[at + 0] == "("@[0]);
}

proof fn ends_open_spaced(chars: Seq<char>, at: int)
    requires
        spelled(chars, at, " ("@),
    ensures
        closed_at(chars, at),
        char_at(chars, at) != Some('='),
{
    reveal_strlit(" (");
    assert(chars[at + 0] == " ("@[0]);
}

proof fn ends_pair(chars: Seq<char>, at: int)
    requires
        spelled(chars, at, "[]"@),
    ensures
        closed_at(chars, at),
        char_at(chars, at) != Some('='),
{
    reveal_strlit("[]");
    assert(chars[at + 0] == "[]"@[0]);
}

proof fn glue_then(chars: Seq<char>, start: int, got: Seq<TokenView>, at: int)
    requires
        tokens_from(chars, start) == before(got, tokens_from(chars, at)),
        spelled(chars, at, " then\n"@),
    ensures
        " then\n"@.len() == 6,
        tokens_from(chars, start) == before(
            got + seq![TokenView::Then],
            tokens_from(chars, at + 6),
        ),
{
    reveal_strlit(" then\n");
    lemma_keywords();
    let word = seq!['t', 'h', 'e', 'n'];
    assert(" then\n"@ =~= seq![' '] + (word + seq!['\n']));
    lemma_spelled_parts(chars, at, seq![' '], word + seq!['\n']);
    lemma_step_gap(chars, start, got, at, seq![' ']);
    lemma_glue_word(chars, start, got, at + 1, word, seq!['\n']);
}

proof fn glue_do(chars: Seq<char>, start: int, got: Seq<TokenView>, at: int)
    requires
        tokens_from(chars, start) == before(got, tokens_from(chars, at)),
        spelled(chars, at, " do\n"@),
    ensures
        " do\n"@.len() == 4,
        tokens_from(chars, start) == before(got + seq![TokenView::Do], tokens_from(chars, at + 4)),
{
    reveal_strlit(" do\n");
    lemma_keywords();
    let word = seq!['d', 'o'];
    assert(" do\n"@ =~= seq![' '] + (word + seq!['\n']));
    lemma_spelled_parts(chars, at, seq![' '], word + seq!['\n']);
    lemma_step_gap(chars, start, got, at, seq![' ']);
    lemma_glue_word(chars, start, got, at + 1, word, seq!['\n']);
}

proof fn glue_pair(chars: Seq<char>, start: int, got: Seq<TokenView>, at: int)
    requires
        tokens_from(chars, start) == before(got, tokens_from(chars, at)),
        spelled(chars, at, "[]"@),
    ensures
        "[]"@.len() == 2,
        tokens_from(chars, start) == before(
            got + seq![TokenView::LeftBracket, TokenView::RightBracket],
            tokens_from(chars, at + 2),
        ),
{
    reveal_strlit("[]");
    let a = seq!['['];
    let b = seq![']'];
    assert("[]"@ =~= a + b);
    lemma_spelled_parts(chars, at, a, b);
    assert(a =~= Seq::<char>::empty() + a + Seq::<char>::empty());
    assert(b =~= Seq::<char>::empty() + b + Seq::<char>::empty());
    lemma_glue_punct(
        chars,
        start,
        got,
        at,
        Seq::empty(),
        a,
        Seq::empty(),
        TokenView::LeftBracket,
    );
    lemma_glue_punct(
        chars,
        start,
        got + seq![TokenView::LeftBracket],
        at + 1,
        Seq::empty(),
        b,
        Seq::empty(),
        TokenView::RightBracket,
    );
    assert(got + seq![TokenView::LeftBracket] + seq![TokenView::RightBracket] =~= got + seq![
        TokenView::LeftBracket,
        TokenView::RightBracket,
    ]);
}

/// Indentation is white space.
proof fn lemma_indent_blank(level: nat)
    ensures
        blank(indent_text(level)),
    decreases level,
{
    reveal_strlit("  ");
    if level > 0 {
        lemma_indent_blank((level - 1) as nat);
        let text = indent_text(level);
        let front = indent_text((level - 1) as nat);
        assert forall|i: int| 0 <= i < text.len() implies is_space(#[trigger] text[i]) by {
            if i < front.len() {
                assert(text[i] == front[i]);
            } else {
                assert(text[i] == "  "@[i - front.len()]);
            }
        }
    }
}

/// How every operator but the power operator is written.
proof fn lemma_op_text(op: Op)
    requires
        op != Op::Pow,
    ensures
        punct(op_text(op), op_token(op), Some(' ')),
{
    reveal_strlit("+");
    reveal_strlit("-");
    reveal_strlit("*");
    reveal_strlit("/");
    reveal_strlit("%");
    reveal_strlit("&&");
    reveal_strlit("||");
    reveal_strlit("==");
    reveal_strlit("!=");
    reveal_strlit("<");
    reveal_strlit("<=");
    reveal_strlit(">");
    reveal_strlit(">=");
    match op {
        Op::Add => assert("+"@ =~= seq!['+']),
        Op::Sub => assert("-"@ =~= seq!['-']),
        Op::Mul => assert("*"@ =~= seq!['*']),
        Op::Div => assert("/"@ =~= seq!['/']),
        Op::Mod => assert("%"@ =~= seq!['%']),
        Op::And => assert("&&"@ =~= seq!['&', '&']),
        Op::Or => assert("||"@ =~= seq!['|', '|']),
        Op::Eq => assert("=="@ =~= seq!['=', '=']),
        Op::Neq => assert("!="@ =~= seq!['!', '=']),
        Op::Lt => assert("<"@ =~= seq!['<']),
        Op::Leq => assert("<="@ =~= seq!['<', '=']),
        Op::Gt => assert(">"@ =~= seq!['>']),
        Op::Geq => assert(">="@ =~= seq!['>', '=']),
        Op::Pow => {},
    }
}

/// A type reads back from its text.
proof fn lemma_type_spelled(chars: Seq<char>, pos: int, t: TypeView)
    requires
        written_type(t),
        spelled(chars, pos, type_text(t)),
        closed_at(chars, pos + type_text(t).len()),
    ensures
        tokens_from(chars, pos) == before(
            type_tokens(t),
            tokens_from(chars, pos + type_text(t).len()),
        ),
    decreases t,
{
    lemma_start(chars, pos);
    match t {
        TypeView::Int => glue_int_type(chars, pos, Seq::empty(), pos),
        TypeView::Bool => glue_bool_type(chars, pos, Seq::empty(), pos),
        TypeView::String => glue_string_type(chars, pos, Seq::empty(), pos),
        TypeView::Unit => glue_unit_type(chars, pos, Seq::empty(), pos),
        TypeView::Array(inner) => {
            let front = type_text(*inner);
            lemma_spelled_parts(chars, pos, front, "[]"@);
            ends_pair(chars, pos + front.len());
            lemma_type_spelled(chars, pos, *inner);
            lemma_step_tokens(
                chars,
                pos,
                Seq::empty(),
                pos,
                type_tokens(*inner),
                pos + front.len(),
            );
            glue_pair(chars, pos, Seq::empty() + type_tokens(*inner), pos + front.len());
        },
        _ => {},
    }
    assert(Seq::<TokenView>::empty() + type_tokens(t) =~= type_tokens(t));
    match t {
        TypeView::Array(inner) => {
            assert(Seq::<TokenView>::empty() + type_tokens(*inner) + seq![
                TokenView::LeftBracket,
                TokenView::RightBracket,
            ] =~= type_tokens(t));
        },
        TypeView::Int => {
            assert(Seq::<TokenView>::empty() + seq![TokenView::IntType] =~= type_tokens(t));
        },
        TypeView::Bool => {
            assert(Seq::<TokenView>::empty() + seq![TokenView::BoolType] =~= type_tokens(t));
        },
        TypeView::String => {
            assert(Seq::<TokenView>::empty() + seq![TokenView::StringType] =~= type_tokens(t));
        },
        TypeView::Unit => {
            assert(Seq::<TokenView>::empty() + seq![TokenView::UnitType] =~= type_tokens(t));
        },
        _ => {},
    }
}

} // verus!

verus! {

/// Whether an l-value can be written and read back: its name is a name,
/// and its indices can be written.
pub open spec fn writable_lhs(l: LhsView) -> bool
    decreases l,
{
    match l {
        LhsView::Var { id } => is_name(id.value),
        LhsView::Index { lhs, index } => writable_lhs(lhs.value) && writable(index.value),
    }
}

/// Whether every one of the first `n` expressions of a list can be
/// written and read back.
pub open spec fn writable_all(exprs: Seq<SpannedView<ExprView>>, n: nat) -> bool
    decreases exprs, n,
{
    if n == 0 || n > exprs.len() {
        true
    } else {
        writable_all(exprs, (n - 1) as nat) && writable(exprs[n - 1].value)
    }
}

/// Whether an expression can be written and read back: every name in it
/// is a name, no number is negative, every type that it writes down can
/// be written in a source text, and it has no power operator, which the
/// text form writes otherwise than the source does.
pub open spec fn writable(e: ExprView) -> bool
    decreases e,
{
    match e {
        ExprView::Chain { lhs, rhs } => writable(lhs.value) && writable(rhs.value),
        ExprView::Let { id, ty, expr } => is_name(id.value) && written_type(ty.value) && writable(
            expr.value,
        ),
        ExprView::SetLhs { lhs, expr } => writable_lhs(lhs.value) && writable(expr.value),
        ExprView::BinOp { lhs, op, rhs } => op != Op::Pow && writable(lhs.value) && writable(
            rhs.value,
        ),
        ExprView::Not { expr } => writable(expr.value),
        ExprView::While { cond, expr } => writable(cond.value) && writable(expr.value),
        ExprView::IfElse { cond, then, els } => writable(cond.value) && writable(then.value)
            && writable(els.value),
        ExprView::FunCall { id, args } => is_name(id.value) && writable_all(args, args.len()),
        ExprView::NewArray { ty, size, init } => written_type(ty.value) && writable(size.value)
            && writable(init.value),
        ExprView::ArrayIndex { lhs, index } => writable_lhs(lhs.value) && writable(index.value),
        ExprView::Id(id) => is_name(id.value),
        ExprView::Int(n) => n >= 0,
        _ => true,
    }
}

proof fn lemma_writable_at(args: Seq<SpannedView<ExprView>>, n: nat, i: int)
    requires
        writable_all(args, n),
        0 <= i < n <= args.len(),
    ensures
        writable(args[i].value),
    decreases n,
{
    if i < n - 1 {
        lemma_writable_at(args, (n - 1) as nat, i);
    }
}

/// The parts from `from` up to `to`, with the separator between each two
/// neighbours.
pub open spec fn join_from(parts: Seq<Seq<char>>, from: int, to: int, sep: Seq<char>) -> Seq<char>
    decreases to - from,
{
    if from < 0 || from >= to || to > parts.len() {
        Seq::empty()
    } else if from + 1 == to {
        parts[from]
    } else {
        parts[from] + sep + join_from(parts, from + 1, to, sep)
    }
}

proof fn lemma_join_last(parts: Seq<Seq<char>>, from: int, to: int, sep: Seq<char>)
    requires
        0 <= from,
        from + 1 < to <= parts.len(),
    ensures
        join_from(parts, from, to, sep) == join_from(parts, from, to - 1, sep) + sep + parts[to
            - 1],
    decreases to - from,
{
    assert(join_from(parts, from, to, sep) == parts[from] + sep + join_from(
        parts,
        from + 1,
        to,
        sep,
    ));
    if from + 2 == to {
        assert(join_from(parts, from + 1, to, sep) == parts[from + 1]);
        assert(join_from(parts, from, to - 1, sep) == parts[from]);
    } else {
        assert(join_from(parts, from, to - 1, sep) == parts[from] + sep + join_from(
            parts,
            from + 1,
            to - 1,
            sep,
        ));
        lemma_join_last(parts, from + 1, to, sep);
        assert(parts[from] + sep + (join_from(parts, from + 1, to - 1, sep) + sep + parts[to - 1])
            =~= (parts[from] + sep + join_from(parts, from + 1, to - 1, sep)) + sep + parts[to
            - 1]);
    }
}

/// Joining from the front gives what joining from the back gives.
proof fn lemma_join(parts: Seq<Seq<char>>, to: int, sep: Seq<char>)
    requires
        0 <= to <= parts.len(),
    ensures
        join_from(parts, 0, to, sep) == join_texts(parts.take(to), sep),
    decreases to,
{
    let taken = parts.take(to);
    if to >= 2 {
        lemma_join(parts, to - 1, sep);
        lemma_join_last(parts, 0, to, sep);
        assert(taken.drop_last() =~= parts.take(to - 1));
        assert(taken.last() == parts[to - 1]);
    } else if to == 1 {
        assert(taken[0] == parts[0]);
    }
}

proof fn lemma_lhs_first(l: LhsView)
    requires
        writable_lhs(l),
    ensures
        lhs_text(l).len() > 0,
        is_ident_start(lhs_text(l)[0]),
    decreases l,
{
    match l {
        LhsView::Var { id } => {},
        LhsView::Index { lhs, index } => {
            lemma_lhs_first(lhs.value);
        },
    }
}

/// No expression starts with an equals sign.
proof fn lemma_first_char(e: ExprView, level: nat)
    requires
        writable(e),
    ensures
        expr_text(e, level).len() > 0,
        expr_text(e, level)[0] != '=',
    decreases e,
{
    reveal_strlit("(");
    reveal_strlit("let ");
    reveal_strlit("set ");
    reveal_strlit("new ");
    reveal_strlit("if ");
    reveal_strlit("while ");
    reveal_strlit("!");
    reveal_strlit("true");
    reveal_strlit("false");
    reveal_strlit("unit");
    reveal_strlit("\"");
    match e {
        ExprView::Chain { lhs, rhs } => {
            lemma_first_char(lhs.value, level);
        },
        ExprView::BinOp { lhs, op, rhs } => {
            lemma_first_char(lhs.value, level);
        },
        ExprView::ArrayIndex { lhs, index } => {
            lemma_lhs_first(lhs.value);
        },
        ExprView::Int(n) => {
            lemma_nat_text(n as nat);
        },
        _ => {},
    }
}

/// An expression reads back from its text.
proof fn lemma_expr_spelled(chars: Seq<char>, pos: int, e: ExprView, level: nat)
    requires
        writable(e),
        spelled(chars, pos, expr_text(e, level)),
        closed_at(chars, pos + expr_text(e, level).len()),
    ensures
        tokens_from(chars, pos) == before(
            expr_tokens(e),
            tokens_from(chars, pos + expr_text(e, level).len()),
        ),
    decreases e, 2nat,
{
    match e {
        ExprView::Chain { .. } => spelled_chain(chars, pos, e, level),
        ExprView::Let { .. } => spelled_let(chars, pos, e, level),
        ExprView::SetLhs { .. } => spelled_set(chars, pos, e, level),
        ExprView::BinOp { .. } => spelled_binary(chars, pos, e, level),
        ExprView::Not { .. } => spelled_not(chars, pos, e, level),
        ExprView::While { .. } => spelled_while(chars, pos, e, level),
        ExprView::IfElse { .. } => spelled_if(chars, pos, e, level),
        ExprView::FunCall { .. } => spelled_call(chars, pos, e, level),
        ExprView::NewArray { .. } => spelled_new(chars, pos, e, level),
        ExprView::ArrayIndex { .. } => spelled_index(chars, pos, e, level),
        ExprView::Id(id) => {
            assert(is_word(id.value));
            lemma_word(chars, pos, id.value);
        },
        ExprView::Int(n) => {
            lemma_number(chars, pos, n as nat);
        },
        ExprView::String(s) => {
            reveal_strlit("\"");
            lemma_string(chars, pos, s);
        },
        ExprView::Bool(b) => {
            lemma_start(chars, pos);
            if b {
                glue_true(chars, pos, Seq::empty(), pos);
                assert(Seq::<TokenView>::empty() + seq![TokenView::True] =~= expr_tokens(e));
            } else {
                glue_false(chars, pos, Seq::empty(), pos);
                assert(Seq::<TokenView>::empty() + seq![TokenView::False] =~= expr_tokens(e));
            }
        },
        ExprView::Unit => {
            lemma_start(chars, pos);
            glue_unit(chars, pos, Seq::empty(), pos);
            assert(Seq::<TokenView>::empty() + seq![TokenView::Unit] =~= expr_tokens(e));
        },
    }
}

/// An operand reads back from its text, in brackets where it binds less
/// tightly than its place asks.
proof fn lemma_operand_spelled(chars: Seq<char>, pos: int, e: ExprView, level: nat, min: nat)
    requires
        writable(e),
        spelled(chars, pos, in_brackets(expr_text(e, level), strength(e) >= min)),
        closed_at(chars, pos + in_brackets(expr_text(e, level), strength(e) >= min).len()),
    ensures
        tokens_from(chars, pos) == before(
            operand_tokens(e, min),
            tokens_from(
                chars,
                pos + in_brackets(expr_text(e, level), strength(e) >= min).len(),
            ),
        ),
    decreases e, 3nat,
{
    if strength(e) >= min {
        lemma_expr_spelled(chars, pos, e, level);
    } else {
        let text = expr_text(e, level);
        lemma_spelled_parts(chars, pos, "("@ + text, ")"@);
        lemma_spelled_parts(chars, pos, "("@, text);
        lemma_start(chars, pos);
        glue_open(chars, pos, Seq::empty(), pos);
        ends_close(chars, pos + 1 + text.len());
        lemma_expr_spelled(chars, pos + 1, e, level);
        let got = Seq::<TokenView>::empty() + seq![TokenView::LeftParen];
        lemma_step_tokens(chars, pos, got, pos + 1, expr_tokens(e), pos + 1 + text.len());
        glue_close(chars, pos, got + expr_tokens(e), pos + 1 + text.len());
        assert(got + expr_tokens(e) + seq![TokenView::RightParen] =~= operand_tokens(e, min));
    }
}

proof fn spelled_binary(chars: Seq<char>, pos: int, e: ExprView, level: nat)
    requires
        writable(e),
        spelled(chars, pos, expr_text(e, level)),
        closed_at(chars, pos + expr_text(e, level).len()),
        e is BinOp,
    ensures
        tokens_from(chars, pos) == before(
            expr_tokens(e),
            tokens_from(chars, pos + expr_text(e, level).len()),
        ),
    decreases e, 1nat,
{
    match e {
        ExprView::BinOp { lhs, op, rhs } => {
            let a = in_brackets(
                expr_text(lhs.value, level),
                strength(lhs.value) >= left_strength(op),
            );
            let b = in_brackets(
                expr_text(rhs.value, level),
                strength(rhs.value) >= right_strength(op),
            );
            let sign = op_text(op);
            reveal_strlit(" ");
            lemma_op_text(op);
            assert(expr_text(e, level) =~= (((a + " "@) + sign) + " "@) + b);
            lemma_spelled_parts(chars, pos, ((a + " "@) + sign) + " "@, b);
            lemma_spelled_parts(chars, pos, (a + " "@) + sign, " "@);
            lemma_spelled_parts(chars, pos, a + " "@, sign);
            lemma_spelled_parts(chars, pos, a, " "@);
            ends_space(chars, pos + a.len());
            lemma_operand_spelled(chars, pos, lhs.value, level, left_strength(op));
            let first = operand_tokens(lhs.value, left_strength(op));
            let mid = pos + a.len();
            assert(spelled(chars, mid, " "@ + sign + " "@)) by {
                let glue = " "@ + sign + " "@;
                assert forall|i: int| 0 <= i < glue.len() implies #[trigger] chars[mid + i]
                    == glue[i] by {
                    if i < 1 {
                        assert(chars[mid + i] == " "@[i]);
                    } else if i < 1 + sign.len() {
                        assert(chars[mid + 1 + (i - 1)] == sign[i - 1]);
                    } else {
                        assert(chars[mid + 1 + sign.len() + (i - 1 - sign.len())] == " "@[i - 1
                            - sign.len()]);
                    }
                }
            }
            lemma_glue_punct(chars, pos, first, mid, " "@, sign, " "@, op_token(op));
            lemma_operand_spelled(
                chars,
                mid + 1 + sign.len() + 1,
                rhs.value,
                level,
                right_strength(op),
            );
            lemma_step_tokens(
                chars,
                pos,
                first + seq![op_token(op)],
                mid + 1 + sign.len() + 1,
                operand_tokens(rhs.value, right_strength(op)),
                pos + expr_text(e, level).len(),
            );
        },
        _ => {},
    }
}

proof fn spelled_not(chars: Seq<char>, pos: int, e: ExprView, level: nat)
    requires
        writable(e),
        spelled(chars, pos, expr_text(e, level)),
        closed_at(chars, pos + expr_text(e, level).len()),
        e is Not,
    ensures
        tokens_from(chars, pos) == before(
            expr_tokens(e),
            tokens_from(chars, pos + expr_text(e, level).len()),
        ),
    decreases e, 1nat,
{
    match e {
        ExprView::Not { expr } => {
            let a = in_brackets(expr_text(expr.value, level), strength(expr.value) >= 10);
            lemma_spelled_parts(chars, pos, "!"@, a);
            reveal_strlit("!");
            reveal_strlit("(");
            lemma_first_char(expr.value, level);
            assert(a.len() > 0 && a[0] != '=');
            assert(chars[pos + 1 + 0] == a[0]);
            lemma_start(chars, pos);
            glue_not(chars, pos, Seq::empty(), pos);
            lemma_operand_spelled(chars, pos + 1, expr.value, level, 10);
            lemma_step_tokens(
                chars,
                pos,
                Seq::empty() + seq![TokenView::Not],
                pos + 1,
                operand_tokens(expr.value, 10),
                pos + 1 + a.len(),
            );
            assert(Seq::<TokenView>::empty() + seq![TokenView::Not] + operand_tokens(
                expr.value,
                10,
            ) =~= expr_tokens(e));
        },
        _ => {},
    }
}

proof fn spelled_chain(chars: Seq<char>, pos: int, e: ExprView, level: nat)
    requires
        writable(e),
        spelled(chars, pos, expr_text(e, level)),
        closed_at(chars, pos + expr_text(e, level).len()),
        e is Chain,
    ensures
        tokens_from(chars, pos) == before(
            expr_tokens(e),
            tokens_from(chars, pos + expr_text(e, level).len()),
        ),
    decreases e, 1nat,
{
    match e {
        ExprView::Chain { lhs, rhs } => {
            let a = in_brackets(expr_text(lhs.value, level), strength(lhs.value) >= 1);
            let pad = indent_text(level);
            let b = expr_text(rhs.value, level);
            assert(expr_text(e, level) =~= ((a + ";\n"@) + pad) + b);
            lemma_spelled_parts(chars, pos, (a + ";\n"@) + pad, b);
            lemma_spelled_parts(chars, pos, a + ";\n"@, pad);
            lemma_spelled_parts(chars, pos, a, ";\n"@);
            ends_semicolon(chars, pos + a.len());
            lemma_indent_blank(level);
            lemma_operand_spelled(chars, pos, lhs.value, level, 1);
            let first = operand_tokens(lhs.value, 1);
            glue_semicolon(chars, pos, first, pos + a.len());
            lemma_step_gap(chars, pos, first + seq![TokenView::Semicolon], pos + a.len() + 2, pad);
            lemma_expr_spelled(chars, pos + a.len() + 2 + pad.len(), rhs.value, level);
            lemma_step_tokens(
                chars,
                pos,
                first + seq![TokenView::Semicolon],
                pos + a.len() + 2 + pad.len(),
                expr_tokens(rhs.value),
                pos + expr_text(e, level).len(),
            );
        },
        _ => {},
    }
}

proof fn spelled_let(chars: Seq<char>, pos: int, e: ExprView, level: nat)
    requires
        writable(e),
        spelled(chars, pos, expr_text(e, level)),
        closed_at(chars, pos + expr_text(e, level).len()),
        e is Let,
    ensures
        tokens_from(chars, pos) == before(
            expr_tokens(e),
            tokens_from(chars, pos + expr_text(e, level).len()),
        ),
    decreases e, 1nat,
{
    match e {
        ExprView::Let { id, ty, expr } => {
            let name = id.value;
            let written = type_text(ty.value);
            let b = in_brackets(expr_text(expr.value, level), strength(expr.value) >= 2);
            assert(expr_text(e, level) =~= (((("let "@ + name) + " : "@) + written) + " = "@) + b);
            lemma_spelled_parts(chars, pos, ((("let "@ + name) + " : "@) + written) + " = "@, b);
            lemma_spelled_parts(chars, pos, (("let "@ + name) + " : "@) + written, " = "@);
            lemma_spelled_parts(chars, pos, ("let "@ + name) + " : "@, written);
            lemma_spelled_parts(chars, pos, "let "@ + name, " : "@);
            lemma_spelled_parts(chars, pos, "let "@, name);
            lemma_start(chars, pos);
            glue_let(chars, pos, Seq::empty(), pos);
            let at_name = pos + 4;
            ends_colon(chars, at_name + name.len());
            assert(is_word(name));
            lemma_word(chars, at_name, name);
            let got1 = Seq::<TokenView>::empty() + seq![TokenView::Let];
            lemma_step_tokens(
                chars,
                pos,
                got1,
                at_name,
                seq![TokenView::Id(name)],
                at_name + name.len(),
            );
            let got2 = got1 + seq![TokenView::Id(name)];
            glue_colon(chars, pos, got2, at_name + name.len());
            let at_type = at_name + name.len() + 3;
            ends_assign(chars, at_type + written.len());
            lemma_type_spelled(chars, at_type, ty.value);
            let got3 = got2 + seq![TokenView::Colon];
            lemma_step_tokens(
                chars,
                pos,
                got3,
                at_type,
                type_tokens(ty.value),
                at_type + written.len(),
            );
            let got4 = got3 + type_tokens(ty.value);
            glue_assign(chars, pos, got4, at_type + written.len());
            let at_init = at_type + written.len() + 3;
            lemma_operand_spelled(chars, at_init, expr.value, level, 2);
            let got5 = got4 + seq![TokenView::Assign];
            lemma_step_tokens(
                chars,
                pos,
                got5,
                at_init,
                operand_tokens(expr.value, 2),
                pos + expr_text(e, level).len(),
            );
            assert(got5 + operand_tokens(expr.value, 2) =~= expr_tokens(e));
        },
        _ => {},
    }
}

proof fn spelled_while(chars: Seq<char>, pos: int, e: ExprView, level: nat)
    requires
        writable(e),
        spelled(chars, pos, expr_text(e, level)),
        closed_at(chars, pos + expr_text(e, level).len()),
        e is While,
    ensures
        tokens_from(chars, pos) == before(
            expr_tokens(e),
            tokens_from(chars, pos + expr_text(e, level).len()),
        ),
    decreases e, 1nat,
{
    match e {
        ExprView::While { cond, expr } => {
            let a = in_brackets(expr_text(cond.value, level), strength(cond.value) >= 2);
            let pad = indent_text(level + 1);
            let b = in_brackets(expr_text(expr.value, level + 1), strength(expr.value) >= 2);
            assert(expr_text(e, level) =~= ((("while "@ + a) + " do\n"@) + pad) + b);
            lemma_spelled_parts(chars, pos, (("while "@ + a) + " do\n"@) + pad, b);
            lemma_spelled_parts(chars, pos, ("while "@ + a) + " do\n"@, pad);
            lemma_spelled_parts(chars, pos, "while "@ + a, " do\n"@);
            lemma_spelled_parts(chars, pos, "while "@, a);
            lemma_indent_blank(level + 1);
            lemma_start(chars, pos);
            glue_while(chars, pos, Seq::empty(), pos);
            let at_cond = pos + 6;
            ends_do(chars, at_cond + a.len());
            lemma_operand_spelled(chars, at_cond, cond.value, level, 2);
            let got1 = Seq::<TokenView>::empty() + seq![TokenView::While];
            lemma_step_tokens(
                chars,
                pos,
                got1,
                at_cond,
                operand_tokens(cond.value, 2),
                at_cond + a.len(),
            );
            let got2 = got1 + operand_tokens(cond.value, 2);
            glue_do(chars, pos, got2, at_cond + a.len());
            let got3 = got2 + seq![TokenView::Do];
            lemma_step_gap(chars, pos, got3, at_cond + a.len() + 4, pad);
            let at_body = at_cond + a.len() + 4 + pad.len();
            lemma_operand_spelled(chars, at_body, expr.value, level + 1, 2);
            lemma_step_tokens(
                chars,
                pos,
                got3,
                at_body,
                operand_tokens(expr.value, 2),
                pos + expr_text(e, level).len(),
            );
            assert(got3 + operand_tokens(expr.value, 2) =~= expr_tokens(e));
        },
        _ => {},
    }
}

proof fn lemma_if_parts(
    chars: Seq<char>,
    pos: int,
    a: Seq<char>,
    deep: Seq<char>,
    b: Seq<char>,
    pad: Seq<char>,
    c: Seq<char>,
)
    requires
        spelled(
            chars,
            pos,
            (((((((("if "@ + a) + " then\n"@) + deep) + b) + "\n"@) + pad) + "else\n"@) + deep) + c,
        ),
    ensures
        spelled(chars, pos, "if "@),
        spelled(chars, pos + 3, a),
        spelled(chars, pos + 3 + a.len(), " then\n"@),
        spelled(chars, pos + 3 + a.len() + 6, deep),
        spelled(chars, pos + 3 + a.len() + 6 + deep.len(), b),
        spelled(chars, pos + 3 + a.len() + 6 + deep.len() + b.len(), "\n"@),
        spelled(chars, pos + 3 + a.len() + 6 + deep.len() + b.len() + 1, pad),
        spelled(chars, pos + 3 + a.len() + 6 + deep.len() + b.len() + 1 + pad.len(), "else\n"@),
        spelled(
            chars,
            pos + 3 + a.len() + 6 + deep.len() + b.len() + 1 + pad.len() + 5,
            deep,
        ),
        spelled(
            chars,
            pos + 3 + a.len() + 6 + deep.len() + b.len() + 1 + pad.len() + 5 + deep.len(),
            c,
        ),
        ((((((((("if "@ + a) + " then\n"@) + deep) + b) + "\n"@) + pad) + "else\n"@) + deep)
            + c).len() == 3 + a.len() + 6 + deep.len() + b.len() + 1 + pad.len() + 5 + deep.len()
            + c.len(),
{
    reveal_strlit("if ");
    reveal_strlit(" then\n");
    reveal_strlit("\n");
    reveal_strlit("else\n");
    lemma_spelled_parts(
        chars,
        pos,
        ((((((("if "@ + a) + " then\n"@) + deep) + b) + "\n"@) + pad) + "else\n"@) + deep,
        c,
    );
    lemma_spelled_parts(
        chars,
        pos,
        (((((("if "@ + a) + " then\n"@) + deep) + b) + "\n"@) + pad) + "else\n"@,
        deep,
    );
    lemma_spelled_parts(
        chars,
        pos,
        ((((("if "@ + a) + " then\n"@) + deep) + b) + "\n"@) + pad,
        "else\n"@,
    );
    lemma_spelled_parts(chars, pos, (((("if "@ + a) + " then\n"@) + deep) + b) + "\n"@, pad);
    lemma_spelled_parts(chars, pos, ((("if "@ + a) + " then\n"@) + deep) + b, "\n"@);
    lemma_spelled_parts(chars, pos, (("if "@ + a) + " then\n"@) + deep, b);
    lemma_spelled_parts(chars, pos, ("if "@ + a) + " then\n"@, deep);
    lemma_spelled_parts(chars, pos, "if "@ + a, " then\n"@);
    lemma_spelled_parts(chars, pos, "if "@, a);
}

proof fn lemma_if_steps(
    chars: Seq<char>,
    pos: int,
    a: Seq<char>,
    deep: Seq<char>,
    b: Seq<char>,
    pad: Seq<char>,
    c: Seq<char>,
    first: Seq<TokenView>,
    second: Seq<TokenView>,
    third: Seq<TokenView>,
)
    requires
        blank(deep),
        blank(pad),
        spelled(chars, pos, "if "@),
        spelled(chars, pos + 3 + a.len(), " then\n"@),
        spelled(chars, pos + 3 + a.len() + 6, deep),
        spelled(chars, pos + 3 + a.len() + 6 + deep.len() + b.len(), "\n"@),
        spelled(chars, pos + 3 + a.len() + 6 + deep.len() + b.len() + 1, pad),
        spelled(chars, pos + 3 + a.len() + 6 + deep.len() + b.len() + 1 + pad.len(), "else\n"@),
        spelled(
            chars,
            pos + 3 + a.len() + 6 + deep.len() + b.len() + 1 + pad.len() + 5,
            deep,
        ),
        tokens_from(chars, pos + 3) == before(first, tokens_from(chars, pos + 3 + a.len())),
        tokens_from(chars, pos + 3 + a.len() + 6 + deep.len()) == before(
            second,
            tokens_from(chars, pos + 3 + a.len() + 6 + deep.len() + b.len()),
        ),
        tokens_from(
            chars,
            pos + 3 + a.len() + 6 + deep.len() + b.len() + 1 + pad.len() + 5 + deep.len(),
        ) == before(
            third,
            tokens_from(
                chars,
                pos + 3 + a.len() + 6 + deep.len() + b.len() + 1 + pad.len() + 5 + deep.len()
                    + c.len(),
            ),
        ),
    ensures
        tokens_from(chars, pos) == before(
            seq![TokenView::If] + first + seq![TokenView::Then] + second + seq![TokenView::Else]
                + third,
            tokens_from(
                chars,
                pos + 3 + a.len() + 6 + deep.len() + b.len() + 1 + pad.len() + 5 + deep.len()
                    + c.len(),
            ),
        ),
{
    reveal_strlit("\n");
    lemma_start(chars, pos);
    glue_if(chars, pos, Seq::empty(), pos);
    let at_cond = pos + 3;
    let got1 = Seq::<TokenView>::empty() + seq![TokenView::If];
    lemma_step_tokens(chars, pos, got1, at_cond, first, at_cond + a.len());
    let got2 = got1 + first;
    glue_then(chars, pos, got2, at_cond + a.len());
    let got3 = got2 + seq![TokenView::Then];
    lemma_step_gap(chars, pos, got3, at_cond + a.len() + 6, deep);
    let at_then = at_cond + a.len() + 6 + deep.len();
    lemma_step_tokens(chars, pos, got3, at_then, second, at_then + b.len());
    let got4 = got3 + second;
    assert(blank("\n"@));
    lemma_step_gap(chars, pos, got4, at_then + b.len(), "\n"@);
    lemma_step_gap(chars, pos, got4, at_then + b.len() + 1, pad);
    let at_else = at_then + b.len() + 1 + pad.len();
    glue_else(chars, pos, got4, at_else);
    let got5 = got4 + seq![TokenView::Else];
    lemma_step_gap(chars, pos, got5, at_else + 5, deep);
    let at_els = at_else + 5 + deep.len();
    lemma_step_tokens(chars, pos, got5, at_els, third, at_els + c.len());
    assert(got5 + third =~= seq![TokenView::If] + first + seq![TokenView::Then] + second + seq![
        TokenView::Else,
    ] + third);
}

proof fn spelled_if(chars: Seq<char>, pos: int, e: ExprView, level: nat)
    requires
        writable(e),
        spelled(chars, pos, expr_text(e, level)),
        closed_at(chars, pos + expr_text(e, level).len()),
        e is IfElse,
    ensures
        tokens_from(chars, pos) == before(
            expr_tokens(e),
            tokens_from(chars, pos + expr_text(e, level).len()),
        ),
    decreases e, 1nat,
{
    match e {
        ExprView::IfElse { cond, then, els } => {
            let a = in_brackets(expr_text(cond.value, level), strength(cond.value) >= 2);
            let deep = indent_text(level + 1);
            let pad = indent_text(level);
            let b = in_brackets(expr_text(then.value, level + 1), strength(then.value) >= 2);
            let c = in_brackets(expr_text(els.value, level + 1), strength(els.value) >= 2);
            lemma_if_parts(chars, pos, a, deep, b, pad, c);
            lemma_indent_blank(level + 1);
            lemma_indent_blank(level);
            let at_cond = pos + 3;
            let at_then = at_cond + a.len() + 6 + deep.len();
            let at_els = at_then + b.len() + 1 + pad.len() + 5 + deep.len();
            ends_then(chars, at_cond + a.len());
            ends_line(chars, at_then + b.len());
            lemma_operand_spelled(chars, at_cond, cond.value, level, 2);
            lemma_operand_spelled(chars, at_then, then.value, level + 1, 2);
            lemma_operand_spelled(chars, at_els, els.value, level + 1, 2);
            lemma_if_steps(
                chars,
                pos,
                a,
                deep,
                b,
                pad,
                c,
                operand_tokens(cond.value, 2),
                operand_tokens(then.value, 2),
                operand_tokens(els.value, 2),
            );
        },
        _ => {},
    }
}

/// An l-value reads back from its text.
proof fn lemma_lhs_spelled(chars: Seq<char>, pos: int, l: LhsView)
    requires
        writable_lhs(l),
        spelled(chars, pos, lhs_text(l)),
        closed_at(chars, pos + lhs_text(l).len()),
    ensures
        tokens_from(chars, pos) == before(
            lhs_tokens(l),
            tokens_from(chars, pos + lhs_text(l).len()),
        ),
    decreases l, 1nat,
{
    match l {
        LhsView::Var { id } => {
            assert(is_word(id.value));
            lemma_word(chars, pos, id.value);
        },
        LhsView::Index { lhs, index } => {
            let a = lhs_text(lhs.value);
            let b = expr_text(index.value, 0);
            assert(lhs_text(l) =~= ((a + "["@) + b) + "]"@);
            lemma_spelled_parts(chars, pos, (a + "["@) + b, "]"@);
            lemma_spelled_parts(chars, pos, a + "["@, b);
            lemma_spelled_parts(chars, pos, a, "["@);
            ends_open_square(chars, pos + a.len());
            lemma_lhs_spelled(chars, pos, lhs.value);
            let got1 = lhs_tokens(lhs.value);
            glue_open_square(chars, pos, got1, pos + a.len());
            ends_close_square(chars, pos + a.len() + 1 + b.len());
            lemma_expr_spelled(chars, pos + a.len() + 1, index.value, 0);
            let got2 = got1 + seq![TokenView::LeftBracket];
            lemma_step_tokens(
                chars,
                pos,
                got2,
                pos + a.len() + 1,
                expr_tokens(index.value),
                pos + a.len() + 1 + b.len(),
            );
            glue_close_square(
                chars,
                pos,
                got2 + expr_tokens(index.value),
                pos + a.len() + 1 + b.len(),
            );
        },
    }
}

proof fn spelled_index(chars: Seq<char>, pos: int, e: ExprView, level: nat)
    requires
        writable(e),
        spelled(chars, pos, expr_text(e, level)),
        closed_at(chars, pos + expr_text(e, level).len()),
        e is ArrayIndex,
    ensures
        tokens_from(chars, pos) == before(
            expr_tokens(e),
            tokens_from(chars, pos + expr_text(e, level).len()),
        ),
    decreases e, 1nat,
{
    match e {
        ExprView::ArrayIndex { lhs, index } => {
            let a = lhs_text(lhs.value);
            let b = expr_text(index.value, level);
            assert(expr_text(e, level) =~= ((a + "["@) + b) + "]"@);
            lemma_spelled_parts(chars, pos, (a + "["@) + b, "]"@);
            lemma_spelled_parts(chars, pos, a + "["@, b);
            lemma_spelled_parts(chars, pos, a, "["@);
            ends_open_square(chars, pos + a.len());
            lemma_lhs_spelled(chars, pos, lhs.value);
            let got1 = lhs_tokens(lhs.value);
            glue_open_square(chars, pos, got1, pos + a.len());
            ends_close_square(chars, pos + a.len() + 1 + b.len());
            lemma_expr_spelled(chars, pos + a.len() + 1, index.value, level);
            let got2 = got1 + seq![TokenView::LeftBracket];
            lemma_step_tokens(
                chars,
                pos,
                got2,
                pos + a.len() + 1,
                expr_tokens(index.value),
                pos + a.len() + 1 + b.len(),
            );
            glue_close_square(
                chars,
                pos,
                got2 + expr_tokens(index.value),
                pos + a.len() + 1 + b.len(),
            );
        },
        _ => {},
    }
}

proof fn spelled_set(chars: Seq<char>, pos: int, e: ExprView, level: nat)
    requires
        writable(e),
        spelled(chars, pos, expr_text(e, level)),
        closed_at(chars, pos + expr_text(e, level).len()),
        e is SetLhs,
    ensures
        tokens_from(chars, pos) == before(
            expr_tokens(e),
            tokens_from(chars, pos + expr_text(e, level).len()),
        ),
    decreases e, 1nat,
{
    match e {
        ExprView::SetLhs { lhs, expr } => {
            let a = lhs_text(lhs.value);
            let b = in_brackets(expr_text(expr.value, level), strength(expr.value) >= 2);
            assert(expr_text(e, level) =~= (("set "@ + a) + " = "@) + b);
            lemma_spelled_parts(chars, pos, ("set "@ + a) + " = "@, b);
            lemma_spelled_parts(chars, pos, "set "@ + a, " = "@);
            lemma_spelled_parts(chars, pos, "set "@, a);
            lemma_start(chars, pos);
            glue_set(chars, pos, Seq::empty(), pos);
            let at_lhs = pos + 4;
            ends_assign(chars, at_lhs + a.len());
            lemma_lhs_spelled(chars, at_lhs, lhs.value);
            let got1 = Seq::<TokenView>::empty() + seq![TokenView::SetKw];
            lemma_step_tokens(chars, pos, got1, at_lhs, lhs_tokens(lhs.value), at_lhs + a.len());
            let got2 = got1 + lhs_tokens(lhs.value);
            glue_assign(chars, pos, got2, at_lhs + a.len());
            let got3 = got2 + seq![TokenView::Assign];
            let at_value = at_lhs + a.len() + 3;
            lemma_operand_spelled(chars, at_value, expr.value, level, 2);
            lemma_step_tokens(
                chars,
                pos,
                got3,
                at_value,
                operand_tokens(expr.value, 2),
                pos + expr_text(e, level).len(),
            );
            assert(got3 + operand_tokens(expr.value, 2) =~= expr_tokens(e));
        },
        _ => {},
    }
}

proof fn spelled_new(chars: Seq<char>, pos: int, e: ExprView, level: nat)
    requires
        writable(e),
        spelled(chars, pos, expr_text(e, level)),
        closed_at(chars, pos + expr_text(e, level).len()),
        e is NewArray,
    ensures
        tokens_from(chars, pos) == before(
            expr_tokens(e),
            tokens_from(chars, pos + expr_text(e, level).len()),
        ),
    decreases e, 1nat,
{
    match e {
        ExprView::NewArray { ty, size, init } => {
            let written = type_text(ty.value);
            let a = expr_text(size.value, level);
            let b = expr_text(init.value, level);
            assert(expr_text(e, level) =~= ((((("new "@ + written) + "["@) + a) + " | "@) + b)
                + "]"@);
            lemma_spelled_parts(
                chars,
                pos,
                (((("new "@ + written) + "["@) + a) + " | "@) + b,
                "]"@,
            );
            lemma_spelled_parts(chars, pos, ((("new "@ + written) + "["@) + a) + " | "@, b);
            lemma_spelled_parts(chars, pos, (("new "@ + written) + "["@) + a, " | "@);
            lemma_spelled_parts(chars, pos, ("new "@ + written) + "["@, a);
            lemma_spelled_parts(chars, pos, "new "@ + written, "["@);
            lemma_spelled_parts(chars, pos, "new "@, written);
            lemma_start(chars, pos);
            glue_new(chars, pos, Seq::empty(), pos);
            let at_type = pos + 4;
            ends_open_square(chars, at_type + written.len());
            lemma_type_spelled(chars, at_type, ty.value);
            let got1 = Seq::<TokenView>::empty() + seq![TokenView::New];
            lemma_step_tokens(
                chars,
                pos,
                got1,
                at_type,
                type_tokens(ty.value),
                at_type + written.len(),
            );
            let got2 = got1 + type_tokens(ty.value);
            glue_open_square(chars, pos, got2, at_type + written.len());
            let got3 = got2 + seq![TokenView::LeftBracket];
            let at_size = at_type + written.len() + 1;
            ends_pipe(chars, at_size + a.len());
            lemma_expr_spelled(chars, at_size, size.value, level);
            lemma_step_tokens(
                chars,
                pos,
                got3,
                at_size,
                expr_tokens(size.value),
                at_size + a.len(),
            );
            let got4 = got3 + expr_tokens(size.value);
            glue_pipe(chars, pos, got4, at_size + a.len());
            let got5 = got4 + seq![TokenView::Pipe];
            let at_init = at_size + a.len() + 3;
            ends_close_square(chars, at_init + b.len());
            lemma_expr_spelled(chars, at_init, init.value, level);
            lemma_step_tokens(
                chars,
                pos,
                got5,
                at_init,
                expr_tokens(init.value),
                at_init + b.len(),
            );
            let got6 = got5 + expr_tokens(init.value);
            glue_close_square(chars, pos, got6, at_init + b.len());
            assert(got6 + seq![TokenView::RightBracket] =~= expr_tokens(e));
        },
        _ => {},
    }
}

/// The arguments of a call from the argument `from` on read back from
/// their text, up to and with the closing bracket.
proof fn lemma_args_spelled(
    chars: Seq<char>,
    pos: int,
    args: Seq<SpannedView<ExprView>>,
    level: nat,
    from: int,
)
    requires
        writable_all(args, args.len()),
        0 <= from < args.len(),
        spelled(
            chars,
            pos,
            join_from(expr_texts(args, level), from, args.len() as int, ", "@) + ")"@,
        ),
    ensures
        tokens_from(chars, pos) == before(
            args_tokens(args, from as nat),
            tokens_from(
                chars,
                pos + join_from(expr_texts(args, level), from, args.len() as int, ", "@).len() + 1,
            ),
        ),
    decreases args, args.len() - from,
{
    let parts = expr_texts(args, level);
    let n = args.len() as int;
    let arg = args[from].value;
    let a = expr_text(arg, level);
    assert(parts[from] == a);
    lemma_writable_at(args, args.len(), from);
    reveal_strlit(")");
    if from + 1 == n {
        lemma_spelled_parts(chars, pos, a, ")"@);
        ends_close(chars, pos + a.len());
        lemma_expr_spelled(chars, pos, arg, level);
        glue_close(chars, pos, expr_tokens(arg), pos + a.len());
    } else {
        let rest = join_from(parts, from + 1, n, ", "@);
        assert(join_from(parts, from, n, ", "@) + ")"@ =~= (a + ", "@) + (rest + ")"@));
        lemma_spelled_parts(chars, pos, a + ", "@, rest + ")"@);
        lemma_spelled_parts(chars, pos, a, ", "@);
        ends_comma(chars, pos + a.len());
        lemma_expr_spelled(chars, pos, arg, level);
        glue_comma(chars, pos, expr_tokens(arg), pos + a.len());
        lemma_args_spelled(chars, pos + a.len() + 2, args, level, from + 1);
        lemma_step_tokens(
            chars,
            pos,
            expr_tokens(arg) + seq![TokenView::Comma],
            pos + a.len() + 2,
            args_tokens(args, (from + 1) as nat),
            pos + join_from(parts, from, n, ", "@).len() + 1,
        );
    }
}

proof fn spelled_call(chars: Seq<char>, pos: int, e: ExprView, level: nat)
    requires
        writable(e),
        spelled(chars, pos, expr_text(e, level)),
        closed_at(chars, pos + expr_text(e, level).len()),
        e is FunCall,
    ensures
        tokens_from(chars, pos) == before(
            expr_tokens(e),
            tokens_from(chars, pos + expr_text(e, level).len()),
        ),
    decreases e, 1nat,
{
    match e {
        ExprView::FunCall { id, args } => {
            let name = id.value;
            let parts = expr_texts(args, level);
            let joined = join_texts(parts, ", "@);
            reveal_strlit(")");
            reveal_strlit("(");
            assert(expr_text(e, level) =~= ((name + "("@) + joined) + ")"@);
            lemma_spelled_parts(chars, pos, (name + "("@) + joined, ")"@);
            lemma_spelled_parts(chars, pos, name + "("@, joined);
            lemma_spelled_parts(chars, pos, name, "("@);
            ends_open(chars, pos + name.len());
            assert(is_word(name));
            lemma_word(chars, pos, name);
            glue_open(chars, pos, seq![TokenView::Id(name)], pos + name.len());
            let got = seq![TokenView::Id(name)] + seq![TokenView::LeftParen];
            assert(got =~= seq![TokenView::Id(name), TokenView::LeftParen]);
            let at_args = pos + name.len() + 1;
            if args.len() == 0 {
                assert(joined.len() == 0);
                glue_close(chars, pos, got, at_args);
            } else {
                lemma_join(parts, parts.len() as int, ", "@);
                assert(parts.take(parts.len() as int) =~= parts);
                assert(join_from(parts, 0, args.len() as int, ", "@) == joined);
                assert(spelled(chars, at_args, joined + ")"@)) by {
                    let both = joined + ")"@;
                    reveal_strlit(")");
                    assert forall|i: int| 0 <= i < both.len() implies #[trigger] chars[at_args
                        + i] == both[i] by {
                        if i < joined.len() {
                            assert(chars[at_args + i] == joined[i]);
                        } else {
                            assert(chars[at_args + joined.len() + (i - joined.len())] == ")"@[i
                                - joined.len()]);
                        }
                    }
                }
                lemma_args_spelled(chars, at_args, args, level, 0);
                lemma_step_tokens(
                    chars,
                    pos,
                    got,
                    at_args,
                    args_tokens(args, 0),
                    pos + expr_text(e, level).len(),
                );
            }
        },
        _ => {},
    }
}

} // verus!

verus! {

/// Whether every one of the names is a name.
pub open spec fn names(ids: Seq<SpannedView<Seq<char>>>) -> bool {
    forall|i: int| 0 <= i < ids.len() ==> is_name((#[trigger] ids[i]).value)
}

/// Whether a declaration can be written and read back: its name and the
/// names of its parameters are names, its types can be written in a
/// source text, a function has the type of a function, and its body can
/// be written and read back.
pub open spec fn writable_decl(d: DeclView) -> bool {
    match d {
        DeclView::Var { id, ty, expr } => is_name(id.value) && written_type(ty.value) && writable(
            expr.value,
        ),
        DeclView::Fun { id, params, ty, expr } => is_name(id.value) && names(params) && ty.value
            is Fun && written_types(ty.value->Fun_0) && written_type(*ty.value->Fun_1)
            && writable(expr.value),
    }
}

/// Whether every declaration of a program can be written and read back.
pub open spec fn writable_program(p: Seq<SpannedView<DeclView>>) -> bool {
    forall|i: int| 0 <= i < p.len() ==> writable_decl((#[trigger] p[i]).value)
}

proof fn lemma_lhs_readable(l: LhsView)
    requires
        writable_lhs(l),
    ensures
        readable_lhs(l),
    decreases l,
{
    match l {
        LhsView::Var { id } => {},
        LhsView::Index { lhs, index } => {
            lemma_lhs_readable(lhs.value);
            lemma_readable(index.value);
        },
    }
}

proof fn lemma_all_readable(args: Seq<SpannedView<ExprView>>, n: nat)
    requires
        writable_all(args, n),
    ensures
        readable_all(args, n),
    decreases args, n,
{
    if n == 0 || n > args.len() {
    } else {
        lemma_all_readable(args, (n - 1) as nat);
        lemma_readable(args[n - 1].value);
    }
}

/// What can be written and read back can be read back from its tokens.
proof fn lemma_readable(e: ExprView)
    requires
        writable(e),
    ensures
        readable(e),
    decreases e,
{
    match e {
        ExprView::Chain { lhs, rhs } => {
            lemma_readable(lhs.value);
            lemma_readable(rhs.value);
        },
        ExprView::Let { id, ty, expr } => {
            lemma_readable(expr.value);
        },
        ExprView::SetLhs { lhs, expr } => {
            lemma_lhs_readable(lhs.value);
            lemma_readable(expr.value);
        },
        ExprView::BinOp { lhs, op, rhs } => {
            lemma_readable(lhs.value);
            lemma_readable(rhs.value);
        },
        ExprView::Not { expr } => {
            lemma_readable(expr.value);
        },
        ExprView::While { cond, expr } => {
            lemma_readable(cond.value);
            lemma_readable(expr.value);
        },
        ExprView::IfElse { cond, then, els } => {
            lemma_readable(cond.value);
            lemma_readable(then.value);
            lemma_readable(els.value);
        },
        ExprView::FunCall { id, args } => {
            lemma_all_readable(args, args.len());
        },
        ExprView::NewArray { ty, size, init } => {
            lemma_readable(size.value);
            lemma_readable(init.value);
        },
        ExprView::ArrayIndex { lhs, index } => {
            lemma_lhs_readable(lhs.value);
            lemma_readable(index.value);
        },
        _ => {},
    }
}

/// The names of a parameter list from the name `from` on read back from
/// their text, up to and with the closing bracket.
proof fn lemma_params_spelled(
    chars: Seq<char>,
    pos: int,
    params: Seq<SpannedView<Seq<char>>>,
    from: int,
)
    requires
        names(params),
        0 <= from < params.len(),
        spelled(chars, pos, join_from(id_texts(params), from, params.len() as int, ", "@) + ")"@),
    ensures
        tokens_from(chars, pos) == before(
            params_tokens(params, from as nat),
            tokens_from(
                chars,
                pos + join_from(id_texts(params), from, params.len() as int, ", "@).len() + 1,
            ),
        ),
    decreases params.len() - from,
{
    let parts = id_texts(params);
    let n = params.len() as int;
    let name = params[from].value;
    assert(parts[from] == name);
    assert(is_word(name));
    reveal_strlit(")");
    if from + 1 == n {
        lemma_spelled_parts(chars, pos, name, ")"@);
        ends_close(chars, pos + name.len());
        lemma_word(chars, pos, name);
        glue_close(chars, pos, seq![TokenView::Id(name)], pos + name.len());
        assert(seq![TokenView::Id(name)] + seq![TokenView::RightParen] =~= params_tokens(
            params,
            from as nat,
        ));
    } else {
        let rest = join_from(parts, from + 1, n, ", "@);
        assert(join_from(parts, from, n, ", "@) + ")"@ =~= (name + ", "@) + (rest + ")"@));
        lemma_spelled_parts(chars, pos, name + ", "@, rest + ")"@);
        lemma_spelled_parts(chars, pos, name, ", "@);
        ends_comma(chars, pos + name.len());
        lemma_word(chars, pos, name);
        glue_comma(chars, pos, seq![TokenView::Id(name)], pos + name.len());
        lemma_params_spelled(chars, pos + name.len() + 2, params, from + 1);
        lemma_step_tokens(
            chars,
            pos,
            seq![TokenView::Id(name)] + seq![TokenView::Comma],
            pos + name.len() + 2,
            params_tokens(params, (from + 1) as nat),
            pos + join_from(parts, from, n, ", "@).len() + 1,
        );
        assert(seq![TokenView::Id(name)] + seq![TokenView::Comma] + params_tokens(
            params,
            (from + 1) as nat,
        ) =~= params_tokens(params, from as nat));
    }
}

/// The types of a list from the type `from` on read back from their text,
/// up to and with the closing bracket.
proof fn lemma_types_spelled(chars: Seq<char>, pos: int, types: Seq<TypeView>, from: int)
    requires
        written_types(types),
        0 <= from < types.len(),
        spelled(chars, pos, join_from(type_texts(types), from, types.len() as int, ", "@) + ")"@),
    ensures
        tokens_from(chars, pos) == before(
            types_tokens(types, from as nat),
            tokens_from(
                chars,
                pos + join_from(type_texts(types), from, types.len() as int, ", "@).len() + 1,
            ),
        ),
    decreases types.len() - from,
{
    let parts = type_texts(types);
    let n = types.len() as int;
    let t = types[from];
    let a = type_text(t);
    assert(parts[from] == a);
    reveal_strlit(")");
    if from + 1 == n {
        lemma_spelled_parts(chars, pos, a, ")"@);
        ends_close(chars, pos + a.len());
        lemma_type_spelled(chars, pos, t);
        glue_close(chars, pos, type_tokens(t), pos + a.len());
    } else {
        let rest = join_from(parts, from + 1, n, ", "@);
        assert(join_from(parts, from, n, ", "@) + ")"@ =~= (a + ", "@) + (rest + ")"@));
        lemma_spelled_parts(chars, pos, a + ", "@, rest + ")"@);
        lemma_spelled_parts(chars, pos, a, ", "@);
        ends_comma(chars, pos + a.len());
        lemma_type_spelled(chars, pos, t);
        glue_comma(chars, pos, type_tokens(t), pos + a.len());
        lemma_types_spelled(chars, pos + a.len() + 2, types, from + 1);
        lemma_step_tokens(
            chars,
            pos,
            type_tokens(t) + seq![TokenView::Comma],
            pos + a.len() + 2,
            types_tokens(types, (from + 1) as nat),
            pos + join_from(parts, from, n, ", "@).len() + 1,
        );
    }
}

/// What stands between a list in round brackets and what follows it: the
/// closing bracket, and then the rest.
proof fn lemma_split_close(chars: Seq<char>, at: int, glue: Seq<char>)
    requires
        spelled(chars, at, glue),
        glue.len() >= 1,
        glue[0] == ')',
    ensures
        spelled(chars, at, ")"@),
        spelled(chars, at + 1, glue.subrange(1, glue.len() as int)),
{
    reveal_strlit(")");
    let rest = glue.subrange(1, glue.len() as int);
    assert(glue =~= ")"@ + rest);
    lemma_spelled_parts(chars, at, ")"@, rest);
}

/// A list in round brackets reads back: after its opening bracket, the
/// tokens of the list up to and with the closing bracket.
proof fn lemma_joined(chars: Seq<char>, at: int, joined: Seq<char>, glue: Seq<char>)
    requires
        spelled(chars, at, joined),
        spelled(chars, at + joined.len(), glue),
        glue.len() >= 1,
        glue[0] == ')',
    ensures
        spelled(chars, at, joined + ")"@),
{
    lemma_split_close(chars, at + joined.len(), glue);
    reveal_strlit(")");
    let both = joined + ")"@;
    assert forall|i: int| 0 <= i < both.len() implies #[trigger] chars[at + i] == both[i] by {
        if i < joined.len() {
            assert(chars[at + i] == joined[i]);
        } else {
            assert(chars[at + joined.len() + (i - joined.len())] == ")"@[i - joined.len()]);
        }
    }
}

proof fn lemma_after_params(chars: Seq<char>, start: int, got: Seq<TokenView>, at: int)
    requires
        tokens_from(chars, start) == before(got, tokens_from(chars, at)),
        spelled(chars, at - 1, ") : ("@),
    ensures
        tokens_from(chars, start) == before(
            got + seq![TokenView::Colon, TokenView::LeftParen],
            tokens_from(chars, at + 4),
        ),
{
    reveal_strlit(") : (");
    lemma_split_close(chars, at - 1, ") : ("@);
    let rest = ") : ("@.subrange(1, 5);
    let b = seq![' '] + seq![':'] + seq![' '];
    let c = seq!['('];
    assert(rest =~= b + c);
    lemma_spelled_parts(chars, at, b, c);
    assert(c =~= Seq::<char>::empty() + c + Seq::<char>::empty());
    lemma_glue_punct(chars, start, got, at, seq![' '], seq![':'], seq![' '], TokenView::Colon);
    lemma_glue_punct(
        chars,
        start,
        got + seq![TokenView::Colon],
        at + 3,
        Seq::empty(),
        c,
        Seq::empty(),
        TokenView::LeftParen,
    );
    assert(got + seq![TokenView::Colon] + seq![TokenView::LeftParen] =~= got + seq![
        TokenView::Colon,
        TokenView::LeftParen,
    ]);
}

proof fn lemma_after_types(chars: Seq<char>, start: int, got: Seq<TokenView>, at: int)
    requires
        tokens_from(chars, start) == before(got, tokens_from(chars, at)),
        spelled(chars, at - 1, ") -> "@),
    ensures
        tokens_from(chars, start) == before(
            got + seq![TokenView::Arrow],
            tokens_from(chars, at + 4),
        ),
{
    reveal_strlit(") -> ");
    lemma_split_close(chars, at - 1, ") -> "@);
    let rest = ") -> "@.subrange(1, 5);
    assert(rest =~= seq![' '] + seq!['-', '>'] + seq![' ']);
    lemma_glue_punct(
        chars,
        start,
        got,
        at,
        seq![' '],
        seq!['-', '>'],
        seq![' '],
        TokenView::Arrow,
    );
}

proof fn lemma_var_spelled(chars: Seq<char>, pos: int, d: DeclView)
    requires
        writable_decl(d),
        d is Var,
        spelled(chars, pos, decl_text(d, 0)),
        closed_at(chars, pos + decl_text(d, 0).len()),
    ensures
        tokens_from(chars, pos) == before(
            seq![TokenView::Let] + decl_tokens(d),
            tokens_from(chars, pos + decl_text(d, 0).len()),
        ),
{
    match d {
        DeclView::Var { id, ty, expr } => {
            let name = id.value;
            let written = type_text(ty.value);
            let pad = indent_text(1);
            let b = expr_text(expr.value, 1);
            assert(decl_text(d, 0) =~= ((((("let "@ + name) + " : "@) + written) + " =\n"@) + pad)
                + b);
            lemma_spelled_parts(
                chars,
                pos,
                (((("let "@ + name) + " : "@) + written) + " =\n"@) + pad,
                b,
            );
            lemma_spelled_parts(chars, pos, ((("let "@ + name) + " : "@) + written) + " =\n"@, pad);
            lemma_spelled_parts(chars, pos, (("let "@ + name) + " : "@) + written, " =\n"@);
            lemma_spelled_parts(chars, pos, ("let "@ + name) + " : "@, written);
            lemma_spelled_parts(chars, pos, "let "@ + name, " : "@);
            lemma_spelled_parts(chars, pos, "let "@, name);
            lemma_indent_blank(1);
            lemma_start(chars, pos);
            glue_let(chars, pos, Seq::empty(), pos);
            let at_name = pos + 4;
            ends_colon(chars, at_name + name.len());
            assert(is_word(name));
            lemma_word(chars, at_name, name);
            let got1 = Seq::<TokenView>::empty() + seq![TokenView::Let];
            lemma_step_tokens(
                chars,
                pos,
                got1,
                at_name,
                seq![TokenView::Id(name)],
                at_name + name.len(),
            );
            let got2 = got1 + seq![TokenView::Id(name)];
            glue_colon(chars, pos, got2, at_name + name.len());
            let at_type = at_name + name.len() + 3;
            ends_assign_line(chars, at_type + written.len());
            lemma_type_spelled(chars, at_type, ty.value);
            let got3 = got2 + seq![TokenView::Colon];
            lemma_step_tokens(
                chars,
                pos,
                got3,
                at_type,
                type_tokens(ty.value),
                at_type + written.len(),
            );
            let got4 = got3 + type_tokens(ty.value);
            glue_assign_line(chars, pos, got4, at_type + written.len());
            let got5 = got4 + seq![TokenView::Assign];
            lemma_step_gap(chars, pos, got5, at_type + written.len() + 3, pad);
            let at_body = at_type + written.len() + 3 + pad.len();
            lemma_expr_spelled(chars, at_body, expr.value, 1);
            lemma_step_tokens(
                chars,
                pos,
                got5,
                at_body,
                expr_tokens(expr.value),
                pos + decl_text(d, 0).len(),
            );
            assert(got5 + expr_tokens(expr.value) =~= seq![TokenView::Let] + decl_tokens(d));
        },
        _ => {},
    }
}

proof fn lemma_fun_parts(
    chars: Seq<char>,
    pos: int,
    name: Seq<char>,
    a: Seq<char>,
    b: Seq<char>,
    r: Seq<char>,
    pad: Seq<char>,
    body: Seq<char>,
)
    requires
        spelled(
            chars,
            pos,
            (((((((("let "@ + name) + " ("@) + a) + ") : ("@) + b) + ") -> "@) + r) + " =\n"@) + pad
                + body,
        ),
    ensures
        spelled(chars, pos, "let "@),
        spelled(chars, pos + 4, name),
        spelled(chars, pos + 4 + name.len(), " ("@),
        spelled(chars, pos + 4 + name.len() + 2, a),
        spelled(chars, pos + 4 + name.len() + 2 + a.len(), ") : ("@),
        spelled(chars, pos + 4 + name.len() + 2 + a.len() + 5, b),
        spelled(chars, pos + 4 + name.len() + 2 + a.len() + 5 + b.len(), ") -> "@),
        spelled(chars, pos + 4 + name.len() + 2 + a.len() + 5 + b.len() + 5, r),
        spelled(chars, pos + 4 + name.len() + 2 + a.len() + 5 + b.len() + 5 + r.len(), " =\n"@),
        spelled(chars, pos + 4 + name.len() + 2 + a.len() + 5 + b.len() + 5 + r.len() + 3, pad),
        spelled(
            chars,
            pos + 4 + name.len() + 2 + a.len() + 5 + b.len() + 5 + r.len() + 3 + pad.len(),
            body,
        ),
        ((((((((("let "@ + name) + " ("@) + a) + ") : ("@) + b) + ") -> "@) + r) + " =\n"@) + pad
            + body).len() == 4 + name.len() + 2 + a.len() + 5 + b.len() + 5 + r.len() + 3
            + pad.len() + body.len(),
{
    reveal_strlit("let ");
    reveal_strlit(" (");
    reveal_strlit(") : (");
    reveal_strlit(") -> ");
    reveal_strlit(" =\n");
    let t8 = (((((((("let "@ + name) + " ("@) + a) + ") : ("@) + b) + ") -> "@) + r) + " =\n"@)
        + pad;
    let t7 = ((((((("let "@ + name) + " ("@) + a) + ") : ("@) + b) + ") -> "@) + r) + " =\n"@;
    let t6 = (((((("let "@ + name) + " ("@) + a) + ") : ("@) + b) + ") -> "@) + r;
    let t5 = ((((("let "@ + name) + " ("@) + a) + ") : ("@) + b) + ") -> "@;
    let t4 = (((("let "@ + name) + " ("@) + a) + ") : ("@) + b;
    let t3 = ((("let "@ + name) + " ("@) + a) + ") : ("@;
    let t2 = (("let "@ + name) + " ("@) + a;
    let t1 = ("let "@ + name) + " ("@;
    lemma_spelled_parts(chars, pos, t8, body);
    lemma_spelled_parts(chars, pos, t7, pad);
    lemma_spelled_parts(chars, pos, t6, " =\n"@);
    lemma_spelled_parts(chars, pos, t5, r);
    lemma_spelled_parts(chars, pos, t4, ") -> "@);
    lemma_spelled_parts(chars, pos, t3, b);
    lemma_spelled_parts(chars, pos, t2, ") : ("@);
    lemma_spelled_parts(chars, pos, t1, a);
    lemma_spelled_parts(chars, pos, "let "@ + name, " ("@);
    lemma_spelled_parts(chars, pos, "let "@, name);
}

proof fn lemma_fun_head(
    chars: Seq<char>,
    pos: int,
    name: Seq<char>,
    params: Seq<SpannedView<Seq<char>>>,
)
    requires
        is_name(name),
        names(params),
        spelled(chars, pos, "let "@),
        spelled(chars, pos + 4, name),
        spelled(chars, pos + 4 + name.len(), " ("@),
        spelled(chars, pos + 4 + name.len() + 2, join_texts(id_texts(params), ", "@)),
        spelled(
            chars,
            pos + 4 + name.len() + 2 + join_texts(id_texts(params), ", "@).len(),
            ") : ("@,
        ),
    ensures
        tokens_from(chars, pos) == before(
            seq![TokenView::Let, TokenView::Id(name), TokenView::LeftParen] + params_tokens(
                params,
                0,
            ) + seq![TokenView::Colon, TokenView::LeftParen],
            tokens_from(
                chars,
                pos + 4 + name.len() + 2 + join_texts(id_texts(params), ", "@).len() + 5,
            ),
        ),
{
    let parts = id_texts(params);
    let a = join_texts(parts, ", "@);
    reveal_strlit(") : (");
    lemma_start(chars, pos);
    glue_let(chars, pos, Seq::empty(), pos);
    let at_name = pos + 4;
    ends_open_spaced(chars, at_name + name.len());
    assert(is_word(name));
    lemma_word(chars, at_name, name);
    let got1 = Seq::<TokenView>::empty() + seq![TokenView::Let];
    lemma_step_tokens(chars, pos, got1, at_name, seq![TokenView::Id(name)], at_name + name.len());
    let got2 = got1 + seq![TokenView::Id(name)];
    glue_open_spaced(chars, pos, got2, at_name + name.len());
    let got3 = got2 + seq![TokenView::LeftParen];
    let at_params = at_name + name.len() + 2;
    lemma_joined(chars, at_params, a, ") : ("@);
    if params.len() == 0 {
        assert(a.len() == 0);
        assert(a + ")"@ =~= ")"@);
        glue_close(chars, pos, got3, at_params);
        assert(seq![TokenView::RightParen] =~= params_tokens(params, 0));
    } else {
        lemma_join(parts, parts.len() as int, ", "@);
        assert(parts.take(parts.len() as int) =~= parts);
        assert(join_from(parts, 0, params.len() as int, ", "@) == a);
        lemma_params_spelled(chars, at_params, params, 0);
        lemma_step_tokens(
            chars,
            pos,
            got3,
            at_params,
            params_tokens(params, 0),
            at_params + a.len() + 1,
        );
    }
    let got4 = got3 + params_tokens(params, 0);
    lemma_after_params(chars, pos, got4, at_params + a.len() + 1);
    assert(got4 + seq![TokenView::Colon, TokenView::LeftParen] =~= seq![
        TokenView::Let,
        TokenView::Id(name),
        TokenView::LeftParen,
    ] + params_tokens(params, 0) + seq![TokenView::Colon, TokenView::LeftParen]);
}

proof fn lemma_fun_types(
    chars: Seq<char>,
    start: int,
    got: Seq<TokenView>,
    at: int,
    types: Seq<TypeView>,
    ret: TypeView,
)
    requires
        written_types(types),
        written_type(ret),
        tokens_from(chars, start) == before(got, tokens_from(chars, at)),
        spelled(chars, at, join_texts(type_texts(types), ", "@)),
        spelled(chars, at + join_texts(type_texts(types), ", "@).len(), ") -> "@),
        spelled(chars, at + join_texts(type_texts(types), ", "@).len() + 5, type_text(ret)),
        spelled(
            chars,
            at + join_texts(type_texts(types), ", "@).len() + 5 + type_text(ret).len(),
            " =\n"@,
        ),
        spelled(
            chars,
            at + join_texts(type_texts(types), ", "@).len() + 5 + type_text(ret).len() + 3,
            indent_text(1),
        ),
    ensures
        tokens_from(chars, start) == before(
            got + types_tokens(types, 0) + seq![TokenView::Arrow] + type_tokens(ret) + seq![
                TokenView::Assign,
            ],
            tokens_from(
                chars,
                at + join_texts(type_texts(types), ", "@).len() + 5 + type_text(ret).len() + 3
                    + indent_text(1).len(),
            ),
        ),
{
    let parts = type_texts(types);
    let b = join_texts(parts, ", "@);
    let r = type_text(ret);
    reveal_strlit(") -> ");
    lemma_indent_blank(1);
    lemma_joined(chars, at, b, ") -> "@);
    if types.len() == 0 {
        assert(b.len() == 0);
        assert(b + ")"@ =~= ")"@);
        glue_close(chars, start, got, at);
        assert(seq![TokenView::RightParen] =~= types_tokens(types, 0));
    } else {
        lemma_join(parts, parts.len() as int, ", "@);
        assert(parts.take(parts.len() as int) =~= parts);
        assert(join_from(parts, 0, types.len() as int, ", "@) == b);
        lemma_types_spelled(chars, at, types, 0);
        lemma_step_tokens(chars, start, got, at, types_tokens(types, 0), at + b.len() + 1);
    }
    let got1 = got + types_tokens(types, 0);
    lemma_after_types(chars, start, got1, at + b.len() + 1);
    let got2 = got1 + seq![TokenView::Arrow];
    let at_ret = at + b.len() + 5;
    ends_assign_line(chars, at_ret + r.len());
    lemma_type_spelled(chars, at_ret, ret);
    lemma_step_tokens(chars, start, got2, at_ret, type_tokens(ret), at_ret + r.len());
    let got3 = got2 + type_tokens(ret);
    glue_assign_line(chars, start, got3, at_ret + r.len());
    lemma_step_gap(
        chars,
        start,
        got3 + seq![TokenView::Assign],
        at_ret + r.len() + 3,
        indent_text(1),
    );
}

proof fn lemma_fun_spelled(chars: Seq<char>, pos: int, d: DeclView)
    requires
        writable_decl(d),
        d is Fun,
        spelled(chars, pos, decl_text(d, 0)),
        closed_at(chars, pos + decl_text(d, 0).len()),
    ensures
        tokens_from(chars, pos) == before(
            seq![TokenView::Let] + decl_tokens(d),
            tokens_from(chars, pos + decl_text(d, 0).len()),
        ),
{
    match d {
        DeclView::Fun { id, params, ty, expr } => {
            let name = id.value;
            let types = ty.value->Fun_0;
            let ret = *ty.value->Fun_1;
            let a = join_texts(id_texts(params), ", "@);
            let b = join_texts(type_texts(types), ", "@);
            let r = type_text(ret);
            let pad = indent_text(1);
            let body = expr_text(expr.value, 1);
            assert(decl_text(d, 0) =~= (((((((("let "@ + name) + " ("@) + a) + ") : ("@) + b)
                + ") -> "@) + r) + " =\n"@) + pad + body);
            lemma_fun_parts(chars, pos, name, a, b, r, pad, body);
            lemma_fun_head(chars, pos, name, params);
            let got1 = seq![TokenView::Let, TokenView::Id(name), TokenView::LeftParen]
                + params_tokens(params, 0) + seq![TokenView::Colon, TokenView::LeftParen];
            let at_types = pos + 4 + name.len() + 2 + a.len() + 5;
            lemma_fun_types(chars, pos, got1, at_types, types, ret);
            let got2 = got1 + types_tokens(types, 0) + seq![TokenView::Arrow] + type_tokens(ret)
                + seq![TokenView::Assign];
            let at_body = at_types + b.len() + 5 + r.len() + 3 + pad.len();
            lemma_expr_spelled(chars, at_body, expr.value, 1);
            lemma_step_tokens(
                chars,
                pos,
                got2,
                at_body,
                expr_tokens(expr.value),
                pos + decl_text(d, 0).len(),
            );
            assert(got2 + expr_tokens(expr.value) =~= seq![TokenView::Let] + decl_tokens(d));
        },
        _ => {},
    }
}

/// The text of each declaration of a program.
pub open spec fn decl_texts(p: Seq<SpannedView<DeclView>>) -> Seq<Seq<char>> {
    Seq::new(p.len(), |i: int| decl_text(p[i].value, 0))
}

/// The declarations of a program from the declaration `from` on read
/// back from their text, which ends the text.
proof fn lemma_program_spelled(
    chars: Seq<char>,
    pos: int,
    p: Seq<SpannedView<DeclView>>,
    from: int,
)
    requires
        writable_program(p),
        0 <= from < p.len(),
        spelled(chars, pos, join_from(decl_texts(p), from, p.len() as int, "\n\n"@)),
        pos + join_from(decl_texts(p), from, p.len() as int, "\n\n"@).len() == chars.len(),
    ensures
        tokens_from(chars, pos) == Some(program_tokens(p, from as nat)),
    decreases p.len() - from,
{
    let parts = decl_texts(p);
    let n = p.len() as int;
    let d = p[from].value;
    let a = decl_text(d, 0);
    assert(parts[from] == a);
    reveal_strlit("\n\n");
    if from + 1 == n {
        if d is Var {
            lemma_var_spelled(chars, pos, d);
        } else {
            lemma_fun_spelled(chars, pos, d);
        }
        assert(tokens_from(chars, chars.len() as int) == Some(Seq::<TokenView>::empty()));
        assert(program_tokens(p, (from + 1) as nat) =~= Seq::<TokenView>::empty());
        assert((seq![TokenView::Let] + decl_tokens(d)) + Seq::<TokenView>::empty()
            =~= program_tokens(p, from as nat));
    } else {
        let rest = join_from(parts, from + 1, n, "\n\n"@);
        assert(join_from(parts, from, n, "\n\n"@) =~= (a + "\n\n"@) + rest);
        lemma_spelled_parts(chars, pos, a + "\n\n"@, rest);
        lemma_spelled_parts(chars, pos, a, "\n\n"@);
        ends_lines(chars, pos + a.len());
        if d is Var {
            lemma_var_spelled(chars, pos, d);
        } else {
            lemma_fun_spelled(chars, pos, d);
        }
        assert(blank("\n\n"@));
        lemma_step_gap(chars, pos, seq![TokenView::Let] + decl_tokens(d), pos + a.len(), "\n\n"@);
        lemma_program_spelled(chars, pos + a.len() + 2, p, from + 1);
        assert((seq![TokenView::Let] + decl_tokens(d)) + program_tokens(p, (from + 1) as nat)
            =~= program_tokens(p, from as nat));
    }
}

/// The text form of a program lexes to the tokens of the program.
pub proof fn lemma_text_tokens(p: Seq<SpannedView<DeclView>>)
    requires
        writable_program(p),
    ensures
        tokens_from(program_text(p), 0) == Some(program_tokens(p, 0)),
{
    let chars = program_text(p);
    let parts = decl_texts(p);
    assert(parts =~= Seq::new(p.len(), |i: int| decl_text(p[i].value, 0)));
    if p.len() == 0 {
        assert(chars.len() == 0);
        assert(program_tokens(p, 0) =~= Seq::<TokenView>::empty());
        assert(tokens_from(chars, 0) == Some(Seq::<TokenView>::empty()));
    } else {
        lemma_join(parts, parts.len() as int, "\n\n"@);
        assert(parts.take(parts.len() as int) =~= parts);
        assert(spelled(chars, 0, chars));
        lemma_program_spelled(chars, 0, p, 0);
    }
}

/// Round trip. Take a program that can be written and read back: its
/// names are names, its numbers are not negative, its types can be written
/// in a source text, and it has no power operator. The lexer reads the
/// text form of the program as tokens, the grammar reads the tokens as a
/// program, and that program is the one that was written, spans aside.
pub proof fn lemma_text_round_trip(p: Seq<SpannedView<DeclView>>)
    requires
        writable_program(p),
    ensures
        lex_text(program_text(p)) matches Ok(tokens) && (parse_tokens(tokens) matches Ok(q)
            && bare_program(q) == bare_program(p)),
{
    let chars = program_text(p);
    lemma_text_tokens(p);
    let lexed = lex_from(chars, 0)->Ok_0;
    let tokens = lex_text(chars)->Ok_0;
    let want = program_tokens(p, 0);
    assert(Seq::new(lexed.len(), |i: int| lexed[i].token) == want);
    assert(tokens.len() == want.len());
    assert forall|i: int| 0 <= i < want.len() implies (#[trigger] tokens[0 + i]).value
        == want[i] by {
        assert(Seq::new(lexed.len(), |i: int| lexed[i].token)[i] == lexed[i].token);
    }
    assert forall|i: int| 0 <= i < p.len() implies readable_decl((#[trigger] p[i]).value) by {
        match p[i].value {
            DeclView::Var { id, ty, expr } => {
                lemma_readable(expr.value);
            },
            DeclView::Fun { id, params, ty, expr } => {
                lemma_readable(expr.value);
            },
        }
    }
    lemma_program_reads_back(tokens, p);
}

} // verus!
