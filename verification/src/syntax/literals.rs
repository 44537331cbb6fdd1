use crate::syntax::ast::{escaped_char, escaped_text};
use crate::syntax::lexer::{escape_value, lexeme_at, string_stop, unescape, Lexeme, TokenView};
use vstd::prelude::*;

verus! {

/// What an escaped character holds: the character itself, or a backslash
/// and the character that names its escape.
proof fn lemma_escaped_char(c: char)
    ensures
        c != '\n' && c != '\r' && c != '\t' && c != '\0' && c != '"' && c != '\\'
            ==> escaped_char(c) == seq![c],
        c == '\n' || c == '\r' || c == '\t' || c == '\0' || c == '"' || c == '\\' ==> {
            &&& escaped_char(c).len() == 2
            &&& escaped_char(c)[0] == '\\'
            &&& escaped_char(c)[1] != '\n'
            &&& escape_value(escaped_char(c)[1]) == Some(c)
        },
{
    reveal_strlit("\\n");
    reveal_strlit("\\r");
    reveal_strlit("\\t");
    reveal_strlit("\\0");
    reveal_strlit("\\\"");
    reveal_strlit("\\\\");
}

/// The escaped text of a string is that of its first character and then
/// that of the rest.
proof fn lemma_escaped_text_front(c: char, s: Seq<char>)
    ensures
        escaped_text(seq![c] + s) == escaped_char(c) + escaped_text(s),
    decreases s.len(),
{
    let whole = seq![c] + s;
    if s.len() == 0 {
        assert(whole.drop_last().len() == 0);
        assert(escaped_text(whole.drop_last()) =~= Seq::<char>::empty());
        assert(whole.last() == c);
        assert(escaped_text(whole) =~= escaped_char(c));
        assert(escaped_char(c) + escaped_text(s) =~= escaped_char(c));
    } else {
        lemma_escaped_text_front(c, s.drop_last());
        assert(whole.drop_last() =~= seq![c] + s.drop_last());
        assert(whole.last() == s.last());
        assert(escaped_text(whole) =~= escaped_char(c) + escaped_text(s));
    }
}

/// Replacing the escape sequences of an escaped text gives the string
/// back.
pub proof fn lemma_unescape_escaped(s: Seq<char>)
    ensures
        unescape(escaped_text(s)) == Some(s),
    decreases s.len(),
{
    if s.len() > 0 {
        let c = s[0];
        let rest = s.subrange(1, s.len() as int);
        assert(s =~= seq![c] + rest);
        lemma_escaped_text_front(c, rest);
        lemma_unescape_escaped(rest);
        lemma_escaped_char(c);
        let raw = escaped_text(s);
        let head = escaped_char(c);
        assert(raw =~= head + escaped_text(rest));
        if head.len() == 2 {
            assert(raw[0] == head[0]);
            assert(raw[1] == head[1]);
            assert(raw.subrange(2, raw.len() as int) =~= escaped_text(rest));
            assert(seq![c] + rest =~= s);
        } else {
            assert(raw[0] == c);
            assert(raw.subrange(1, raw.len() as int) =~= escaped_text(rest));
            assert(seq![c] + rest =~= s);
        }
    }
}

/// The scan of a string literal's contents runs over an escaped text to
/// the double quote behind it.
pub proof fn lemma_string_stop_escaped(before: Seq<char>, s: Seq<char>, after: Seq<char>)
    requires
        after.len() > 0,
        after[0] == '"',
    ensures
        string_stop(before + escaped_text(s) + after, before.len() as int) == before.len()
            + escaped_text(s).len(),
    decreases s.len(),
{
    let chars = before + escaped_text(s) + after;
    let pos = before.len() as int;
    if s.len() == 0 {
        assert(chars[pos] == after[0]);
    } else {
        let c = s[0];
        let rest = s.subrange(1, s.len() as int);
        assert(s =~= seq![c] + rest);
        lemma_escaped_text_front(c, rest);
        lemma_escaped_char(c);
        let head = escaped_char(c);
        lemma_string_stop_escaped(before + head, rest, after);
        assert(chars =~= (before + head) + escaped_text(rest) + after);
        assert(chars[pos] == head[0]);
        if head.len() == 2 {
            assert(chars[pos + 1] == head[1]);
        }
    }
}

/// A string literal reads back. The text form writes a string as its
/// escaped characters between double quotes; whatever text follows, the
/// lexer reads that as one string token, which holds the string.
pub proof fn lemma_string_literal_reads_back(s: Seq<char>, rest: Seq<char>)
    ensures
        lexeme_at("\""@ + escaped_text(s) + "\""@ + rest, 0) == (Lexeme::Token {
            token: TokenView::String(s),
            end: escaped_text(s).len() as int + 2,
        }),
{
    reveal_strlit("\"");
    let quote = "\""@;
    let chars = quote + escaped_text(s) + quote + rest;
    lemma_string_stop_escaped(quote, s, quote + rest);
    lemma_unescape_escaped(s);
    assert(chars =~= quote + escaped_text(s) + (quote + rest));
    let stop: int = 1 + escaped_text(s).len() as int;
    assert(chars[0] == '"');
    assert(chars[stop] == '"');
    assert(chars.subrange(1, stop) =~= escaped_text(s));
}

} // verus!
