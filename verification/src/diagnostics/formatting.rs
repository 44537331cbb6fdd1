use crate::diagnostics::errors::{
    string_views, AgudaError, AgudaErrorView, CompileError, CompileErrorView, DeclarationErrorKind,
    DeclarationErrorKindView, LexicalErrorKind, SemanticError, SemanticErrorView, SyntaxErrorKind,
    SyntaxErrorKindView, TypeErrorKind, TypeErrorKindView,
};
use crate::diagnostics::hints::{get_syntax_hints, syntax_hints};
use crate::diagnostics::warnings::{Warning, WarningView};
use crate::semantic::symbol_table::{is_wildcard, starts_with_underscore};
use crate::syntax::ast::{type_text, Span};
use crate::syntax::lexer::TokenView;
use crate::utils::{
    nat_text, position_in_chars, position_in_text, push_char, usize_to_text, SourceChars,
};
use vstd::prelude::*;

verus! {

/// A colour of the output.
#[derive(Debug, Clone, Copy, PartialEq, Eq, Structural)]
pub enum Tint {
    Red,
    Yellow,
    Cyan,
}

/// How a piece of the output is set off from the text around it.
#[derive(Debug, Clone, Copy, PartialEq, Eq, Structural)]
pub enum Style {
    Plain,
    Bold,
    BoldRed,
    BoldYellow,
    BoldCyan,
}

/// The bold style in a colour.
pub open spec fn bold_in(tint: Tint) -> Style {
    match tint {
        Tint::Red => Style::BoldRed,
        Tint::Yellow => Style::BoldYellow,
        Tint::Cyan => Style::BoldCyan,
    }
}

/// A piece of a message with its style.
#[derive(Debug)]
pub struct Piece {
    pub text: String,
    pub style: Style,
}

/// The mathematical value of a [`Piece`].
pub struct PieceView {
    pub text: Seq<char>,
    pub style: Style,
}

impl View for Piece {
    type V = PieceView;

    open spec fn view(&self) -> PieceView {
        PieceView { text: self.text@, style: self.style }
    }
}

/// The views of a list of pieces.
pub open spec fn piece_views(pieces: Seq<Piece>) -> Seq<PieceView> {
    Seq::new(pieces.len(), |i: int| pieces[i]@)
}

/// A piece of plain text.
pub open spec fn plain(text: Seq<char>) -> PieceView {
    PieceView { text, style: Style::Plain }
}

/// A piece of bold text.
pub open spec fn bold(text: Seq<char>) -> PieceView {
    PieceView { text, style: Style::Bold }
}

/// The texts one behind the other.
pub open spec fn concat_texts(parts: Seq<Seq<char>>) -> Seq<char>
    decreases parts.len(),
{
    if parts.len() == 0 {
        Seq::empty()
    } else {
        concat_texts(parts.drop_last()) + parts.last()
    }
}

/// The escape sequence that switches a style on.
pub open spec fn style_start(style: Style) -> Seq<char> {
    match style {
        Style::Plain => Seq::empty(),
        Style::Bold => "\x1B[1m"@,
        Style::BoldRed => "\x1B[1;31m"@,
        Style::BoldYellow => "\x1B[1;33m"@,
        Style::BoldCyan => "\x1B[1;36m"@,
    }
}

/// The escape sequence that switches every style off.
pub open spec fn style_end() -> Seq<char> {
    "\x1B[0m"@
}

/// Whether `painted` is what the terminal styling makes of a piece. A
/// plain piece stays as it is. A styled piece stays as it is where colours
/// are switched off; where they are on, it stands between the escape
/// sequence of its style and the one that switches styles off. Only a
/// text that holds an escape character itself may change between the two.
pub open spec fn is_painted(piece: PieceView, painted: Seq<char>) -> bool {
    painted == piece.text || (piece.style != Style::Plain && exists|inner: Seq<char>|
        #![auto]
        painted == style_start(piece.style) + inner + style_end() && (inner == piece.text
            || piece.text.contains('\x1B')))
}

/// Whether `text` is a rendering of the pieces: each piece in order, as
/// the terminal styling makes it. With colours switched off every piece
/// is rendered as it is.
pub open spec fn is_rendering(pieces: Seq<PieceView>, text: Seq<char>) -> bool {
    exists|painted: Seq<Seq<char>>|
        #![auto]
        painted.len() == pieces.len() && (forall|i: int|
            0 <= i < pieces.len() ==> is_painted(pieces[i], painted[i])) && text == concat_texts(
            painted,
        )
}

/// Calls `colored::Colorize::bold` on the text and writes the result to a
/// string. Whether colours are on depends on the terminal and the
/// environment. The result is the text itself where they are off. Where
/// they are on, it is the escape sequence for bold, the text, and the
/// escape sequence that switches styles off; the crate then repeats the
/// first sequence behind each reset sequence inside the text, which needs
/// an escape character in the text.
#[verifier::external_body]
fn paint_bold(text: &str) -> (painted: String)
    ensures
        is_painted(PieceView { text: text@, style: Style::Bold }, painted@),
{
    let styled = colored::Colorize::bold(text);
    styled.to_string()
}

/// Calls `colored::Colorize::color` and then `bold` on the text and writes
/// the result to a string. Whether colours are on depends on the terminal
/// and the environment. The result is the text itself where they are off.
/// Where they are on, it is the escape sequence for bold in that colour,
/// the text, and the escape sequence that switches styles off; the crate
/// then repeats the first sequence behind each reset sequence inside the
/// text, which needs an escape character in the text.
#[verifier::external_body]
fn paint_bold_color(text: &str, tint: Tint) -> (painted: String)
    ensures
        is_painted(PieceView { text: text@, style: bold_in(tint) }, painted@),
{
    let color = match tint {
        Tint::Red => colored::Color::Red,
        Tint::Yellow => colored::Color::Yellow,
        Tint::Cyan => colored::Color::Cyan,
    };
    let styled = colored::Colorize::bold(colored::Colorize::color(text, color));
    styled.to_string()
}

/// Renders one piece.
fn paint(piece: &Piece) -> (painted: String)
    ensures
        is_painted(piece@, painted@),
{
    match piece.style {
        Style::Plain => piece.text.clone(),
        Style::Bold => paint_bold(piece.text.as_str()),
        Style::BoldRed => paint_bold_color(piece.text.as_str(), Tint::Red),
        Style::BoldYellow => paint_bold_color(piece.text.as_str(), Tint::Yellow),
        Style::BoldCyan => paint_bold_color(piece.text.as_str(), Tint::Cyan),
    }
}

/// Renders a list of pieces to one string.
pub fn render(pieces: &Vec<Piece>) -> (text: String)
    ensures
        is_rendering(piece_views(pieces@), text@),
{
    let mut text = String::new();
    let ghost mut painted: Seq<Seq<char>> = Seq::empty();
    let mut i: usize = 0;
    while i < pieces.len()
        invariant
            i <= pieces@.len(),
            painted.len() == i,
            forall|j: int| 0 <= j < i ==> is_painted(pieces@[j]@, #[trigger] painted[j]),
            text@ == concat_texts(painted),
        decreases pieces@.len() - i,
    {
        let part = paint(&pieces[i]);
        text.append(part.as_str());
        proof {
            assert(painted.push(part@).drop_last() =~= painted);
            painted = painted.push(part@);
        }
        i += 1;
    }
    proof {
        assert(is_rendering(piece_views(pieces@), text@)) by {
            let views = piece_views(pieces@);
            assert(painted.len() == views.len());
            assert(forall|i: int| 0 <= i < views.len() ==> is_painted(views[i], painted[i]));
        }
    }
    text
}

/// Appends a piece to a list.
fn put(pieces: &mut Vec<Piece>, text: &str, style: Style)
    ensures
        piece_views(final(pieces)@) == piece_views(old(pieces)@).push(
            PieceView { text: text@, style },
        ),
{
    pieces.push(Piece { text: text.to_owned(), style });
    proof {
        assert(piece_views(pieces@) =~= piece_views(old(pieces)@).push(
            PieceView { text: text@, style },
        ));
    }
}

/// Appends all pieces of one list to another.
fn put_all(pieces: &mut Vec<Piece>, more: Vec<Piece>)
    ensures
        piece_views(final(pieces)@) == piece_views(old(pieces)@) + piece_views(more@),
{
    let ghost start = piece_views(pieces@);
    let ghost added = piece_views(more@);
    let mut more = more;
    pieces.append(&mut more);
    proof {
        assert(piece_views(pieces@) =~= start + added);
    }
}

} // verus!

verus! {

/// The index of the first line feed at or behind `pos`, or the length of
/// the text if there is none.
pub open spec fn line_end(chars: Seq<char>, pos: int) -> int
    decreases chars.len() - pos,
{
    if pos < 0 || pos >= chars.len() {
        chars.len() as int
    } else if chars[pos] == '\n' {
        pos
    } else {
        line_end(chars, pos + 1)
    }
}

/// A line ends at or behind its start, and inside the text.
pub proof fn lemma_line_end_bounds(chars: Seq<char>, pos: int)
    requires
        0 <= pos <= chars.len(),
    ensures
        pos <= line_end(chars, pos) <= chars.len(),
    decreases chars.len() - pos,
{
    if pos < chars.len() && chars[pos] != '\n' {
        lemma_line_end_bounds(chars, pos + 1);
    }
}

/// The line that starts at `pos` and ends at `end`, without the carriage
/// return in front of a line feed.
pub open spec fn line_between(chars: Seq<char>, pos: int, end: int) -> Seq<char> {
    if pos < end < chars.len() && chars[end - 1] == '\r' {
        chars.subrange(pos, end - 1)
    } else {
        chars.subrange(pos, end)
    }
}

/// The text of the line that is `skip` lines below the one that starts at
/// `pos`, without its line ending; empty if the text has no such line.
pub open spec fn line_from(chars: Seq<char>, pos: int, skip: nat) -> Seq<char>
    decreases chars.len() - pos,
{
    if pos < 0 || pos >= chars.len() {
        Seq::empty()
    } else {
        let end = line_end(chars, pos);
        if skip == 0 {
            line_between(chars, pos, end)
        } else if end >= chars.len() {
            Seq::empty()
        } else {
            proof {
                lemma_line_end_bounds(chars, pos);
            }
            line_from(chars, end + 1, (skip - 1) as nat)
        }
    }
}

/// The text of the line with the given number, counted from 1.
pub open spec fn line_text(chars: Seq<char>, line: nat) -> Seq<char> {
    if line == 0 {
        Seq::empty()
    } else {
        line_from(chars, 0, (line - 1) as nat)
    }
}

/// Copies one line of a text.
pub fn get_line(sc: &SourceChars, line: usize) -> (text: String)
    ensures
        text@ == line_text(sc.chars@, line as nat),
{
    if line == 0 {
        return String::new();
    }
    let chars = &sc.chars;
    let n = chars.len();
    let mut pos: usize = 0;
    let mut skip: usize = line - 1;
    loop
        invariant
            n == chars@.len(),
            chars@ == sc.chars@,
            line >= 1,
            pos <= n,
            line_text(chars@, line as nat) == line_from(chars@, pos as int, skip as nat),
        decreases n - pos,
    {
        if pos >= n {
            return String::new();
        }
        let mut end = pos;
        while end < n && chars[end] != '\n'
            invariant
                pos <= end <= n,
                n == chars@.len(),
                line_end(chars@, pos as int) == line_end(chars@, end as int),
            decreases n - end,
        {
            end += 1;
        }
        assert(end == line_end(chars@, pos as int));
        if skip == 0 {
            let stop = if end < n && end > pos && chars[end - 1] == '\r' {
                end - 1
            } else {
                end
            };
            let mut text = String::new();
            let mut i = pos;
            while i < stop
                invariant
                    pos <= i <= stop <= n,
                    n == chars@.len(),
                    text@ == chars@.subrange(pos as int, i as int),
                decreases stop - i,
            {
                push_char(&mut text, chars[i]);
                proof {
                    assert(chars@.subrange(pos as int, i as int).push(chars@[i as int])
                        =~= chars@.subrange(pos as int, i + 1));
                }
                i += 1;
            }
            return text;
        }
        if end >= n {
            return String::new();
        }
        skip -= 1;
        pos = end + 1;
    }
}

/// That many copies of a character.
pub open spec fn repeat_char(c: char, n: nat) -> Seq<char> {
    Seq::new(n, |i: int| c)
}

fn repeated(c: char, n: usize) -> (text: String)
    ensures
        text@ == repeat_char(c, n as nat),
{
    let mut text = String::new();
    let mut i: usize = 0;
    while i < n
        invariant
            i <= n,
            text@ == repeat_char(c, i as nat),
        decreases n - i,
    {
        push_char(&mut text, c);
        proof {
            assert(repeat_char(c, i as nat).push(c) =~= repeat_char(c, (i + 1) as nat));
        }
        i += 1;
    }
    text
}

/// The number of carets under a span: its length in bytes, but no more
/// than the characters of the line from the column on.
pub open spec fn caret_count(span: Span, line_len: nat, col: nat) -> nat {
    let length = if span.end >= span.start {
        (span.end - span.start) as nat
    } else {
        0
    };
    let rest = if line_len + 1 >= col {
        (line_len + 1 - col) as nat
    } else {
        0
    };
    if length <= rest {
        length
    } else {
        rest
    }
}

/// The first part of a message: where it is, in the form `path:line:col`,
/// and the label.
pub open spec fn message_head(path: Seq<char>, pos: (nat, nat), label: Seq<char>, tint: Tint) -> Seq<
    PieceView,
> {
    seq![
        plain(path + ":"@ + nat_text(pos.0) + ":"@ + nat_text(pos.1) + "\n"@),
        PieceView { text: label, style: bold_in(tint) },
        plain(" "@),
    ]
}

/// The last part of a message: the place in words, the source line, and
/// carets under the span.
pub open spec fn message_tail(source: Seq<char>, span: Span, pos: (nat, nat), tint: Tint) -> Seq<
    PieceView,
> {
    let line = line_text(source, pos.0);
    seq![
        plain(
            " at line "@ + nat_text(pos.0) + ", column "@ + nat_text(pos.1) + "\n\t"@ + line
                + "\n\t"@ + repeat_char(' ', (pos.1 - 1) as nat),
        ),
        PieceView {
            text: repeat_char('^', caret_count(span, line.len(), pos.1)),
            style: bold_in(tint),
        },
    ]
}

/// The pieces of a message about the place `span` of a source text: the
/// place, the label, the description, the place in words, the source line,
/// and a line of carets under the span.
pub open spec fn message_pieces(
    path: Seq<char>,
    source: Seq<char>,
    span: Span,
    label: Seq<char>,
    description: Seq<PieceView>,
    tint: Tint,
) -> Seq<PieceView> {
    let pos = position_in_text(source, span.start as nat);
    message_head(path, pos, label, tint) + description + message_tail(source, span, pos, tint)
}

fn style_of(tint: Tint) -> (style: Style)
    ensures
        style == bold_in(tint),
{
    match tint {
        Tint::Red => Style::BoldRed,
        Tint::Yellow => Style::BoldYellow,
        Tint::Cyan => Style::BoldCyan,
    }
}

/// Builds the pieces of a message about a place of a source text.
pub fn message(
    path: &str,
    source: &str,
    span: Span,
    label: &str,
    description: Vec<Piece>,
    tint: Tint,
) -> (pieces: Vec<Piece>)
    ensures
        piece_views(pieces@) == message_pieces(
            path@,
            source@,
            span,
            label@,
            piece_views(description@),
            tint,
        ),
{
    let sc = SourceChars::new(source);
    let pos = position_in_chars(&sc, span.start);
    let line_str = get_line(&sc, pos.0);
    let line_no = usize_to_text(pos.0);
    let col_no = usize_to_text(pos.1);
    let style = style_of(tint);
    let mut pieces: Vec<Piece> = Vec::new();
    proof {
        assert(piece_views(pieces@) =~= Seq::empty());
    }
    let mut place = path.to_owned();
    place.append(":");
    place.append(line_no.as_str());
    place.append(":");
    place.append(col_no.as_str());
    place.append("\n");
    put(&mut pieces, place.as_str(), Style::Plain);
    put(&mut pieces, label, style);
    put(&mut pieces, " ", Style::Plain);
    put_all(&mut pieces, description);
    let length = if span.end >= span.start {
        span.end - span.start
    } else {
        0
    };
    let line_len = line_str.as_str().unicode_len();
    let rest = if line_len >= pos.1 - 1 {
        line_len - (pos.1 - 1)
    } else {
        0
    };
    let count = if length <= rest {
        length
    } else {
        rest
    };
    let spaces = repeated(' ', pos.1 - 1);
    let carets = repeated('^', count);
    let mut words = " at line ".to_owned();
    words.append(line_no.as_str());
    words.append(", column ");
    words.append(col_no.as_str());
    words.append("\n\t");
    words.append(line_str.as_str());
    words.append("\n\t");
    words.append(spaces.as_str());
    put(&mut pieces, words.as_str(), Style::Plain);
    put(&mut pieces, carets.as_str(), style);
    proof {
        crate::utils::lemma_position_at_least_one(source@, span.start as nat);
        let p = position_in_text(source@, span.start as nat);
        assert(piece_views(pieces@) =~= message_pieces(
            path@,
            source@,
            span,
            label@,
            piece_views(description@),
            tint,
        ));
    }
    pieces
}

/// Formats a message about a place of a source text.
pub fn format_message(
    path: &str,
    source: &str,
    span: Span,
    label: &str,
    description: &str,
    tint: Tint,
) -> (text: String)
    ensures
        is_rendering(
            message_pieces(path@, source@, span, label@, seq![plain(description@)], tint),
            text@,
        ),
{
    let mut words: Vec<Piece> = Vec::new();
    proof {
        assert(piece_views(words@) =~= Seq::empty());
    }
    put(&mut words, description, Style::Plain);
    let pieces = message(path, source, span, label, words, tint);
    render(&pieces)
}

} // verus!

verus! {

/// The views of a list of hints, each a list of pieces.
pub open spec fn hint_views(hints: Seq<Vec<Piece>>) -> Seq<Seq<PieceView>> {
    Seq::new(hints.len(), |i: int| piece_views(hints[i]@))
}

/// The first `n` hints as the items of a list, each on a line of its own
/// behind a dash.
pub open spec fn hint_items(hints: Seq<Seq<PieceView>>, n: nat) -> Seq<PieceView>
    decreases n,
{
    if n == 0 || n > hints.len() {
        Seq::empty()
    } else {
        hint_items(hints, (n - 1) as nat).push(plain("\n- "@)) + hints[n - 1]
    }
}

/// The pieces of the hints under a message: nothing where there is no
/// hint, a single hint on the line of its heading, several hints as a list
/// under theirs.
pub open spec fn hints_pieces(hints: Seq<Seq<PieceView>>) -> Seq<PieceView> {
    if hints.len() == 0 {
        Seq::empty()
    } else if hints.len() == 1 {
        seq![
            plain("\n"@),
            PieceView { text: "Hint:"@, style: Style::BoldCyan },
            plain(" "@),
        ] + hints[0]
    } else {
        seq![plain("\n"@), PieceView { text: "Hints:"@, style: Style::BoldCyan }] + hint_items(
            hints,
            hints.len(),
        )
    }
}

/// Builds the pieces of the hints under a message.
pub fn hints_block(hints: Vec<Vec<Piece>>) -> (pieces: Vec<Piece>)
    ensures
        piece_views(pieces@) == hints_pieces(hint_views(hints@)),
{
    let ghost views = hint_views(hints@);
    let mut pieces: Vec<Piece> = Vec::new();
    proof {
        assert(piece_views(pieces@) =~= Seq::empty());
    }
    let count = hints.len();
    if count == 0 {
        return pieces;
    }
    put(&mut pieces, "\n", Style::Plain);
    let mut hints = hints;
    if count == 1 {
        put(&mut pieces, "Hint:", Style::BoldCyan);
        put(&mut pieces, " ", Style::Plain);
        let only = hints.pop().unwrap();
        put_all(&mut pieces, only);
        return pieces;
    }
    put(&mut pieces, "Hints:", Style::BoldCyan);
    let ghost head = piece_views(pieces@);
    let mut rest: Vec<Vec<Piece>> = Vec::new();
    while hints.len() > 0
        invariant
            hints@.len() + rest@.len() == count,
            forall|i: int| 0 <= i < hints@.len() ==> piece_views(hints@[i]@) == views[i],
            forall|i: int|
                0 <= i < rest@.len() ==> piece_views(#[trigger] rest@[i]@) == views[count - 1 - i],
        decreases hints@.len(),
    {
        let last = hints.pop().unwrap();
        rest.push(last);
    }
    let mut k: usize = 0;
    proof {
        assert(head + hint_items(views, 0) =~= head);
    }
    while rest.len() > 0
        invariant
            k + rest@.len() == count,
            views.len() == count,
            forall|i: int|
                0 <= i < rest@.len() ==> piece_views(#[trigger] rest@[i]@) == views[count - 1 - i],
            piece_views(pieces@) == head + hint_items(views, k as nat),
        decreases rest@.len(),
    {
        let next = rest.pop().unwrap();
        let ghost before = hint_items(views, k as nat);
        put(&mut pieces, "\n- ", Style::Plain);
        put_all(&mut pieces, next);
        proof {
            assert((head + before).push(plain("\n- "@)) + views[k as int] =~= head + (before.push(
                plain("\n- "@),
            ) + views[k as int]));
        }
        k += 1;
    }
    pieces
}

/// A list of plain hints as lists of pieces.
pub open spec fn plain_hints(hints: Seq<Seq<char>>) -> Seq<Seq<PieceView>> {
    Seq::new(hints.len(), |i: int| seq![plain(hints[i])])
}

fn as_plain_hints(hints: &Vec<String>) -> (lists: Vec<Vec<Piece>>)
    ensures
        hint_views(lists@) == plain_hints(string_views(hints@)),
{
    let mut lists: Vec<Vec<Piece>> = Vec::new();
    let mut i: usize = 0;
    while i < hints.len()
        invariant
            i <= hints@.len(),
            lists@.len() == i,
            forall|j: int|
                0 <= j < i ==> piece_views(#[trigger] lists@[j]@) == seq![plain(hints@[j]@)],
        decreases hints@.len() - i,
    {
        let mut one: Vec<Piece> = Vec::new();
        proof {
            assert(piece_views(one@) =~= Seq::empty());
        }
        put(&mut one, hints[i].as_str(), Style::Plain);
        lists.push(one);
        i += 1;
    }
    proof {
        assert(hint_views(lists@) =~= plain_hints(string_views(hints@)));
    }
    lists
}

/// Formats the hints under a message.
pub fn format_hints(hints: Vec<String>) -> (text: String)
    ensures
        is_rendering(hints_pieces(plain_hints(string_views(hints@))), text@),
{
    let pieces = hints_block(as_plain_hints(&hints));
    render(&pieces)
}

} // verus!

verus! {

/// What there is to say about one error or warning.
pub struct Report {
    pub label: String,
    pub span: Span,
    pub description: Vec<Piece>,
    pub hints: Vec<Vec<Piece>>,
}

/// The mathematical value of a [`Report`].
pub struct ReportView {
    pub label: Seq<char>,
    pub span: Span,
    pub description: Seq<PieceView>,
    pub hints: Seq<Seq<PieceView>>,
}

impl View for Report {
    type V = ReportView;

    open spec fn view(&self) -> ReportView {
        ReportView {
            label: self.label@,
            span: self.span,
            description: piece_views(self.description@),
            hints: hint_views(self.hints@),
        }
    }
}

/// What a lexical error is called.
pub open spec fn lexical_description(kind: LexicalErrorKind) -> Seq<char> {
    match kind {
        LexicalErrorKind::UnrecognizedToken => "unrecognized token"@,
        LexicalErrorKind::UnterminatedString => "unterminated string"@,
        LexicalErrorKind::InvalidInteger => "invalid integer literal"@,
        LexicalErrorKind::IntegerOverflow => "integer overflow"@,
        LexicalErrorKind::FloatingPointNumber => "floating point number"@,
        LexicalErrorKind::InvalidEscape => "invalid escape sequence"@,
    }
}

/// What a syntax error is called.
pub open spec fn syntax_description(kind: SyntaxErrorKindView) -> Seq<char> {
    match kind {
        SyntaxErrorKindView::UnexpectedToken(..) => "unexpected token"@,
        SyntaxErrorKindView::UnexpectedEof(..) => "unexpected end of input"@,
        SyntaxErrorKindView::InvalidToken => "invalid token"@,
        SyntaxErrorKindView::ExtraToken => "extra token"@,
    }
}

/// The hints for a syntax error. At the end of the input, the end itself
/// counts as expected too.
pub open spec fn syntax_error_hints(kind: SyntaxErrorKindView) -> Seq<Seq<char>> {
    match kind {
        SyntaxErrorKindView::UnexpectedToken(expected, found) => syntax_hints(
            expected,
            Some(found),
        ),
        SyntaxErrorKindView::UnexpectedEof(expected) => syntax_hints(
            expected.push("!eof"@),
            None,
        ),
        SyntaxErrorKindView::InvalidToken => Seq::empty(),
        SyntaxErrorKindView::ExtraToken => Seq::empty(),
    }
}

/// The letter that makes a plural of a count above one.
pub open spec fn plural(n: usize) -> Seq<char> {
    if n > 1 {
        "s"@
    } else {
        ""@
    }
}

/// What there is to say about a declaration error.
pub open spec fn declaration_description(kind: DeclarationErrorKindView) -> Seq<PieceView> {
    match kind {
        DeclarationErrorKindView::UndeclaredIdentifier(id, similar) => if is_wildcard(id) {
            seq![plain("wildcard identifier cannot be used"@)]
        } else {
            seq![plain("undeclared identifier "@), bold(id)]
        },
        DeclarationErrorKindView::DuplicateDeclaration(id) => seq![
            plain("duplicate declaration of "@),
            bold(id),
        ],
        DeclarationErrorKindView::ReservedIdentifier(id) => seq![
            plain("reserved identifier "@),
            bold(id),
            plain(" cannot be used"@),
        ],
        DeclarationErrorKindView::FunctionSignatureMismatch { params_found, types_found } => seq![
            plain(
                "wrong function signature, found "@ + nat_text(params_found as nat)
                    + " parameter"@ + plural(params_found) + " and "@ + nat_text(
                    types_found as nat,
                ) + " type"@ + plural(types_found),
            ),
        ],
        DeclarationErrorKindView::DuplicateMain => seq![plain("duplicate main function"@)],
        DeclarationErrorKindView::MissingMain => seq![plain("missing main function"@)],
    }
}

/// The hints for a declaration error.
pub open spec fn declaration_hints(kind: DeclarationErrorKindView) -> Seq<Seq<PieceView>> {
    match kind {
        DeclarationErrorKindView::UndeclaredIdentifier(id, Some(similar)) => seq![
            seq![plain("did you mean "@), bold(similar), plain("?"@)],
        ],
        DeclarationErrorKindView::MissingMain => seq![
            seq![plain("define the entry point with "@), bold("let main(_) : Unit -> Unit"@)],
        ],
        _ => Seq::empty(),
    }
}

/// What there is to say about a type error.
pub open spec fn type_description(kind: TypeErrorKindView) -> Seq<PieceView> {
    match kind {
        TypeErrorKindView::TypeMismatch { found, expected } => seq![
            plain("type mismatch, found "@),
            bold(type_text(found)),
            plain(", expected "@),
            bold(type_text(expected)),
        ],
        TypeErrorKindView::IncompatibleTypes(lhs, rhs) => seq![
            plain("expected equal types, found "@),
            bold(type_text(lhs)),
            plain(" and "@),
            bold(type_text(rhs)),
        ],
        TypeErrorKindView::ArgumentCountMismatch { found, expected } => seq![
            plain("wrong number of arguments, found "@),
            bold(nat_text(found as nat)),
            plain(", expected "@),
            bold(nat_text(expected as nat)),
        ],
        TypeErrorKindView::NotCallable { found } => seq![
            plain("expression not callable, found "@),
            bold(type_text(found)),
            plain(", expected function"@),
        ],
        TypeErrorKindView::NotIndexable { found } => seq![
            plain("expression not indexable, found "@),
            bold(type_text(found)),
            plain(", expected array"@),
        ],
        TypeErrorKindView::MainSignatureMismatch => seq![
            plain("main function must have signature "@),
            bold("Unit -> Unit"@),
        ],
    }
}

/// What there is to say about an error of the compiler.
pub open spec fn error_report(e: CompileErrorView) -> ReportView {
    match e {
        CompileErrorView::Lexical(e) => ReportView {
            label: "Lexical Error:"@,
            span: e.span,
            description: seq![plain(lexical_description(e.kind))],
            hints: Seq::empty(),
        },
        CompileErrorView::Syntax(e) => ReportView {
            label: "Syntax Error:"@,
            span: e.span,
            description: seq![plain(syntax_description(e.kind))],
            hints: plain_hints(syntax_error_hints(e.kind)),
        },
        CompileErrorView::Semantic(SemanticErrorView::Declaration(e)) => ReportView {
            label: "Declaration Error:"@,
            span: e.span,
            description: declaration_description(e.kind),
            hints: declaration_hints(e.kind),
        },
        CompileErrorView::Semantic(SemanticErrorView::Type(e)) => ReportView {
            label: "Type Error:"@,
            span: e.span,
            description: type_description(e.kind),
            hints: Seq::empty(),
        },
    }
}

/// What there is to say about a warning.
pub open spec fn warning_report(w: WarningView) -> ReportView {
    match w {
        WarningView::UnusedIdentifier(id) => ReportView {
            label: "Warning:"@,
            span: id.span,
            description: seq![plain("unused identifier "@), bold(id.value)],
            hints: seq![
                seq![
                    plain("if this is intentional, prefix it with an underscore: "@),
                    bold("_"@ + id.value),
                ],
            ],
        },
        WarningView::RedefinedVariable(id) => ReportView {
            label: "Warning:"@,
            span: id.span,
            description: seq![
                plain("the variable "@),
                bold(id.value),
                plain(" is redefined in the same scope"@),
            ],
            hints: Seq::empty(),
        },
    }
}

/// The pieces of a report: the message, and under it the hints, unless
/// they are suppressed or there are none.
pub open spec fn report_pieces(
    report: ReportView,
    tint: Tint,
    suppress_hints: bool,
    path: Seq<char>,
    source: Seq<char>,
) -> Seq<PieceView> {
    let message = message_pieces(
        path,
        source,
        report.span,
        report.label,
        report.description,
        tint,
    );
    if !suppress_hints && report.hints.len() > 0 {
        message + hints_pieces(report.hints)
    } else {
        message
    }
}

/// The pieces of one error: for an error of the compiler its report in
/// red, for an error of the compiled program's run its message behind a
/// label.
pub open spec fn error_pieces(
    e: AgudaErrorView,
    suppress_hints: bool,
    path: Seq<char>,
    source: Seq<char>,
) -> Seq<PieceView> {
    match e {
        AgudaErrorView::Compile(e) => report_pieces(
            error_report(e),
            Tint::Red,
            suppress_hints,
            path,
            source,
        ),
        AgudaErrorView::Runtime(message) => seq![
            PieceView { text: "Runtime Error:"@, style: Style::BoldRed },
            plain(" "@),
            plain(message),
        ],
    }
}

fn new_pieces() -> (pieces: Vec<Piece>)
    ensures
        piece_views(pieces@) == Seq::<PieceView>::empty(),
{
    let pieces: Vec<Piece> = Vec::new();
    proof {
        assert(piece_views(pieces@) =~= Seq::empty());
    }
    pieces
}

fn no_hints() -> (hints: Vec<Vec<Piece>>)
    ensures
        hint_views(hints@) == Seq::<Seq<PieceView>>::empty(),
{
    let hints: Vec<Vec<Piece>> = Vec::new();
    proof {
        assert(hint_views(hints@) =~= Seq::empty());
    }
    hints
}

fn one_hint(hint: Vec<Piece>) -> (hints: Vec<Vec<Piece>>)
    ensures
        hint_views(hints@) == seq![piece_views(hint@)],
{
    let ghost view = piece_views(hint@);
    let mut hints: Vec<Vec<Piece>> = Vec::new();
    hints.push(hint);
    proof {
        assert(hint_views(hints@) =~= seq![view]);
    }
    hints
}

fn plural_text(n: usize) -> (text: &'static str)
    ensures
        text@ == plural(n),
{
    if n > 1 {
        "s"
    } else {
        ""
    }
}

fn describe_lexical(kind: LexicalErrorKind) -> (text: &'static str)
    ensures
        text@ == lexical_description(kind),
{
    match kind {
        LexicalErrorKind::UnrecognizedToken => "unrecognized token",
        LexicalErrorKind::UnterminatedString => "unterminated string",
        LexicalErrorKind::InvalidInteger => "invalid integer literal",
        LexicalErrorKind::IntegerOverflow => "integer overflow",
        LexicalErrorKind::FloatingPointNumber => "floating point number",
        LexicalErrorKind::InvalidEscape => "invalid escape sequence",
    }
}

fn clone_names(names: &Vec<String>) -> (copy: Vec<String>)
    ensures
        string_views(copy@) == string_views(names@),
{
    let mut copy: Vec<String> = Vec::new();
    let mut i: usize = 0;
    while i < names.len()
        invariant
            i <= names@.len(),
            copy@.len() == i,
            forall|j: int| 0 <= j < i ==> (#[trigger] copy@[j])@ == names@[j]@,
        decreases names@.len() - i,
    {
        copy.push(names[i].clone());
        i += 1;
    }
    proof {
        assert(string_views(copy@) =~= string_views(names@));
    }
    copy
}

fn describe_syntax(kind: &SyntaxErrorKind) -> (result: (&'static str, Vec<String>))
    ensures
        result.0@ == syntax_description(kind@),
        string_views(result.1@) == syntax_error_hints(kind@),
{
    match kind {
        SyntaxErrorKind::UnexpectedToken(expected, found) => (
            "unexpected token",
            get_syntax_hints(clone_names(expected), Some(found.clone())),
        ),
        SyntaxErrorKind::UnexpectedEof(expected) => {
            let mut names = clone_names(expected);
            names.push("!eof".to_owned());
            proof {
                assert(string_views(names@) =~= string_views(expected@).push("!eof"@));
            }
            ("unexpected end of input", get_syntax_hints(names, None))
        },
        SyntaxErrorKind::InvalidToken => {
            let none: Vec<String> = Vec::new();
            proof {
                assert(string_views(none@) =~= Seq::empty());
            }
            ("invalid token", none)
        },
        SyntaxErrorKind::ExtraToken => {
            let none: Vec<String> = Vec::new();
            proof {
                assert(string_views(none@) =~= Seq::empty());
            }
            ("extra token", none)
        },
    }
}

fn describe_declaration(kind: &DeclarationErrorKind) -> (result: (Vec<Piece>, Vec<Vec<Piece>>))
    ensures
        piece_views(result.0@) == declaration_description(kind@),
        hint_views(result.1@) == declaration_hints(kind@),
{
    let mut words = new_pieces();
    match kind {
        DeclarationErrorKind::UndeclaredIdentifier(id, similar) => {
            if starts_with_underscore(id.as_str()) {
                put(&mut words, "wildcard identifier cannot be used", Style::Plain);
            } else {
                put(&mut words, "undeclared identifier ", Style::Plain);
                put(&mut words, id.as_str(), Style::Bold);
            }
            match similar {
                Some(s) => {
                    let mut hint = new_pieces();
                    put(&mut hint, "did you mean ", Style::Plain);
                    put(&mut hint, s.as_str(), Style::Bold);
                    put(&mut hint, "?", Style::Plain);
                    assert(piece_views(hint@) == seq![
                        plain("did you mean "@),
                        bold(s@),
                        plain("?"@),
                    ]);
                    (words, one_hint(hint))
                },
                None => (words, no_hints()),
            }
        },
        DeclarationErrorKind::DuplicateDeclaration(id) => {
            put(&mut words, "duplicate declaration of ", Style::Plain);
            put(&mut words, id.as_str(), Style::Bold);
            (words, no_hints())
        },
        DeclarationErrorKind::ReservedIdentifier(id) => {
            put(&mut words, "reserved identifier ", Style::Plain);
            put(&mut words, id.as_str(), Style::Bold);
            put(&mut words, " cannot be used", Style::Plain);
            (words, no_hints())
        },
        DeclarationErrorKind::FunctionSignatureMismatch { params_found, types_found } => {
            let mut text = "wrong function signature, found ".to_owned();
            text.append(usize_to_text(*params_found).as_str());
            text.append(" parameter");
            text.append(plural_text(*params_found));
            text.append(" and ");
            text.append(usize_to_text(*types_found).as_str());
            text.append(" type");
            text.append(plural_text(*types_found));
            put(&mut words, text.as_str(), Style::Plain);
            (words, no_hints())
        },
        DeclarationErrorKind::DuplicateMain => {
            put(&mut words, "duplicate main function", Style::Plain);
            (words, no_hints())
        },
        DeclarationErrorKind::MissingMain => {
            put(&mut words, "missing main function", Style::Plain);
            let mut hint = new_pieces();
            put(&mut hint, "define the entry point with ", Style::Plain);
            put(&mut hint, "let main(_) : Unit -> Unit", Style::Bold);
            assert(piece_views(hint@) == seq![
                plain("define the entry point with "@),
                bold("let main(_) : Unit -> Unit"@),
            ]);
            (words, one_hint(hint))
        },
    }
}

fn describe_type(kind: &TypeErrorKind) -> (words: Vec<Piece>)
    ensures
        piece_views(words@) == type_description(kind@),
{
    let mut words = new_pieces();
    match kind {
        TypeErrorKind::TypeMismatch { found, expected } => {
            put(&mut words, "type mismatch, found ", Style::Plain);
            put(&mut words, found.to_text().as_str(), Style::Bold);
            put(&mut words, ", expected ", Style::Plain);
            put(&mut words, expected.to_text().as_str(), Style::Bold);
        },
        TypeErrorKind::IncompatibleTypes(lhs, rhs) => {
            put(&mut words, "expected equal types, found ", Style::Plain);
            put(&mut words, lhs.to_text().as_str(), Style::Bold);
            put(&mut words, " and ", Style::Plain);
            put(&mut words, rhs.to_text().as_str(), Style::Bold);
        },
        TypeErrorKind::ArgumentCountMismatch { found, expected } => {
            put(&mut words, "wrong number of arguments, found ", Style::Plain);
            put(&mut words, usize_to_text(*found).as_str(), Style::Bold);
            put(&mut words, ", expected ", Style::Plain);
            put(&mut words, usize_to_text(*expected).as_str(), Style::Bold);
        },
        TypeErrorKind::NotCallable { found } => {
            put(&mut words, "expression not callable, found ", Style::Plain);
            put(&mut words, found.to_text().as_str(), Style::Bold);
            put(&mut words, ", expected function", Style::Plain);
        },
        TypeErrorKind::NotIndexable { found } => {
            put(&mut words, "expression not indexable, found ", Style::Plain);
            put(&mut words, found.to_text().as_str(), Style::Bold);
            put(&mut words, ", expected array", Style::Plain);
        },
        TypeErrorKind::MainSignatureMismatch => {
            put(&mut words, "main function must have signature ", Style::Plain);
            put(&mut words, "Unit -> Unit", Style::Bold);
        },
    }
    words
}

/// Says what there is to say about an error of the compiler.
pub fn describe_error(e: &CompileError) -> (report: Report)
    ensures
        report@ == error_report(e@),
{
    match e {
        CompileError::Lexical(e) => {
            let mut words = new_pieces();
            put(&mut words, describe_lexical(e.kind), Style::Plain);
            Report {
                label: "Lexical Error:".to_owned(),
                span: e.span,
                description: words,
                hints: no_hints(),
            }
        },
        CompileError::Syntax(e) => {
            let (text, hints) = describe_syntax(&e.kind);
            let mut words = new_pieces();
            put(&mut words, text, Style::Plain);
            Report {
                label: "Syntax Error:".to_owned(),
                span: e.span,
                description: words,
                hints: as_plain_hints(&hints),
            }
        },
        CompileError::Semantic(SemanticError::Declaration(e)) => {
            let (words, hints) = describe_declaration(&e.kind);
            Report {
                label: "Declaration Error:".to_owned(),
                span: e.span,
                description: words,
                hints,
            }
        },
        CompileError::Semantic(SemanticError::Type(e)) => Report {
            label: "Type Error:".to_owned(),
            span: e.span,
            description: describe_type(&e.kind),
            hints: no_hints(),
        },
    }
}

/// Says what there is to say about a warning.
pub fn describe_warning(w: &Warning) -> (report: Report)
    ensures
        report@ == warning_report(w@),
{
    match w {
        Warning::UnusedIdentifier(id) => {
            let mut words = new_pieces();
            put(&mut words, "unused identifier ", Style::Plain);
            put(&mut words, id.value.as_str(), Style::Bold);
            let mut renamed = "_".to_owned();
            renamed.append(id.value.as_str());
            let mut hint = new_pieces();
            put(&mut hint, "if this is intentional, prefix it with an underscore: ", Style::Plain);
            put(&mut hint, renamed.as_str(), Style::Bold);
            assert(piece_views(hint@) == seq![
                plain("if this is intentional, prefix it with an underscore: "@),
                bold("_"@ + id.value@),
            ]);
            let report = Report {
                label: "Warning:".to_owned(),
                span: id.span,
                description: words,
                hints: one_hint(hint),
            };
            assert(report@.hints == warning_report(w@).hints);
            assert(report@.description == warning_report(w@).description);
            report
        },
        Warning::RedefinedVariable(id) => {
            let mut words = new_pieces();
            put(&mut words, "the variable ", Style::Plain);
            put(&mut words, id.value.as_str(), Style::Bold);
            put(&mut words, " is redefined in the same scope", Style::Plain);
            let report = Report {
                label: "Warning:".to_owned(),
                span: id.span,
                description: words,
                hints: no_hints(),
            };
            assert(report@.hints == warning_report(w@).hints);
            assert(report@.description == warning_report(w@).description);
            assert(report@.label == warning_report(w@).label);
            assert(report@.span == warning_report(w@).span);
            report
        },
    }
}

/// Builds the pieces of a report.
pub fn report_to_pieces(report: Report, tint: Tint, suppress_hints: bool, path: &str, source: &str) -> (pieces:
    Vec<Piece>)
    ensures
        piece_views(pieces@) == report_pieces(report@, tint, suppress_hints, path@, source@),
{
    let Report { label, span, description, hints } = report;
    let mut pieces = message(path, source, span, label.as_str(), description, tint);
    if !suppress_hints && hints.len() > 0 {
        put_all(&mut pieces, hints_block(hints));
    }
    pieces
}

/// Builds the pieces of one error.
pub fn error_to_pieces(e: &AgudaError, suppress_hints: bool, path: &str, source: &str) -> (pieces:
    Vec<Piece>)
    ensures
        piece_views(pieces@) == error_pieces(e@, suppress_hints, path@, source@),
{
    match e {
        AgudaError::Compile(e) => report_to_pieces(
            describe_error(e),
            Tint::Red,
            suppress_hints,
            path,
            source,
        ),
        AgudaError::Runtime(e) => {
            let mut pieces = new_pieces();
            put(&mut pieces, "Runtime Error:", Style::BoldRed);
            put(&mut pieces, " ", Style::Plain);
            put(&mut pieces, e.message.as_str(), Style::Plain);
            pieces
        },
    }
}

} // verus!

verus! {

/// The first `n` lists of pieces, with a line break between each two.
pub open spec fn listing(items: Seq<Seq<PieceView>>, n: nat) -> Seq<PieceView>
    decreases n,
{
    if n == 0 || n > items.len() {
        Seq::empty()
    } else if n == 1 {
        items[0]
    } else {
        listing(items, (n - 1) as nat).push(plain("\n"@)) + items[n - 1]
    }
}

/// The smaller of a limit and a length.
pub open spec fn shown(max: usize, len: nat) -> nat {
    if max <= len {
        max as nat
    } else {
        len
    }
}

/// The note that stands for the items that were left out, if any were.
pub open spec fn left_out(len: nat, shown: nat, what: Seq<char>, tint: Tint) -> Seq<PieceView> {
    if len > shown {
        seq![
            PieceView {
                text: "\n  (+"@ + nat_text((len - shown) as nat) + " more "@ + what + ")"@,
                style: bold_in(tint),
            },
        ]
    } else {
        Seq::empty()
    }
}

/// The views of a list of errors.
pub open spec fn aguda_error_views(errors: Seq<AgudaError>) -> Seq<AgudaErrorView> {
    Seq::new(errors.len(), |i: int| errors[i]@)
}

/// The pieces of each error of a list.
pub open spec fn each_error_pieces(
    errors: Seq<AgudaErrorView>,
    suppress_hints: bool,
    path: Seq<char>,
    source: Seq<char>,
) -> Seq<Seq<PieceView>> {
    Seq::new(errors.len(), |i: int| error_pieces(errors[i], suppress_hints, path, source))
}

/// The pieces of a list of errors: the first `max_errors` of them, one
/// under the other, and a note on how many more there are.
pub open spec fn errors_pieces(
    errors: Seq<AgudaErrorView>,
    max_errors: usize,
    suppress_hints: bool,
    path: Seq<char>,
    source: Seq<char>,
) -> Seq<PieceView> {
    let n = shown(max_errors, errors.len());
    listing(each_error_pieces(errors, suppress_hints, path, source), n) + left_out(
        errors.len(),
        n,
        "errors"@,
        Tint::Red,
    )
}

/// The pieces of each warning of a list.
pub open spec fn each_warning_pieces(
    warnings: Seq<WarningView>,
    suppress_hints: bool,
    path: Seq<char>,
    source: Seq<char>,
) -> Seq<Seq<PieceView>> {
    Seq::new(
        warnings.len(),
        |i: int| report_pieces(warning_report(warnings[i]), Tint::Yellow, suppress_hints, path, source),
    )
}

/// The pieces of a list of warnings: the first `max_warnings` of them, one
/// under the other, and a note on how many more there are.
pub open spec fn warnings_pieces(
    warnings: Seq<WarningView>,
    max_warnings: usize,
    suppress_hints: bool,
    path: Seq<char>,
    source: Seq<char>,
) -> Seq<PieceView> {
    let n = shown(max_warnings, warnings.len());
    listing(each_warning_pieces(warnings, suppress_hints, path, source), n) + left_out(
        warnings.len(),
        n,
        "warnings"@,
        Tint::Yellow,
    )
}

fn put_left_out(pieces: &mut Vec<Piece>, len: usize, shown: usize, what: &str, tint: Tint)
    requires
        shown <= len,
    ensures
        piece_views(final(pieces)@) == piece_views(old(pieces)@) + left_out(
            len as nat,
            shown as nat,
            what@,
            tint,
        ),
{
    if len > shown {
        let mut text = "\n  (+".to_owned();
        text.append(usize_to_text(len - shown).as_str());
        text.append(" more ");
        text.append(what);
        text.append(")");
        let style = style_of(tint);
        let ghost before = piece_views(pieces@);
        put(pieces, text.as_str(), style);
        proof {
            assert(before.push(PieceView { text: text@, style }) =~= before + left_out(
                len as nat,
                shown as nat,
                what@,
                tint,
            ));
        }
    } else {
        proof {
            assert(piece_views(pieces@) + Seq::<PieceView>::empty() =~= piece_views(pieces@));
        }
    }
}

/// Formats a list of errors for the terminal.
pub fn format_aguda_errors(
    errors: Vec<AgudaError>,
    max_errors: usize,
    suppress_hints: bool,
    file: &str,
    src: &str,
) -> (text: String)
    ensures
        is_rendering(
            errors_pieces(aguda_error_views(errors@), max_errors, suppress_hints, file@, src@),
            text@,
        ),
{
    let ghost items = each_error_pieces(aguda_error_views(errors@), suppress_hints, file@, src@);
    let n = if max_errors <= errors.len() {
        max_errors
    } else {
        errors.len()
    };
    let mut pieces = new_pieces();
    let mut i: usize = 0;
    while i < n
        invariant
            i <= n <= errors@.len(),
            items == each_error_pieces(aguda_error_views(errors@), suppress_hints, file@, src@),
            piece_views(pieces@) == listing(items, i as nat),
        decreases n - i,
    {
        let next = error_to_pieces(&errors[i], suppress_hints, file, src);
        proof {
            assert(items[i as int] == piece_views(next@));
        }
        if i > 0 {
            put(&mut pieces, "\n", Style::Plain);
            put_all(&mut pieces, next);
        } else {
            put_all(&mut pieces, next);
            proof {
                assert(piece_views(pieces@) =~= items[0]);
            }
        }
        i += 1;
    }
    put_left_out(&mut pieces, errors.len(), n, "errors", Tint::Red);
    render(&pieces)
}

/// Formats a list of warnings for the terminal.
pub fn format_warnings(
    warnings: Vec<Warning>,
    max_warnings: usize,
    suppress_hints: bool,
    file: &str,
    src: &str,
) -> (text: String)
    ensures
        is_rendering(
            warnings_pieces(
                crate::semantic::declaration_checker::warning_views(warnings@),
                max_warnings,
                suppress_hints,
                file@,
                src@,
            ),
            text@,
        ),
{
    let ghost views = crate::semantic::declaration_checker::warning_views(warnings@);
    let ghost items = each_warning_pieces(views, suppress_hints, file@, src@);
    let n = if max_warnings <= warnings.len() {
        max_warnings
    } else {
        warnings.len()
    };
    let mut pieces = new_pieces();
    let mut i: usize = 0;
    while i < n
        invariant
            i <= n <= warnings@.len(),
            views == crate::semantic::declaration_checker::warning_views(warnings@),
            items == each_warning_pieces(views, suppress_hints, file@, src@),
            piece_views(pieces@) == listing(items, i as nat),
        decreases n - i,
    {
        let next = report_to_pieces(
            describe_warning(&warnings[i]),
            Tint::Yellow,
            suppress_hints,
            file,
            src,
        );
        proof {
            assert(items[i as int] == piece_views(next@));
        }
        if i > 0 {
            put(&mut pieces, "\n", Style::Plain);
            put_all(&mut pieces, next);
        } else {
            put_all(&mut pieces, next);
            proof {
                assert(piece_views(pieces@) =~= items[0]);
            }
        }
        i += 1;
    }
    put_left_out(&mut pieces, warnings.len(), n, "warnings", Tint::Yellow);
    render(&pieces)
}

} // verus!

verus! {

/// Formats one error for the terminal.
pub fn format_aguda_error(e: &AgudaError, suppress_hints: bool, path: &str, src: &str) -> (text:
    String)
    ensures
        is_rendering(error_pieces(e@, suppress_hints, path@, src@), text@),
{
    let pieces = error_to_pieces(e, suppress_hints, path, src);
    render(&pieces)
}

/// Formats one warning for the terminal.
pub fn format_warning(warning: &Warning, suppress_hints: bool, path: &str, src: &str) -> (text:
    String)
    ensures
        is_rendering(
            report_pieces(warning_report(warning@), Tint::Yellow, suppress_hints, path@, src@),
            text@,
        ),
{
    let pieces = report_to_pieces(
        describe_warning(warning),
        Tint::Yellow,
        suppress_hints,
        path,
        src,
    );
    render(&pieces)
}

} // verus!
