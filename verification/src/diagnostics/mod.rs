use crate::diagnostics::formatting::{
    bold_in, hint_views, is_rendering, piece_views, plain, render, report_pieces,
    report_to_pieces, Piece, PieceView, Report, ReportView, Style, Tint,
};
use crate::syntax::ast::Span;
use vstd::prelude::*;

pub mod errors;
pub mod formatting;
pub mod hints;
pub mod warnings;

verus! {

/// The setting in which one message is rendered: the source it is about,
/// its colour, and the hints to put under it.
pub struct Diagnostic<'a> {
    pub path: &'a str,
    pub src: &'a str,
    pub hints: Vec<Vec<Piece>>,
    pub tint: Tint,
    pub suppress_hints: bool,
}

impl<'a> Diagnostic<'a> {
    pub fn new(path: &'a str, src: &'a str, tint: Tint, suppress_hints: bool) -> (d: Self)
        ensures
            d.path@ == path@,
            d.src@ == src@,
            d.tint == tint,
            d.suppress_hints == suppress_hints,
            hint_views(d.hints@) == Seq::<Seq<PieceView>>::empty(),
    {
        let d = Diagnostic { path, src, tint, suppress_hints, hints: Vec::new() };
        proof {
            assert(hint_views(d.hints@) =~= Seq::empty());
        }
        d
    }

    /// The same setting with the given hints.
    pub fn hints(self, hints: Vec<Vec<Piece>>) -> (d: Self)
        ensures
            d.path@ == self.path@,
            d.src@ == self.src@,
            d.tint == self.tint,
            d.suppress_hints == self.suppress_hints,
            d.hints == hints,
    {
        Diagnostic {
            path: self.path,
            src: self.src,
            tint: self.tint,
            suppress_hints: self.suppress_hints,
            hints,
        }
    }

    /// Renders a message about a place of the source, with the hints under
    /// it unless they are suppressed.
    pub fn render(self, label: &str, description: Vec<Piece>, span: Span) -> (text: String)
        ensures
            is_rendering(
                report_pieces(
                    ReportView {
                        label: label@,
                        span,
                        description: piece_views(description@),
                        hints: hint_views(self.hints@),
                    },
                    self.tint,
                    self.suppress_hints,
                    self.path@,
                    self.src@,
                ),
                text@,
            ),
    {
        let report = Report { label: label.to_owned(), span, description, hints: self.hints };
        let pieces = report_to_pieces(report, self.tint, self.suppress_hints, self.path, self.src);
        render(&pieces)
    }

    /// Renders a message that has no place in the source: the label with a
    /// colon, then the description.
    pub fn render_simple(self, label: &str, description: &str) -> (text: String)
        ensures
            is_rendering(
                seq![
                    PieceView { text: label@ + ":"@, style: bold_in(self.tint) },
                    plain(" "@ + description@),
                ],
                text@,
            ),
    {
        let mut head = label.to_owned();
        head.append(":");
        let mut tail = " ".to_owned();
        tail.append(description);
        let style = match self.tint {
            Tint::Red => Style::BoldRed,
            Tint::Yellow => Style::BoldYellow,
            Tint::Cyan => Style::BoldCyan,
        };
        let mut pieces: Vec<Piece> = Vec::new();
        pieces.push(Piece { text: head, style });
        pieces.push(Piece { text: tail, style: Style::Plain });
        proof {
            assert(piece_views(pieces@) =~= seq![
                PieceView { text: label@ + ":"@, style: bold_in(self.tint) },
                plain(" "@ + description@),
            ]);
        }
        render(&pieces)
    }
}

} // verus!
