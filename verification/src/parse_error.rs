//! Syntactic errors: a malformed token sequence reported by the external
//! grammar, with the expected-token hint and the source range it occupies.

use vstd::prelude::*;
use vstd::string::StringExecFns;
use crate::position::{Position, PositionBuilder};
use crate::throwable::Throwable;
use crate::types::Span;

verus! {

/// Numbered reference to a recovered error and the range it covered.
#[derive(Debug, Clone, Copy, PartialEq, Eq, Structural)]
pub struct ErrorRef(pub usize, pub Span);

impl ErrorRef {
    /// The fixed marker text a recovered error slot renders as.
    pub fn to_text(&self) -> (r: String)
        ensures
            r@ == "!!Error"@,
    {
        String::from_str("!!Error")
    }
}

/// The kinds of malformed token sequence the grammar reports.
#[derive(Debug, Clone, Copy, PartialEq, Eq, Structural)]
pub enum ErrorVariant {
    InvalidToken,
    UnrecognizedToken,
    UnexpectedEOF,
    ExtraToken,
    Other,
}

/// The quoted token, or the word `token` when none is at hand.
pub open spec fn token_piece(t: Option<Seq<char>>) -> Seq<char> {
    match t {
        Some(s) => "'"@ + s + "'"@,
        None => "token"@,
    }
}

/// The description of a syntactic error variant, with the offending token
/// quoted into the message when known.
pub open spec fn variant_message(v: ErrorVariant, t: Option<Seq<char>>) -> Seq<char> {
    match v {
        ErrorVariant::InvalidToken => "Stray "@ + token_piece(t) + " in program"@,
        ErrorVariant::UnrecognizedToken => "Unrecognized "@ + token_piece(t),
        ErrorVariant::UnexpectedEOF => "Unexpected end of file"@,
        ErrorVariant::ExtraToken => "Extra "@ + token_piece(t),
        ErrorVariant::Other => Seq::empty(),
    }
}

impl ErrorVariant {
    /// Renders this variant's description, quoting the offending token when
    /// one is known.
    pub fn describe(&self, token_text: Option<&String>) -> (r: String)
        ensures
            r@ == variant_message(
                *self,
                match token_text {
                    Some(t) => Some(t@),
                    None => None,
                },
            ),
    {
        let piece: String = match token_text {
            Some(t) => {
                let mut p = String::from_str("'");
                p.append(t.as_str());
                p.append("'");
                p
            },
            None => String::from_str("token"),
        };
        let r: String = match self {
            ErrorVariant::InvalidToken => {
                let mut s = String::from_str("Stray ");
                s.append(piece.as_str());
                s.append(" in program");
                s
            },
            ErrorVariant::UnrecognizedToken => {
                let mut s = String::from_str("Unrecognized ");
                s.append(piece.as_str());
                s
            },
            ErrorVariant::UnexpectedEOF => String::from_str("Unexpected end of file"),
            ErrorVariant::ExtraToken => {
                let mut s = String::from_str("Extra ");
                s.append(piece.as_str());
                s
            },
            ErrorVariant::Other => String::new(),
        };
        proof {
            assert(r@ =~= variant_message(
                *self,
                match token_text {
                    Some(t) => Some(t@),
                    None => None,
                },
            ));
        }
        r
    }
}

/// A syntactic error: the variant, the source range it occupies, the tokens
/// dropped during recovery, the expected-token hint, and the offending
/// token when one is known.
#[derive(Debug)]
pub struct ParsingError<T> {
    pub dropped: Vec<T>,
    pub position: Span,
    pub expected: Vec<String>,
    pub token: Option<T>,
    pub variant: ErrorVariant,
}

/// The token text of an error whose tokens are already rendered.
pub open spec fn token_text_of(e: ParsingError<String>) -> Option<Seq<char>> {
    match e.token {
        Some(t) => Some(t@),
        None => None,
    }
}

impl Throwable for ParsingError<String> {
    open spec fn range_spec(&self) -> Span {
        self.position
    }

    open spec fn title_spec(&self) -> Seq<char> {
        "Error:"@
    }

    open spec fn description_spec(&self) -> Seq<char> {
        variant_message(self.variant, token_text_of(*self))
    }

    open spec fn notes_spec(&self) -> Seq<Seq<char>> {
        Seq::empty()
    }

    fn position(&self, positioner: &PositionBuilder) -> (r: Option<Position>) {
        positioner.try_pos(self.position)
    }

    fn title(&self) -> (r: String) {
        String::from_str("Error:")
    }

    fn description(&self) -> (r: String) {
        let r = self.variant.describe(self.token.as_ref());
        proof {
            assert(r@ == self.description_spec());
        }
        r
    }

    fn notes(&self) -> (r: Vec<String>) {
        let r: Vec<String> = Vec::new();
        proof {
            assert(r.deep_view() =~= Seq::<Seq<char>>::empty());
        }
        r
    }
}

} // verus!
