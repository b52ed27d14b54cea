//! The semantic error taxonomy: node-local error kinds without position, and
//! the range-tagged error that pairs a kind with the source range of the node
//! that produced it.

use vstd::prelude::*;
use vstd::string::StringExecFns;
use crate::text::type_text;
use crate::types::{Span, Type};

verus! {

/// Mathematical form of a node-local semantic error.
#[verifier::ext_equal]
pub enum ErrV {
    TypeErr { expected: Seq<Type>, got: Type },
    InvalidLimit,
}

/// A node-local semantic error: what went wrong, with no position attached.
#[derive(Debug, PartialEq)]
pub enum SemanticErrorKind {
    TypeError { expected: Vec<Type>, got: Type },
    InvalidLimit,
}

impl View for SemanticErrorKind {
    type V = ErrV;

    open spec fn view(&self) -> ErrV {
        match self {
            SemanticErrorKind::TypeError { expected, got } => ErrV::TypeErr {
                expected: expected@,
                got: *got,
            },
            SemanticErrorKind::InvalidLimit => ErrV::InvalidLimit,
        }
    }
}

impl DeepView for SemanticErrorKind {
    type V = ErrV;

    open spec fn deep_view(&self) -> ErrV {
        self.view()
    }
}

/// Mathematical form of a range-tagged semantic error.
#[verifier::ext_equal]
pub struct SemErrV {
    pub range: Span,
    pub kind: ErrV,
}

/// A range-tagged semantic error: a node-local kind paired with the source
/// character range that produced it.
#[derive(Debug, PartialEq)]
pub struct SemanticError {
    pub range: Span,
    pub kind: SemanticErrorKind,
}

impl View for SemanticError {
    type V = SemErrV;

    open spec fn view(&self) -> SemErrV {
        SemErrV { range: self.range, kind: self.kind@ }
    }
}

impl DeepView for SemanticError {
    type V = SemErrV;

    open spec fn deep_view(&self) -> SemErrV {
        self.view()
    }
}

impl SemanticError {
    pub fn new(range: Span, kind: SemanticErrorKind) -> (e: SemanticError)
        ensures
            e@ == (SemErrV { range, kind: kind@ }),
    {
        SemanticError { range, kind }
    }
}

// ---------------------------------------------------------------------------
// Rendering
// ---------------------------------------------------------------------------

/// Expected types joined with `/`.
pub open spec fn expected_text(ts: Seq<Type>) -> Seq<char>
    decreases ts,
{
    if ts.len() == 0 {
        Seq::empty()
    } else if ts.len() == 1 {
        type_text(ts[0])
    } else {
        type_text(ts[0]) + "/"@ + expected_text(ts.drop_first())
    }
}

/// The category label of an error kind.
pub open spec fn kind_title(k: ErrV) -> Seq<char> {
    match k {
        ErrV::TypeErr { .. } => "Type Error"@,
        ErrV::InvalidLimit => "Invalid Limit"@,
    }
}

/// The one-line description of an error kind. At most the first three
/// expected types are shown, then an ellipsis.
pub open spec fn kind_description(k: ErrV) -> Seq<char> {
    match k {
        ErrV::TypeErr { expected, got } => "Expected "@ + expected_text(
            if expected.len() > 3 {
                expected.take(3)
            } else {
                expected
            },
        ) + (if expected.len() > 3 {
            "..."@
        } else {
            Seq::empty()
        }) + ", got "@ + type_text(got),
        ErrV::InvalidLimit => "This expression cannot be used as a limit"@,
    }
}

proof fn lemma_expected_text_snoc(ts: Seq<Type>, i: int)
    requires
        0 < i < ts.len(),
    ensures
        expected_text(ts.take(i + 1)) == expected_text(ts.take(i)) + "/"@ + type_text(ts[i]),
    decreases i,
{
    let u = ts.drop_first();
    if i == 1 {
        assert(ts.take(2).drop_first() =~= u.take(1));
        assert(ts.take(2)[0] == ts[0]);
        assert(u.take(1)[0] == ts[1]);
        assert(ts.take(1)[0] == ts[0]);
        assert(expected_text(u.take(1)) == type_text(ts[1]));
        assert(expected_text(ts.take(1)) == type_text(ts[0]));
        assert(expected_text(ts.take(2)) =~= expected_text(ts.take(1)) + "/"@ + type_text(ts[1]));
    } else {
        lemma_expected_text_snoc(u, i - 1);
        assert(ts.take(i + 1).drop_first() =~= u.take(i));
        assert(ts.take(i).drop_first() =~= u.take(i - 1));
        assert(u[i - 1] == ts[i]);
        assert(ts.take(i + 1)[0] == ts[0]);
        assert(ts.take(i)[0] == ts[0]);
        assert(expected_text(ts.take(i + 1)) =~= expected_text(ts.take(i)) + "/"@ + type_text(
            ts[i],
        ));
    }
}

impl SemanticError {
    /// The category label of this error.
    pub fn title(&self) -> (r: String)
        ensures
            r@ == kind_title(self.kind@),
    {
        match &self.kind {
            SemanticErrorKind::TypeError { .. } => String::from_str("Type Error"),
            SemanticErrorKind::InvalidLimit => String::from_str("Invalid Limit"),
        }
    }

    /// The one-line description of this error.
    #[verifier::loop_isolation(false)]
    pub fn description(&self) -> (r: String)
        ensures
            r@ == kind_description(self.kind@),
    {
        match &self.kind {
            SemanticErrorKind::TypeError { expected, got } => {
                let limit: usize = if expected.len() > 3 {
                    3
                } else {
                    expected.len()
                };
                let ghost shown = if expected@.len() > 3 {
                    expected@.take(3)
                } else {
                    expected@
                };
                let mut s = String::from_str("Expected ");
                let mut i: usize = 0;
                while i < limit
                    invariant
                        i <= limit,
                        limit <= expected@.len(),
                        limit == shown.len(),
                        shown =~= (if expected@.len() > 3 {
                            expected@.take(3)
                        } else {
                            expected@
                        }),
                        s@ == "Expected "@ + expected_text(shown.take(i as int)),
                    decreases limit - i,
                {
                    if i > 0 {
                        s.append("/");
                    }
                    let piece = expected[i].describe();
                    s.append(piece.as_str());
                    proof {
                        assert(shown[i as int] == expected@[i as int]);
                        if i == 0 {
                            assert(shown.take(1)[0] == shown[0]);
                            assert(expected_text(shown.take(1)) =~= type_text(shown[0]));
                            assert(s@ =~= "Expected "@ + expected_text(shown.take(1)));
                        } else {
                            lemma_expected_text_snoc(shown, i as int);
                            assert(s@ =~= "Expected "@ + expected_text(shown.take(i as int + 1)));
                        }
                    }
                    i = i + 1;
                }
                if expected.len() > 3 {
                    s.append("...");
                }
                s.append(", got ");
                let got_text = got.describe();
                s.append(got_text.as_str());
                proof {
                    assert(shown.take(limit as int) =~= shown);
                    assert(s@ =~= kind_description(self.kind@));
                }
                s
            },
            SemanticErrorKind::InvalidLimit => String::from_str(
                "This expression cannot be used as a limit",
            ),
        }
    }

    /// Supplementary notes; semantic errors carry none.
    pub fn notes(&self) -> (r: Vec<String>)
        ensures
            r@.len() == 0,
    {
        Vec::new()
    }
}

impl crate::throwable::Throwable for SemanticError {
    open spec fn range_spec(&self) -> Span {
        self.range
    }

    open spec fn title_spec(&self) -> Seq<char> {
        kind_title(self.kind@)
    }

    open spec fn description_spec(&self) -> Seq<char> {
        kind_description(self.kind@)
    }

    open spec fn notes_spec(&self) -> Seq<Seq<char>> {
        Seq::empty()
    }

    fn position(&self, positioner: &crate::position::PositionBuilder) -> (r: Option<
        crate::position::Position,
    >) {
        positioner.try_pos(self.range)
    }

    fn title(&self) -> (r: String) {
        SemanticError::title(self)
    }

    fn description(&self) -> (r: String) {
        SemanticError::description(self)
    }

    fn notes(&self) -> (r: Vec<String>) {
        let r: Vec<String> = Vec::new();
        proof {
            assert(r.deep_view() =~= Seq::<Seq<char>>::empty());
        }
        r
    }
}

} // verus!
