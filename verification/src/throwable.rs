//! The renderable-diagnostic contract: anything that can report a title, a
//! description, notes and a source position, and the printable pairing of
//! such an error with the position mapper of its compilation unit.

use vstd::prelude::*;
use vstd::string::StringExecFns;
use crate::position::{mappable, pos_model, position_text, trace_text, Position, PositionBuilder};
use crate::types::Span;

verus! {

/// The rendered text of a diagnostic: title and description, then the
/// position block when the range maps, and one `Note:` line per note.
pub open spec fn rendered_text(
    title: Seq<char>,
    description: Seq<char>,
    trace: Option<Seq<char>>,
    notes: Seq<Seq<char>>,
) -> Seq<char>
    decreases notes.len(),
{
    if notes.len() > 0 {
        rendered_text(title, description, trace, notes.drop_last()) + "Note: "@ + notes.last()
            + "\n"@
    } else {
        title + " "@ + description + " at "@ + (match trace {
            Some(t) => t,
            None => "<unmappable position>\n"@,
        })
    }
}

/// A renderable diagnostic: a category title, a one-line description,
/// supplementary notes, and the source range the diagnostic points at.
pub trait Throwable {
    /// The source range this diagnostic points at.
    spec fn range_spec(&self) -> Span;

    /// The rendered category label.
    spec fn title_spec(&self) -> Seq<char>;

    /// The rendered one-line description.
    spec fn description_spec(&self) -> Seq<char>;

    /// The rendered supplementary notes.
    spec fn notes_spec(&self) -> Seq<Seq<char>>;

    fn position(&self, positioner: &PositionBuilder) -> (r: Option<Position>)
        ensures
            match r {
                Some(p) => mappable(
                    positioner.file@,
                    self.range_spec().start as int,
                    self.range_spec().end as int,
                ) && p@ == pos_model(
                    positioner.file@,
                    self.range_spec().start as int,
                    self.range_spec().end as int,
                ),
                None => !mappable(
                    positioner.file@,
                    self.range_spec().start as int,
                    self.range_spec().end as int,
                ),
            },
    ;

    fn title(&self) -> (r: String)
        ensures
            r@ == self.title_spec(),
    ;

    fn description(&self) -> (r: String)
        ensures
            r@ == self.description_spec(),
    ;

    fn notes(&self) -> (r: Vec<String>)
        ensures
            r.deep_view() == self.notes_spec(),
    ;

    /// Title and description alone, for reports without a source text.
    fn static_print(&self) -> (r: String)
        ensures
            r@ == self.title_spec() + " "@ + self.description_spec(),
    {
        let mut s = self.title();
        s.append(" ");
        let d = self.description();
        s.append(d.as_str());
        proof {
            assert(s@ =~= self.title_spec() + " "@ + self.description_spec());
        }
        s
    }
}

/// Whether a mapped position can be drawn as a caret underline: the column
/// range must fit the reported line.
pub open spec fn drawable(p: crate::position::PosV) -> bool {
    &&& p.col_start <= p.col_end
    &&& p.col_end <= p.line.len() + 1
    &&& p.line.len() < usize::MAX
}

/// The trace block of a diagnostic whose range maps and draws; `None`
/// otherwise.
pub open spec fn trace_of(file: Seq<char>, range: Span) -> Option<Seq<char>> {
    if mappable(file, range.start as int, range.end as int) && drawable(
        pos_model(file, range.start as int, range.end as int),
    ) {
        Some(trace_text(pos_model(file, range.start as int, range.end as int)))
    } else {
        None
    }
}

impl PositionBuilder {
    /// Pairs a diagnostic with this position mapper for rendering.
    pub fn printable<T: Throwable>(&self, e: T) -> (p: Printable<T>)
        ensures
            p.error == e,
            p.positioner == *self,
    {
        Printable { error: e, positioner: self.clone() }
    }
}

/// A diagnostic paired with the position mapper of its compilation unit,
/// ready to be rendered.
pub struct Printable<T> {
    pub error: T,
    pub positioner: PositionBuilder,
}

impl<T: Throwable> Printable<T> {
    pub fn new(error: T, positioner: PositionBuilder) -> (p: Printable<T>)
        ensures
            p.error == error,
            p.positioner == positioner,
    {
        Printable { error, positioner }
    }

    /// Renders the full diagnostic block.
    #[verifier::loop_isolation(false)]
    pub fn render(&self) -> (r: String)
        ensures
            r@ == rendered_text(
                self.error.title_spec(),
                self.error.description_spec(),
                trace_of(self.positioner.file@, self.error.range_spec()),
                self.error.notes_spec(),
            ),
    {
        let mut s = self.error.title();
        s.append(" ");
        let d = self.error.description();
        s.append(d.as_str());
        s.append(" at ");
        let mut traced = false;
        match self.error.position(&self.positioner) {
            Some(p) => {
                let line_len = p.line.as_str().unicode_len();
                if p.offset.start <= p.offset.end && line_len < usize::MAX && p.offset.end
                    <= line_len + 1 {
                    let t = p.trace();
                    s.append(t.as_str());
                    traced = true;
                }
            },
            None => {},
        }
        if !traced {
            s.append("<unmappable position>\n");
        }
        let ghost base = rendered_text(
            self.error.title_spec(),
            self.error.description_spec(),
            trace_of(self.positioner.file@, self.error.range_spec()),
            Seq::empty(),
        );
        proof {
            assert(s@ =~= base);
        }
        let notes = self.error.notes();
        let mut i: usize = 0;
        while i < notes.len()
            invariant
                i <= notes@.len(),
                notes.deep_view() == self.error.notes_spec(),
                s@ == rendered_text(
                    self.error.title_spec(),
                    self.error.description_spec(),
                    trace_of(self.positioner.file@, self.error.range_spec()),
                    self.error.notes_spec().take(i as int),
                ),
            decreases notes@.len() - i,
        {
            s.append("Note: ");
            s.append(notes[i].as_str());
            s.append("\n");
            proof {
                let ns = self.error.notes_spec();
                assert(ns.take(i as int + 1).drop_last() =~= ns.take(i as int));
                assert(ns.take(i as int + 1).last() == ns[i as int]);
                assert(notes@[i as int]@ == ns[i as int]);
                assert(s@ =~= rendered_text(
                    self.error.title_spec(),
                    self.error.description_spec(),
                    trace_of(self.positioner.file@, self.error.range_spec()),
                    ns.take(i as int + 1),
                ));
            }
            i = i + 1;
        }
        proof {
            let ns = self.error.notes_spec();
            assert(ns.take(ns.len() as int) =~= ns);
        }
        s
    }
}

} // verus!
