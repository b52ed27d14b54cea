//! The surrounding program context consulted during validation and type
//! inference: named constants, globals and type declarations, plus the
//! position mapper for the source text of this compilation unit.

use vstd::prelude::*;
use crate::expr::ExBox;
use crate::position::PositionBuilder;
use crate::store::Store;
use crate::types::Type;

verus! {

/// One compilation unit's context: symbol tables and the position mapper.
pub struct Program {
    pub name: String,
    pub constants: Store<ExBox>,
    pub globals: Store<Type>,
    pub types: Store<Type>,
    pub positioner: PositionBuilder,
}

impl Program {
    /// An empty context over the given source text. Declarations are added
    /// by the (external) parser while it consumes the unit.
    pub fn new(src: String) -> (p: Program)
        ensures
            p.name@ == Seq::<char>::empty(),
            p.constants.levels() == seq![Map::<Seq<char>, ExBox>::empty()],
            p.globals.levels() == seq![Map::<Seq<char>, Type>::empty()],
            p.types.levels() == seq![Map::<Seq<char>, Type>::empty()],
            p.positioner.file == src,
    {
        Program {
            name: String::new(),
            constants: Store::new(),
            globals: Store::new(),
            types: Store::new(),
            positioner: PositionBuilder::new(src),
        }
    }
}

} // verus!
