//! The closed set of value-type descriptors of the language, together with
//! the structural equality used by every typing rule.

use vstd::prelude::*;

verus! {

/// A half-open index range, used for array dimension bounds.
#[derive(Debug, Clone, Copy, PartialEq, Eq, Structural)]
pub struct Span {
    pub start: usize,
    pub end: usize,
}

/// Integer bounds of a subrange type.
#[derive(Debug, Clone, Copy, PartialEq, Eq, Structural)]
pub struct IntRange {
    pub start: i64,
    pub end: i64,
}

/// A value type of the language. `Invalid` is the sentinel returned by type
/// inference whenever validation fails; it equals no other variant.
#[derive(Debug, PartialEq)]
pub enum Type {
    Integer,
    Real,
    Boolean,
    Char,
    SetOf(Box<Type>),
    ArrayOf(Vec<Span>, Box<Type>),
    Record(Vec<(String, Type)>),
    Enum(Vec<String>),
    Range(IntRange),
    Invalid,
}

/// Structural equality of two types: same variant, and all components equal
/// (strings compared by their characters, lists element by element).
pub open spec fn teq(a: Type, b: Type) -> bool
    decreases a,
{
    match (a, b) {
        (Type::Integer, Type::Integer) => true,
        (Type::Real, Type::Real) => true,
        (Type::Boolean, Type::Boolean) => true,
        (Type::Char, Type::Char) => true,
        (Type::SetOf(x), Type::SetOf(y)) => teq(*x, *y),
        (Type::ArrayOf(d1, e1), Type::ArrayOf(d2, e2)) => d1@ == d2@ && teq(*e1, *e2),
        (Type::Record(f1), Type::Record(f2)) => {
            &&& f1@.len() == f2@.len()
            &&& forall|i: int|
                0 <= i < f1@.len() ==> f1@[i].0@ == f2@[i].0@ && teq(f1@[i].1, f2@[i].1)
        },
        (Type::Enum(v1), Type::Enum(v2)) => {
            &&& v1@.len() == v2@.len()
            &&& forall|i: int| 0 <= i < v1@.len() ==> v1@[i]@ == v2@[i]@
        },
        (Type::Range(r1), Type::Range(r2)) => r1 == r2,
        (Type::Invalid, Type::Invalid) => true,
        _ => false,
    }
}

/// Membership in the primitive subset {Integer, Real, Char, Boolean}.
pub open spec fn is_primitive_type(t: Type) -> bool {
    match t {
        Type::Integer | Type::Real | Type::Boolean | Type::Char => true,
        _ => false,
    }
}

impl Type {
    /// Whether this type belongs to the primitive subset used pervasively
    /// for operand validation.
    pub fn is_primitive(&self) -> (r: bool)
        ensures
            r == is_primitive_type(*self),
    {
        match self {
            Type::Integer | Type::Real | Type::Boolean | Type::Char => true,
            _ => false,
        }
    }
}

/// Decides structural type equality, the executable counterpart of `teq`.
#[verifier::loop_isolation(false)]
pub fn type_eq(a: &Type, b: &Type) -> (r: bool)
    ensures
        r == teq(*a, *b),
    decreases *a,
{
    match (a, b) {
        (Type::Integer, Type::Integer) => true,
        (Type::Real, Type::Real) => true,
        (Type::Boolean, Type::Boolean) => true,
        (Type::Char, Type::Char) => true,
        (Type::SetOf(x), Type::SetOf(y)) => type_eq(x, y),
        (Type::ArrayOf(d1, e1), Type::ArrayOf(d2, e2)) => {
            if d1.len() != d2.len() {
                false
            } else {
                let mut i: usize = 0;
                let mut dims_eq: bool = true;
                while i < d1.len()
                    invariant
                        i <= d1.len(),
                        d1@.len() == d2@.len(),
                        dims_eq == (forall|j: int| 0 <= j < i ==> d1@[j] == d2@[j]),
                    decreases d1@.len() - i,
                {
                    if d1[i].start != d2[i].start || d1[i].end != d2[i].end {
                        dims_eq = false;
                    }
                    i = i + 1;
                }
                if dims_eq {
                    proof {
                        assert(d1@ =~= d2@);
                    }
                    type_eq(e1, e2)
                } else {
                    false
                }
            }
        },
        (Type::Record(f1), Type::Record(f2)) => {
            if f1.len() != f2.len() {
                false
            } else {
                let mut i: usize = 0;
                let mut fields_eq: bool = true;
                while i < f1.len()
                    invariant
                        i <= f1.len(),
                        f1@.len() == f2@.len(),
                        fields_eq == (forall|j: int|
                            0 <= j < i ==> f1@[j].0@ == f2@[j].0@ && teq(f1@[j].1, f2@[j].1)),
                    decreases f1@.len() - i,
                {
                    let name_eq = f1[i].0 == f2[i].0;
                    proof {
                        assert(*f1 == (*a)->Record_0);
                        assert(decreases_to!(*a => (*a)->Record_0));
                        assert(decreases_to!(*f1 => f1@));
                        assert(decreases_to!(f1@ => f1@[i as int]));
                        assert(decreases_to!(f1@[i as int] => f1@[i as int].1));
                    }
                    let ty_eq = type_eq(&f1[i].1, &f2[i].1);
                    if !(name_eq && ty_eq) {
                        fields_eq = false;
                    }
                    i = i + 1;
                }
                fields_eq
            }
        },
        (Type::Enum(v1), Type::Enum(v2)) => {
            if v1.len() != v2.len() {
                false
            } else {
                let mut i: usize = 0;
                let mut names_eq: bool = true;
                while i < v1.len()
                    invariant
                        i <= v1.len(),
                        v1@.len() == v2@.len(),
                        names_eq == (forall|j: int| 0 <= j < i ==> v1@[j]@ == v2@[j]@),
                    decreases v1@.len() - i,
                {
                    if !(v1[i] == v2[i]) {
                        names_eq = false;
                    }
                    i = i + 1;
                }
                names_eq
            }
        },
        (Type::Range(r1), Type::Range(r2)) => r1.start == r2.start && r1.end == r2.end,
        (Type::Invalid, Type::Invalid) => true,
        _ => false,
    }
}

/// The primitive subset as a list, in the order used by diagnostics.
pub fn primitive_types() -> (r: Vec<Type>)
    ensures
        r@ == seq![Type::Integer, Type::Real, Type::Char, Type::Boolean],
{
    let mut v: Vec<Type> = Vec::new();
    v.push(Type::Integer);
    v.push(Type::Real);
    v.push(Type::Char);
    v.push(Type::Boolean);
    proof {
        assert(v@ =~= seq![Type::Integer, Type::Real, Type::Char, Type::Boolean]);
    }
    v
}

} // verus!
