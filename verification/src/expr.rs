//! The expression model: the closed set of expression node shapes, and the
//! typing, validation and constant-folding rules over them.
//!
//! Every rule is stated once as a specification (`type_of`, `errors`,
//! `fold`) and implemented by executable methods proved against it.

use vstd::prelude::*;
use crate::literal::RealValue;
use crate::program::Program;
use crate::semantic::{ErrV, SemErrV, SemanticError, SemanticErrorKind};
use crate::types::{is_primitive_type, primitive_types, teq, type_eq, Span, Type};

verus! {

// ---------------------------------------------------------------------------
// Node shapes
// ---------------------------------------------------------------------------

/// A range-tagged expression node: the node itself plus the character range
/// it occupied in the source. Errors reported through it carry that range.
pub struct ExBox {
    pub expr: Box<ExprNode>,
    pub range: Span,
}

/// The closed set of expression node shapes.
pub enum ExprNode {
    Invalid(Invalid),
    IntLit(i64),
    RealLit(RealValue),
    CharLit(char),
    BoolLit(bool),
    In(In),
    Comparison(Comparison),
    Sum(Sum),
    Product(Product),
    Not(Not),
    Logic(Logic),
    Call(Call),
    Sequence(Vec<ExBox>),
    Var(VarRef),
}

/// Placeholder node produced by error recovery; it types as `Invalid` and
/// folds to zero.
#[derive(Debug)]
pub struct Invalid;

/// Set-membership test: `sample in set`.
pub struct In {
    pub sample: ExBox,
    pub set: ExBox,
}

/// The six comparison operators: `> < >= <= <> =`.
#[derive(Debug, Clone, Copy, PartialEq, Eq, Structural)]
pub enum CompOp {
    Bg,
    Lt,
    Bge,
    Lte,
    Neq,
    Eq,
}

/// Comparison of two operands; always types as `Boolean` when valid.
pub struct Comparison {
    pub left: ExBox,
    pub right: ExBox,
    pub op: CompOp,
}

/// Additive operators.
#[derive(Debug, Clone, Copy, PartialEq, Eq, Structural)]
pub enum SumOp {
    Add,
    Sub,
}

/// Additive expression over two operands.
pub struct Sum {
    pub left: ExBox,
    pub right: ExBox,
    pub op: SumOp,
}

/// Multiplicative operators: multiplication, real division, integer
/// division and modulo.
#[derive(Debug, Clone, Copy, PartialEq, Eq, Structural)]
pub enum ProdOp {
    Mul,
    RDiv,
    Div,
    Mod,
}

/// Multiplicative expression over two operands.
pub struct Product {
    pub left: ExBox,
    pub right: ExBox,
    pub op: ProdOp,
}

/// Boolean negation of one operand.
pub struct Not(pub ExBox);

/// Boolean connectives.
#[derive(Debug, Clone, Copy, PartialEq, Eq, Structural)]
pub enum LogicOp {
    And,
    Or,
}

/// Boolean connective over two operands, both of which must be exactly
/// `Boolean`.
pub struct Logic {
    pub left: ExBox,
    pub right: ExBox,
    pub op: LogicOp,
}

/// Named invocation with an argument list; its typing rule is deliberately
/// unresolved and degrades to `Invalid`.
pub struct Call {
    pub name: String,
    pub args: Vec<ExBox>,
}

/// Reference to a variable: an immediate name, a field access, or an
/// indexed access. Its typing rule is deliberately unresolved.
pub enum VarRef {
    Immediate(String),
    Field(Box<VarRef>, String),
    Index(Box<VarRef>, Vec<ExBox>),
}

// ---------------------------------------------------------------------------
// The validation model
// ---------------------------------------------------------------------------

/// The primitive subset as the `expected` list of a type error.
pub open spec fn primitive_seq() -> Seq<Type> {
    seq![Type::Integer, Type::Real, Type::Char, Type::Boolean]
}

/// Operand types accepted by integer division: any primitive except `Real`.
pub open spec fn div_ok(t: Type) -> bool {
    teq(t, Type::Integer) || teq(t, Type::Char) || teq(t, Type::Boolean)
}

/// The generic two-operand primitive check: one `TypeErr` naming the
/// primitive subset when not both operand types are primitive, the
/// non-primitive operand's type as `got`.
pub open spec fn prim_check(lt: Type, rt: Type) -> Seq<ErrV> {
    if !(is_primitive_type(lt) && is_primitive_type(rt)) {
        seq![
            ErrV::TypeErr {
                expected: primitive_seq(),
                got: if is_primitive_type(lt) { rt } else { lt },
            },
        ]
    } else {
        Seq::empty()
    }
}

/// Integer division rejects a `Real` operand: one `TypeErr` naming the
/// non-`Real` primitives when the operator is `Div` and either operand is
/// `Real`.
pub open spec fn div_check(lt: Type, rt: Type, op: ProdOp) -> Seq<ErrV> {
    if op == ProdOp::Div && (teq(lt, Type::Real) || teq(rt, Type::Real)) {
        seq![
            ErrV::TypeErr {
                expected: seq![Type::Integer, Type::Char, Type::Boolean],
                got: if div_ok(lt) { rt } else { lt },
            },
        ]
    } else {
        Seq::empty()
    }
}

/// An operand that must be exactly `Boolean`: one `TypeErr` otherwise.
pub open spec fn bool_check(t: Type) -> Seq<ErrV> {
    if !teq(t, Type::Boolean) {
        seq![ErrV::TypeErr { expected: seq![Type::Boolean], got: t }]
    } else {
        Seq::empty()
    }
}

/// Set membership: the set operand's type must be `SetOf(T)` and the sample
/// operand's type must equal `T`.
pub open spec fn in_check(sample_t: Type, set_t: Type) -> Seq<ErrV> {
    match set_t {
        Type::SetOf(el) => if !teq(sample_t, *el) {
            seq![ErrV::TypeErr { expected: seq![*el], got: sample_t }]
        } else {
            Seq::empty()
        },
        _ => seq![
            ErrV::TypeErr { expected: seq![Type::SetOf(Box::new(Type::Invalid))], got: set_t },
        ],
    }
}

/// Concatenated node-local errors of a list of operands, in operand order.
pub open spec fn seq_child_errors(v: Seq<ExBox>) -> Seq<ErrV>
    decreases v, 0int,
{
    if v.len() == 0 {
        Seq::empty()
    } else {
        ebox_errors(v[0]) + seq_child_errors(v.drop_first())
    }
}

/// One `TypeErr` per operand whose type differs from `t`, in operand order.
pub open spec fn seq_mismatch_errors(v: Seq<ExBox>, t: Type) -> Seq<ErrV>
    decreases v, 0int,
{
    if v.len() == 0 {
        Seq::empty()
    } else {
        let head = if !teq(ebox_type(v[0]), t) {
            seq![ErrV::TypeErr { expected: seq![t], got: ebox_type(v[0]) }]
        } else {
            Seq::<ErrV>::empty()
        };
        head + seq_mismatch_errors(v.drop_first(), t)
    }
}

/// The ordered node-local errors that validation of `e` reports.
pub open spec fn errors(e: ExprNode) -> Seq<ErrV>
    decreases e, 0int,
{
    match e {
        ExprNode::Invalid(_) => Seq::empty(),
        ExprNode::IntLit(_) => Seq::empty(),
        ExprNode::RealLit(_) => Seq::empty(),
        ExprNode::CharLit(_) => Seq::empty(),
        ExprNode::BoolLit(_) => Seq::empty(),
        ExprNode::In(i) => {
            let sample_errs = ebox_errors(i.sample);
            if sample_errs.len() > 0 {
                sample_errs
            } else {
                let set_errs = ebox_errors(i.set);
                if set_errs.len() > 0 {
                    set_errs
                } else {
                    in_check(ebox_type(i.sample), ebox_type(i.set))
                }
            }
        },
        ExprNode::Comparison(c) => ebox_errors(c.left) + ebox_errors(c.right) + prim_check(
            ebox_type(c.left),
            ebox_type(c.right),
        ),
        ExprNode::Sum(s) => ebox_errors(s.left) + ebox_errors(s.right) + prim_check(
            ebox_type(s.left),
            ebox_type(s.right),
        ),
        ExprNode::Product(p) => {
            let base = ebox_errors(p.left) + ebox_errors(p.right) + prim_check(
                ebox_type(p.left),
                ebox_type(p.right),
            );
            if base.len() > 0 {
                base
            } else {
                div_check(ebox_type(p.left), ebox_type(p.right), p.op)
            }
        },
        ExprNode::Not(n) => {
            let child_errs = ebox_errors(n.0);
            if child_errs.len() > 0 {
                child_errs
            } else {
                bool_check(ebox_type(n.0))
            }
        },
        ExprNode::Logic(l) => bool_check(ebox_type(l.left)) + bool_check(ebox_type(l.right)),
        ExprNode::Call(_) => Seq::empty(),
        ExprNode::Sequence(v) => if v@.len() == 0 {
            Seq::empty()
        } else {
            let child_errs = seq_child_errors(v@);
            if child_errs.len() > 0 {
                child_errs
            } else {
                seq_mismatch_errors(v@, ebox_type(v@[0]))
            }
        },
        ExprNode::Var(_) => Seq::empty(),
    }
}

/// Node-local errors of the node inside a range-tagged box.
pub open spec fn ebox_errors(b: ExBox) -> Seq<ErrV>
    decreases b, 0int,
{
    errors(*b.expr)
}

// ---------------------------------------------------------------------------
// The typing model
// ---------------------------------------------------------------------------

/// Result type of `Sum`, and of `Product` except real division: equal
/// operand types pass through, unequal primitive types promote to `Real`.
pub open spec fn arith_type(lt: Type, rt: Type) -> Type {
    if teq(lt, rt) {
        lt
    } else {
        Type::Real
    }
}

/// The inferred type of `e`: `Invalid` whenever validation reports an error,
/// otherwise the node's rule.
pub open spec fn type_of(e: ExprNode) -> Type
    decreases e, 1int,
{
    match e {
        ExprNode::Invalid(_) => Type::Invalid,
        ExprNode::IntLit(_) => Type::Integer,
        ExprNode::RealLit(_) => Type::Real,
        ExprNode::CharLit(_) => Type::Char,
        ExprNode::BoolLit(_) => Type::Boolean,
        ExprNode::In(_) => if errors(e).len() == 0 {
            Type::Boolean
        } else {
            Type::Invalid
        },
        ExprNode::Comparison(_) => if errors(e).len() == 0 {
            Type::Boolean
        } else {
            Type::Invalid
        },
        ExprNode::Sum(s) => if errors(e).len() == 0 {
            arith_type(ebox_type(s.left), ebox_type(s.right))
        } else {
            Type::Invalid
        },
        ExprNode::Product(p) => if errors(e).len() == 0 {
            if p.op == ProdOp::RDiv {
                Type::Real
            } else {
                arith_type(ebox_type(p.left), ebox_type(p.right))
            }
        } else {
            Type::Invalid
        },
        ExprNode::Not(_) => if errors(e).len() == 0 {
            Type::Boolean
        } else {
            Type::Invalid
        },
        ExprNode::Logic(_) => if errors(e).len() == 0 {
            Type::Boolean
        } else {
            Type::Invalid
        },
        ExprNode::Call(_) => Type::Invalid,
        ExprNode::Sequence(v) => Type::SetOf(
            Box::new(
                if v@.len() == 0 {
                    Type::Invalid
                } else {
                    ebox_type(v@[0])
                },
            ),
        ),
        ExprNode::Var(_) => Type::Invalid,
    }
}

/// Inferred type of the node inside a range-tagged box.
pub open spec fn ebox_type(b: ExBox) -> Type
    decreases b, 1int,
{
    type_of(*b.expr)
}

// ---------------------------------------------------------------------------
// The folding model
// ---------------------------------------------------------------------------

/// Lifts a checked arithmetic result into a fold result: arithmetic that
/// leaves the 64-bit range cannot serve as a constant.
pub open spec fn opt_fold(o: Option<i64>) -> Result<i64, ErrV> {
    match o {
        Some(v) => Ok(v),
        None => Err(ErrV::InvalidLimit),
    }
}

/// The integer a comparison folds to: 1 when it holds, 0 otherwise.
pub open spec fn comp_value(l: i64, r: i64, op: CompOp) -> i64 {
    if match op {
        CompOp::Bg => l > r,
        CompOp::Lt => l < r,
        CompOp::Bge => l >= r,
        CompOp::Lte => l <= r,
        CompOp::Neq => l != r,
        CompOp::Eq => l == r,
    } {
        1
    } else {
        0
    }
}

/// Strict constant folding of `e` to an integer. Reals, real division,
/// collections, calls and variable references cannot fold; operands are
/// folded left to right and the first failure propagates.
pub open spec fn fold(e: ExprNode) -> Result<i64, ErrV>
    decreases e,
{
    match e {
        ExprNode::Invalid(_) => Ok(0),
        ExprNode::IntLit(v) => Ok(v),
        ExprNode::RealLit(_) => Err(ErrV::InvalidLimit),
        ExprNode::CharLit(c) => Ok((c as u32) as i64),
        ExprNode::BoolLit(b) => Ok(
            if b {
                1
            } else {
                0
            },
        ),
        ExprNode::In(_) => Err(ErrV::InvalidLimit),
        ExprNode::Comparison(c) => match (ebox_fold(c.left), ebox_fold(c.right)) {
            (Err(k), _) => Err(k),
            (Ok(_), Err(k)) => Err(k),
            (Ok(l), Ok(r)) => Ok(comp_value(l, r, c.op)),
        },
        ExprNode::Sum(s) => match (ebox_fold(s.left), ebox_fold(s.right)) {
            (Err(k), _) => Err(k),
            (Ok(_), Err(k)) => Err(k),
            (Ok(l), Ok(r)) => match s.op {
                SumOp::Add => opt_fold(l.checked_add(r)),
                SumOp::Sub => opt_fold(l.checked_sub(r)),
            },
        },
        ExprNode::Product(p) => match (ebox_fold(p.left), ebox_fold(p.right)) {
            (Err(k), _) => Err(k),
            (Ok(_), Err(k)) => Err(k),
            (Ok(l), Ok(r)) => match p.op {
                ProdOp::Mul => opt_fold(l.checked_mul(r)),
                ProdOp::RDiv => Err(ErrV::InvalidLimit),
                ProdOp::Div => opt_fold(l.checked_div(r)),
                ProdOp::Mod => opt_fold(l.checked_rem(r)),
            },
        },
        ExprNode::Not(n) => match ebox_fold(n.0) {
            Ok(v) => Ok(
                if v == 0 {
                    1
                } else {
                    0
                },
            ),
            Err(k) => Err(k),
        },
        ExprNode::Logic(l) => match (ebox_fold(l.left), ebox_fold(l.right)) {
            (Err(k), _) => Err(k),
            (Ok(_), Err(k)) => Err(k),
            (Ok(a), Ok(b)) => Ok(
                if match l.op {
                    LogicOp::And => a > 0 && b > 0,
                    LogicOp::Or => a > 0 || b > 0,
                } {
                    1
                } else {
                    0
                },
            ),
        },
        ExprNode::Call(_) => Err(ErrV::InvalidLimit),
        ExprNode::Sequence(_) => Err(ErrV::InvalidLimit),
        ExprNode::Var(_) => Err(ErrV::InvalidLimit),
    }
}

/// Folding of the node inside a range-tagged box.
pub open spec fn ebox_fold(b: ExBox) -> Result<i64, ErrV>
    decreases b,
{
    fold(*b.expr)
}

/// Whether an executable fold result agrees with the model's, the error
/// compared by its kind.
pub open spec fn fold_matches(r: Result<i64, SemanticErrorKind>, f: Result<i64, ErrV>) -> bool {
    match (r, f) {
        (Ok(a), Ok(b)) => a == b,
        (Err(k), Err(v)) => k@ == v,
        _ => false,
    }
}

/// The range-tagged errors that a box reports: each node-local error of the
/// wrapped node, paired with the box's own range.
pub open spec fn tag_range(range: Span, ks: Seq<ErrV>) -> Seq<SemErrV> {
    Seq::new(ks.len(), |i: int| SemErrV { range, kind: ks[i] })
}

// ---------------------------------------------------------------------------
// Small executable helpers over types
// ---------------------------------------------------------------------------

/// Whether a type is exactly `Boolean`.
fn is_boolean(t: &Type) -> (r: bool)
    ensures
        r == teq(*t, Type::Boolean),
{
    match t {
        Type::Boolean => true,
        _ => false,
    }
}

/// Whether a type is exactly `Real`.
fn is_real(t: &Type) -> (r: bool)
    ensures
        r == teq(*t, Type::Real),
{
    match t {
        Type::Real => true,
        _ => false,
    }
}

/// Whether a type may stand as an operand of integer division.
fn is_div_operand(t: &Type) -> (r: bool)
    ensures
        r == div_ok(*t),
{
    match t {
        Type::Integer | Type::Char | Type::Boolean => true,
        _ => false,
    }
}

/// The operand types accepted by integer division, as a diagnostics list.
fn allowed_div_types() -> (r: Vec<Type>)
    ensures
        r@ == seq![Type::Integer, Type::Char, Type::Boolean],
{
    let mut v: Vec<Type> = Vec::new();
    v.push(Type::Integer);
    v.push(Type::Char);
    v.push(Type::Boolean);
    proof {
        assert(v@ =~= seq![Type::Integer, Type::Char, Type::Boolean]);
    }
    v
}

// ---------------------------------------------------------------------------
// Range-tagged boxes
// ---------------------------------------------------------------------------

impl ExBox {
    /// Wraps a node with the source character range it was parsed from.
    pub fn new(expr: ExprNode, range: Span) -> (b: ExBox)
        ensures
            *b.expr == expr,
            b.range == range,
    {
        ExBox { expr: Box::new(expr), range }
    }

    /// Inferred type of the wrapped node.
    pub fn get_type(&self, program: &Program) -> (t: Type)
        ensures
            t == ebox_type(*self),
        decreases *self, 2int,
    {
        self.expr.get_type(program)
    }

    /// Node-local errors of the wrapped node, each tagged with this box's
    /// own source range.
    pub fn validate(&self, program: &Program) -> (r: Vec<SemanticError>)
        ensures
            r.deep_view() == tag_range(self.range, ebox_errors(*self)),
        decreases *self, 0int,
    {
        let mut kinds = self.expr.validate(program);
        let ghost orig: Seq<ErrV> = kinds.deep_view();
        let mut out: Vec<SemanticError> = Vec::new();
        while kinds.len() > 0
            invariant
                out@.len() + kinds@.len() == orig.len(),
                forall|j: int| 0 <= j < kinds@.len() ==> kinds@[j]@ == orig[out@.len() + j],
                forall|j: int|
                    0 <= j < out@.len() ==> out@[j]@ == (SemErrV {
                        range: self.range,
                        kind: orig[j],
                    }),
            decreases kinds@.len(),
        {
            let ghost pre = kinds@;
            let kind = kinds.remove(0);
            proof {
                assert(kind@ == orig[out@.len() as int]);
                assert forall|j: int| 0 <= j < kinds@.len() implies kinds@[j]@ == orig[out@.len()
                    + 1 + j] by {
                    assert(kinds@[j] == pre[j + 1]);
                }
            }
            out.push(SemanticError { range: self.range, kind });
        }
        proof {
            assert(out.deep_view() =~= tag_range(self.range, ebox_errors(*self)));
        }
        out
    }

    /// Whether the wrapped node validates cleanly.
    pub fn is_valid(&self, program: &Program) -> (r: bool)
        ensures
            r == (ebox_errors(*self).len() == 0),
        decreases *self, 1int,
    {
        self.expr.is_valid(program)
    }

    /// Folds the wrapped node to an integer constant; a failure carries this
    /// box's own source range.
    pub fn as_number(&self, program: &Program) -> (r: Result<i64, SemanticError>)
        ensures
            match (r, ebox_fold(*self)) {
                (Ok(a), Ok(b)) => a == b,
                (Err(se), Err(k)) => se@ == (SemErrV { range: self.range, kind: k }),
                _ => false,
            },
        decreases *self, 0int,
    {
        match self.expr.as_number(program) {
            Ok(v) => Ok(v),
            Err(kind) => Err(SemanticError { range: self.range, kind }),
        }
    }
}

// ---------------------------------------------------------------------------
// Per-node rules
// ---------------------------------------------------------------------------

impl Invalid {
    pub fn get_type(&self, _program: &Program) -> (t: Type)
        ensures
            t == Type::Invalid,
    {
        Type::Invalid
    }

    pub fn validate(&self, _program: &Program) -> (r: Vec<SemanticErrorKind>)
        ensures
            r.deep_view() == Seq::<ErrV>::empty(),
    {
        let r: Vec<SemanticErrorKind> = Vec::new();
        proof {
            assert(r.deep_view() =~= Seq::<ErrV>::empty());
        }
        r
    }

    pub fn as_number(&self, _program: &Program) -> (r: Result<i64, SemanticErrorKind>)
        ensures
            r matches Ok(v) && v == 0,
    {
        Ok(0)
    }
}

impl In {
    pub fn get_type(&self, program: &Program) -> (t: Type)
        ensures
            t == type_of(ExprNode::In(*self)),
        decreases *self, 2int,
    {
        if !self.is_valid(program) {
            return Type::Invalid;
        }
        Type::Boolean
    }

    pub fn is_valid(&self, program: &Program) -> (r: bool)
        ensures
            r == (errors(ExprNode::In(*self)).len() == 0),
        decreases *self, 1int,
    {
        self.validate(program).len() == 0
    }

    pub fn validate(&self, program: &Program) -> (r: Vec<SemanticErrorKind>)
        ensures
            r.deep_view() == errors(ExprNode::In(*self)),
        decreases *self, 0int,
    {
        let mut out = self.sample.expr.validate(program);
        if out.len() > 0 {
            return out;
        }
        let mut set_errs = self.set.expr.validate(program);
        out.append(&mut set_errs);
        if out.len() > 0 {
            proof {
                assert(out.deep_view() =~~= errors(ExprNode::In(*self)));
            }
            return out;
        }
        let set_type = self.set.expr.get_type(program);
        match set_type {
            Type::SetOf(el) => {
                let sample_type = self.sample.expr.get_type(program);
                if !type_eq(&sample_type, &el) {
                    let elem: Type = *el;
                    out.push(
                        SemanticErrorKind::TypeError { expected: vec![elem], got: sample_type },
                    );
                }
            },
            other => {
                out.push(
                    SemanticErrorKind::TypeError {
                        expected: vec![Type::SetOf(Box::new(Type::Invalid))],
                        got: other,
                    },
                );
            },
        }
        proof {
            assert(out.deep_view() =~~= errors(ExprNode::In(*self)));
        }
        out
    }

    pub fn as_number(&self, _program: &Program) -> (r: Result<i64, SemanticErrorKind>)
        ensures
            fold_matches(r, fold(ExprNode::In(*self))),
    {
        Err(SemanticErrorKind::InvalidLimit)
    }
}

impl Comparison {
    pub fn get_type(&self, program: &Program) -> (t: Type)
        ensures
            t == type_of(ExprNode::Comparison(*self)),
        decreases *self, 2int,
    {
        if !self.is_valid(program) {
            return Type::Invalid;
        }
        Type::Boolean
    }

    pub fn is_valid(&self, program: &Program) -> (r: bool)
        ensures
            r == (errors(ExprNode::Comparison(*self)).len() == 0),
        decreases *self, 1int,
    {
        self.validate(program).len() == 0
    }

    pub fn validate(&self, program: &Program) -> (r: Vec<SemanticErrorKind>)
        ensures
            r.deep_view() == errors(ExprNode::Comparison(*self)),
        decreases *self, 0int,
    {
        let mut out = self.left.expr.validate(program);
        let mut right_errs = self.right.expr.validate(program);
        out.append(&mut right_errs);
        let lt = self.left.expr.get_type(program);
        let rt = self.right.expr.get_type(program);
        if !(lt.is_primitive() && rt.is_primitive()) {
            let got = if lt.is_primitive() {
                rt
            } else {
                lt
            };
            out.push(SemanticErrorKind::TypeError { expected: primitive_types(), got });
        }
        proof {
            assert(out.deep_view() =~= errors(ExprNode::Comparison(*self)));
        }
        out
    }

    pub fn as_number(&self, program: &Program) -> (r: Result<i64, SemanticErrorKind>)
        ensures
            fold_matches(r, fold(ExprNode::Comparison(*self))),
        decreases *self, 0int,
    {
        let l = match self.left.expr.as_number(program) {
            Ok(v) => v,
            Err(k) => return Err(k),
        };
        let rv = match self.right.expr.as_number(program) {
            Ok(v) => v,
            Err(k) => return Err(k),
        };
        let holds = match self.op {
            CompOp::Bg => l > rv,
            CompOp::Lt => l < rv,
            CompOp::Bge => l >= rv,
            CompOp::Lte => l <= rv,
            CompOp::Neq => l != rv,
            CompOp::Eq => l == rv,
        };
        Ok(
            if holds {
                1
            } else {
                0
            },
        )
    }
}

impl Sum {
    pub fn get_type(&self, program: &Program) -> (t: Type)
        ensures
            t == type_of(ExprNode::Sum(*self)),
        decreases *self, 2int,
    {
        if !self.is_valid(program) {
            return Type::Invalid;
        }
        let lt = self.left.expr.get_type(program);
        let rt = self.right.expr.get_type(program);
        if type_eq(&lt, &rt) {
            lt
        } else {
            Type::Real
        }
    }

    pub fn is_valid(&self, program: &Program) -> (r: bool)
        ensures
            r == (errors(ExprNode::Sum(*self)).len() == 0),
        decreases *self, 1int,
    {
        self.validate(program).len() == 0
    }

    pub fn validate(&self, program: &Program) -> (r: Vec<SemanticErrorKind>)
        ensures
            r.deep_view() == errors(ExprNode::Sum(*self)),
        decreases *self, 0int,
    {
        let mut out = self.left.expr.validate(program);
        let mut right_errs = self.right.expr.validate(program);
        out.append(&mut right_errs);
        let lt = self.left.expr.get_type(program);
        let rt = self.right.expr.get_type(program);
        if !(lt.is_primitive() && rt.is_primitive()) {
            let got = if lt.is_primitive() {
                rt
            } else {
                lt
            };
            out.push(SemanticErrorKind::TypeError { expected: primitive_types(), got });
        }
        proof {
            assert(out.deep_view() =~= errors(ExprNode::Sum(*self)));
        }
        out
    }

    pub fn as_number(&self, program: &Program) -> (r: Result<i64, SemanticErrorKind>)
        ensures
            fold_matches(r, fold(ExprNode::Sum(*self))),
        decreases *self, 0int,
    {
        let l = match self.left.expr.as_number(program) {
            Ok(v) => v,
            Err(k) => return Err(k),
        };
        let rv = match self.right.expr.as_number(program) {
            Ok(v) => v,
            Err(k) => return Err(k),
        };
        let folded = match self.op {
            SumOp::Add => l.checked_add(rv),
            SumOp::Sub => l.checked_sub(rv),
        };
        match folded {
            Some(v) => Ok(v),
            None => Err(SemanticErrorKind::InvalidLimit),
        }
    }
}

impl Product {
    pub fn get_type(&self, program: &Program) -> (t: Type)
        ensures
            t == type_of(ExprNode::Product(*self)),
        decreases *self, 2int,
    {
        if !self.is_valid(program) {
            return Type::Invalid;
        }
        if self.op == ProdOp::RDiv {
            return Type::Real;
        }
        let lt = self.left.expr.get_type(program);
        let rt = self.right.expr.get_type(program);
        if type_eq(&lt, &rt) {
            lt
        } else {
            Type::Real
        }
    }

    pub fn is_valid(&self, program: &Program) -> (r: bool)
        ensures
            r == (errors(ExprNode::Product(*self)).len() == 0),
        decreases *self, 1int,
    {
        self.validate(program).len() == 0
    }

    pub fn validate(&self, program: &Program) -> (r: Vec<SemanticErrorKind>)
        ensures
            r.deep_view() == errors(ExprNode::Product(*self)),
        decreases *self, 0int,
    {
        let mut out = self.left.expr.validate(program);
        let mut right_errs = self.right.expr.validate(program);
        out.append(&mut right_errs);
        let lt = self.left.expr.get_type(program);
        let rt = self.right.expr.get_type(program);
        if !(lt.is_primitive() && rt.is_primitive()) {
            let got = if lt.is_primitive() {
                rt
            } else {
                lt
            };
            out.push(SemanticErrorKind::TypeError { expected: primitive_types(), got });
            proof {
                assert(out.deep_view() =~= errors(ExprNode::Product(*self)));
            }
            return out;
        }
        if out.len() > 0 {
            proof {
                assert(out.deep_view() =~= errors(ExprNode::Product(*self)));
            }
            return out;
        }
        if self.op == ProdOp::Div && (is_real(&lt) || is_real(&rt)) {
            let got = if is_div_operand(&lt) {
                rt
            } else {
                lt
            };
            out.push(SemanticErrorKind::TypeError { expected: allowed_div_types(), got });
        }
        proof {
            assert(out.deep_view() =~= errors(ExprNode::Product(*self)));
        }
        out
    }

    pub fn as_number(&self, program: &Program) -> (r: Result<i64, SemanticErrorKind>)
        ensures
            fold_matches(r, fold(ExprNode::Product(*self))),
        decreases *self, 0int,
    {
        let l = match self.left.expr.as_number(program) {
            Ok(v) => v,
            Err(k) => return Err(k),
        };
        let rv = match self.right.expr.as_number(program) {
            Ok(v) => v,
            Err(k) => return Err(k),
        };
        let folded = match self.op {
            ProdOp::Mul => l.checked_mul(rv),
            ProdOp::RDiv => return Err(SemanticErrorKind::InvalidLimit),
            ProdOp::Div => l.checked_div(rv),
            ProdOp::Mod => l.checked_rem(rv),
        };
        match folded {
            Some(v) => Ok(v),
            None => Err(SemanticErrorKind::InvalidLimit),
        }
    }
}

impl Not {
    pub fn get_type(&self, program: &Program) -> (t: Type)
        ensures
            t == type_of(ExprNode::Not(*self)),
        decreases *self, 2int,
    {
        if !self.is_valid(program) {
            return Type::Invalid;
        }
        Type::Boolean
    }

    pub fn is_valid(&self, program: &Program) -> (r: bool)
        ensures
            r == (errors(ExprNode::Not(*self)).len() == 0),
        decreases *self, 1int,
    {
        self.validate(program).len() == 0
    }

    pub fn validate(&self, program: &Program) -> (r: Vec<SemanticErrorKind>)
        ensures
            r.deep_view() == errors(ExprNode::Not(*self)),
        decreases *self, 0int,
    {
        let mut out = self.0.expr.validate(program);
        if out.len() > 0 {
            return out;
        }
        let ty = self.0.expr.get_type(program);
        if !is_boolean(&ty) {
            out.push(SemanticErrorKind::TypeError { expected: vec![Type::Boolean], got: ty });
        }
        proof {
            assert(out.deep_view() =~~= errors(ExprNode::Not(*self)));
        }
        out
    }

    pub fn as_number(&self, program: &Program) -> (r: Result<i64, SemanticErrorKind>)
        ensures
            fold_matches(r, fold(ExprNode::Not(*self))),
        decreases *self, 0int,
    {
        let v = match self.0.expr.as_number(program) {
            Ok(v) => v,
            Err(k) => return Err(k),
        };
        Ok(
            if v == 0 {
                1
            } else {
                0
            },
        )
    }
}

impl Logic {
    pub fn get_type(&self, program: &Program) -> (t: Type)
        ensures
            t == type_of(ExprNode::Logic(*self)),
        decreases *self, 2int,
    {
        if !self.is_valid(program) {
            return Type::Invalid;
        }
        Type::Boolean
    }

    /// Direct operand-type check, cheaper than materializing the error list;
    /// it agrees with `validate` being empty.
    pub fn is_valid(&self, program: &Program) -> (r: bool)
        ensures
            r == (errors(ExprNode::Logic(*self)).len() == 0),
        decreases *self, 1int,
    {
        let rt = self.right.expr.get_type(program);
        if !is_boolean(&rt) {
            return false;
        }
        let lt = self.left.expr.get_type(program);
        is_boolean(&lt)
    }

    pub fn validate(&self, program: &Program) -> (r: Vec<SemanticErrorKind>)
        ensures
            r.deep_view() == errors(ExprNode::Logic(*self)),
        decreases *self, 0int,
    {
        let mut out: Vec<SemanticErrorKind> = Vec::new();
        let lt = self.left.expr.get_type(program);
        if !is_boolean(&lt) {
            out.push(SemanticErrorKind::TypeError { expected: vec![Type::Boolean], got: lt });
        }
        let rt = self.right.expr.get_type(program);
        if !is_boolean(&rt) {
            out.push(SemanticErrorKind::TypeError { expected: vec![Type::Boolean], got: rt });
        }
        proof {
            assert(out.deep_view() =~~= errors(ExprNode::Logic(*self)));
        }
        out
    }

    pub fn as_number(&self, program: &Program) -> (r: Result<i64, SemanticErrorKind>)
        ensures
            fold_matches(r, fold(ExprNode::Logic(*self))),
        decreases *self, 0int,
    {
        let l = match self.left.expr.as_number(program) {
            Ok(v) => v,
            Err(k) => return Err(k),
        };
        let rv = match self.right.expr.as_number(program) {
            Ok(v) => v,
            Err(k) => return Err(k),
        };
        let holds = match self.op {
            LogicOp::And => l > 0 && rv > 0,
            LogicOp::Or => l > 0 || rv > 0,
        };
        Ok(
            if holds {
                1
            } else {
                0
            },
        )
    }
}

// ---------------------------------------------------------------------------
// Dispatch over the closed node set
// ---------------------------------------------------------------------------

proof fn lemma_child_errors_snoc(v: Seq<ExBox>, i: int)
    requires
        0 <= i < v.len(),
    ensures
        seq_child_errors(v.take(i + 1)) == seq_child_errors(v.take(i)) + ebox_errors(v[i]),
    decreases i,
{
    if i == 0 {
        assert(v.take(1).drop_first() =~= Seq::<ExBox>::empty());
        assert(v.take(0) =~= Seq::<ExBox>::empty());
        assert(seq_child_errors(v.take(1)) =~= seq_child_errors(v.take(0)) + ebox_errors(v[0]));
    } else {
        let u = v.drop_first();
        lemma_child_errors_snoc(u, i - 1);
        assert(v.take(i + 1).drop_first() =~= u.take(i));
        assert(v.take(i).drop_first() =~= u.take(i - 1));
        assert(u[i - 1] == v[i]);
        assert(seq_child_errors(v.take(i + 1)) =~= seq_child_errors(v.take(i)) + ebox_errors(
            v[i],
        ));
    }
}

proof fn lemma_mismatch_snoc(v: Seq<ExBox>, t: Type, i: int)
    requires
        0 <= i < v.len(),
    ensures
        seq_mismatch_errors(v.take(i + 1), t) == seq_mismatch_errors(v.take(i), t) + (
        if !teq(ebox_type(v[i]), t) {
            seq![ErrV::TypeErr { expected: seq![t], got: ebox_type(v[i]) }]
        } else {
            Seq::<ErrV>::empty()
        }),
    decreases i,
{
    if i == 0 {
        assert(v.take(1).drop_first() =~= Seq::<ExBox>::empty());
        assert(v.take(0) =~= Seq::<ExBox>::empty());
        assert(seq_mismatch_errors(v.take(1), t) =~= seq_mismatch_errors(v.take(0), t) + (
        if !teq(ebox_type(v[0]), t) {
            seq![ErrV::TypeErr { expected: seq![t], got: ebox_type(v[0]) }]
        } else {
            Seq::<ErrV>::empty()
        }));
    } else {
        let u = v.drop_first();
        lemma_mismatch_snoc(u, t, i - 1);
        assert(v.take(i + 1).drop_first() =~= u.take(i));
        assert(v.take(i).drop_first() =~= u.take(i - 1));
        assert(u[i - 1] == v[i]);
        assert(seq_mismatch_errors(v.take(i + 1), t) =~= seq_mismatch_errors(v.take(i), t) + (
        if !teq(ebox_type(v[i]), t) {
            seq![ErrV::TypeErr { expected: seq![t], got: ebox_type(v[i]) }]
        } else {
            Seq::<ErrV>::empty()
        }));
    }
}

impl ExprNode {
    /// Inferred type of this node: `Invalid` whenever validation fails,
    /// otherwise the node's own rule.
    #[verifier::loop_isolation(false)]
    pub fn get_type(&self, program: &Program) -> (t: Type)
        ensures
            t == type_of(*self),
        decreases *self, 2int,
    {
        match self {
            ExprNode::Invalid(n) => n.get_type(program),
            ExprNode::IntLit(_) => Type::Integer,
            ExprNode::RealLit(_) => Type::Real,
            ExprNode::CharLit(_) => Type::Char,
            ExprNode::BoolLit(_) => Type::Boolean,
            ExprNode::In(n) => n.get_type(program),
            ExprNode::Comparison(n) => n.get_type(program),
            ExprNode::Sum(n) => n.get_type(program),
            ExprNode::Product(n) => n.get_type(program),
            ExprNode::Not(n) => n.get_type(program),
            ExprNode::Logic(n) => n.get_type(program),
            ExprNode::Call(n) => n.get_type(program),
            ExprNode::Sequence(v) => {
                if v.len() == 0 {
                    Type::SetOf(Box::new(Type::Invalid))
                } else {
                    proof {
                        assert(decreases_to!(v@ => v@[0]));
                    }
                    let t = v[0].expr.get_type(program);
                    Type::SetOf(Box::new(t))
                }
            },
            ExprNode::Var(n) => n.get_type(program),
        }
    }

    /// The ordered node-local errors that validation reports.
    #[verifier::loop_isolation(false)]
    pub fn validate(&self, program: &Program) -> (r: Vec<SemanticErrorKind>)
        ensures
            r.deep_view() == errors(*self),
        decreases *self, 0int,
    {
        match self {
            ExprNode::Invalid(n) => n.validate(program),
            ExprNode::IntLit(_) | ExprNode::RealLit(_) | ExprNode::CharLit(_)
                | ExprNode::BoolLit(_) => {
                let r: Vec<SemanticErrorKind> = Vec::new();
                proof {
                    assert(r.deep_view() =~= errors(*self));
                }
                r
            },
            ExprNode::In(n) => n.validate(program),
            ExprNode::Comparison(n) => n.validate(program),
            ExprNode::Sum(n) => n.validate(program),
            ExprNode::Product(n) => n.validate(program),
            ExprNode::Not(n) => n.validate(program),
            ExprNode::Logic(n) => n.validate(program),
            ExprNode::Call(n) => n.validate(program),
            ExprNode::Sequence(v) => {
                let mut out: Vec<SemanticErrorKind> = Vec::new();
                if v.len() == 0 {
                    proof {
                        assert(out.deep_view() =~= errors(*self));
                    }
                    return out;
                }
                let mut i: usize = 0;
                proof {
                    assert(out.deep_view() =~= seq_child_errors(v@.take(0)));
                }
                while i < v.len()
                    invariant
                        i <= v@.len(),
                        out.deep_view() =~= seq_child_errors(v@.take(i as int)),
                    decreases v@.len() - i,
                {
                    proof {
                        assert(decreases_to!(v@ => v@[i as int]));
                    }
                    let mut child_errs = v[i].expr.validate(program);
                    out.append(&mut child_errs);
                    proof {
                        lemma_child_errors_snoc(v@, i as int);
                        assert(out.deep_view() =~= seq_child_errors(v@.take(i as int + 1)));
                    }
                    i = i + 1;
                }
                proof {
                    assert(v@.take(v@.len() as int) =~= v@);
                }
                if out.len() > 0 {
                    proof {
                        assert(out.deep_view() =~= errors(*self));
                    }
                    return out;
                }
                proof {
                    assert(decreases_to!(v@ => v@[0]));
                }
                let ty = v[0].expr.get_type(program);
                let mut i: usize = 0;
                proof {
                    assert(out.deep_view() =~~= seq_mismatch_errors(v@.take(0), ebox_type(v@[0])));
                }
                while i < v.len()
                    invariant
                        i <= v@.len(),
                        ty == ebox_type(v@[0]),
                        out.deep_view() == seq_mismatch_errors(v@.take(i as int), ebox_type(v@[0])),
                    decreases v@.len() - i,
                {
                    proof {
                        assert(decreases_to!(v@ => v@[i as int]));
                        assert(decreases_to!(v@ => v@[0]));
                    }
                    let ety = v[i].expr.get_type(program);
                    if !type_eq(&ety, &ty) {
                        let expected_ty = v[0].expr.get_type(program);
                        out.push(
                            SemanticErrorKind::TypeError { expected: vec![expected_ty], got: ety },
                        );
                    }
                    proof {
                        lemma_mismatch_snoc(v@, ebox_type(v@[0]), i as int);
                        assert(out.deep_view() =~~= seq_mismatch_errors(
                            v@.take(i as int + 1),
                            ebox_type(v@[0]),
                        ));
                    }
                    i = i + 1;
                }
                proof {
                    assert(v@.take(v@.len() as int) =~= v@);
                    assert(out.deep_view() =~= errors(*self));
                }
                out
            },
            ExprNode::Var(n) => n.validate(program),
        }
    }

    /// Whether validation reports no error. `Logic` answers by a direct
    /// operand-type check instead of materializing the list.
    pub fn is_valid(&self, program: &Program) -> (r: bool)
        ensures
            r == (errors(*self).len() == 0),
        decreases *self, 1int,
    {
        match self {
            ExprNode::Logic(n) => n.is_valid(program),
            _ => self.validate(program).len() == 0,
        }
    }

    /// Strict constant folding to an integer.
    #[verifier::loop_isolation(false)]
    pub fn as_number(&self, program: &Program) -> (r: Result<i64, SemanticErrorKind>)
        ensures
            fold_matches(r, fold(*self)),
        decreases *self, 0int,
    {
        match self {
            ExprNode::Invalid(n) => n.as_number(program),
            ExprNode::IntLit(v) => Ok(*v),
            ExprNode::RealLit(_) => Err(SemanticErrorKind::InvalidLimit),
            ExprNode::CharLit(c) => Ok((*c as u32) as i64),
            ExprNode::BoolLit(b) => Ok(
                if *b {
                    1
                } else {
                    0
                },
            ),
            ExprNode::In(n) => n.as_number(program),
            ExprNode::Comparison(n) => n.as_number(program),
            ExprNode::Sum(n) => n.as_number(program),
            ExprNode::Product(n) => n.as_number(program),
            ExprNode::Not(n) => n.as_number(program),
            ExprNode::Logic(n) => n.as_number(program),
            ExprNode::Call(n) => n.as_number(program),
            ExprNode::Sequence(_) => Err(SemanticErrorKind::InvalidLimit),
            ExprNode::Var(n) => n.as_number(program),
        }
    }
}

// ---------------------------------------------------------------------------
// Laws of the model
// ---------------------------------------------------------------------------

/// A fold failure is always `InvalidLimit`: no other kind of error leaves
/// constant folding.
pub proof fn lemma_fold_err_kind(e: ExprNode)
    ensures
        fold(e) matches Err(k) ==> k == ErrV::InvalidLimit,
    decreases e,
{
    match e {
        ExprNode::In(i) => {
            lemma_fold_err_kind(*i.sample.expr);
            lemma_fold_err_kind(*i.set.expr);
        },
        ExprNode::Comparison(c) => {
            lemma_fold_err_kind(*c.left.expr);
            lemma_fold_err_kind(*c.right.expr);
        },
        ExprNode::Sum(s) => {
            lemma_fold_err_kind(*s.left.expr);
            lemma_fold_err_kind(*s.right.expr);
        },
        ExprNode::Product(p) => {
            lemma_fold_err_kind(*p.left.expr);
            lemma_fold_err_kind(*p.right.expr);
        },
        ExprNode::Not(n) => {
            lemma_fold_err_kind(*n.0.expr);
        },
        ExprNode::Logic(l) => {
            lemma_fold_err_kind(*l.left.expr);
            lemma_fold_err_kind(*l.right.expr);
        },
        _ => {},
    }
}

/// For a `Sum` whose operands validate cleanly and are primitive-typed:
/// equal operand types pass through, unequal ones promote to `Real`.
pub proof fn lemma_sum_type_rule(s: Sum)
    requires
        ebox_errors(s.left).len() == 0,
        ebox_errors(s.right).len() == 0,
        is_primitive_type(ebox_type(s.left)),
        is_primitive_type(ebox_type(s.right)),
    ensures
        teq(ebox_type(s.left), ebox_type(s.right)) ==> type_of(ExprNode::Sum(s)) == ebox_type(
            s.left,
        ),
        !teq(ebox_type(s.left), ebox_type(s.right)) ==> type_of(ExprNode::Sum(s)) == Type::Real,
{
    assert(errors(ExprNode::Sum(s)) =~= Seq::<ErrV>::empty());
}

/// Real division types as `Real` whatever the (cleanly validating,
/// primitive-typed) operand types are.
pub proof fn lemma_rdiv_type(p: Product)
    requires
        p.op == ProdOp::RDiv,
        ebox_errors(p.left).len() == 0,
        ebox_errors(p.right).len() == 0,
        is_primitive_type(ebox_type(p.left)),
        is_primitive_type(ebox_type(p.right)),
    ensures
        type_of(ExprNode::Product(p)) == Type::Real,
{
    assert(errors(ExprNode::Product(p)) =~= Seq::<ErrV>::empty());
}

/// Real division never folds to an integer constant, whatever its operands.
pub proof fn lemma_rdiv_fold(p: Product)
    requires
        p.op == ProdOp::RDiv,
    ensures
        fold(ExprNode::Product(p)) == Err::<i64, ErrV>(ErrV::InvalidLimit),
{
    lemma_fold_err_kind(*p.left.expr);
    lemma_fold_err_kind(*p.right.expr);
}

/// A node with validation errors never types as `Boolean`: gated nodes
/// degrade to `Invalid`, and a sequence types as a set.
proof fn lemma_errors_exclude_boolean(e: ExprNode)
    ensures
        errors(e).len() > 0 ==> !teq(type_of(e), Type::Boolean),
{
}

/// `Not` validates cleanly exactly when its operand types as `Boolean`.
pub proof fn lemma_not_validate_iff(n: Not)
    ensures
        errors(ExprNode::Not(n)).len() > 0 <==> !teq(ebox_type(n.0), Type::Boolean),
{
    lemma_errors_exclude_boolean(*n.0.expr);
}

proof fn lemma_seq_child_errors_all_empty(s: Seq<ExBox>)
    requires
        forall|i: int| 0 <= i < s.len() ==> ebox_errors(s[i]).len() == 0,
    ensures
        seq_child_errors(s).len() == 0,
    decreases s,
{
    if s.len() > 0 {
        let u = s.drop_first();
        assert forall|i: int| 0 <= i < u.len() implies ebox_errors(u[i]).len() == 0 by {
            assert(u[i] == s[i + 1]);
        }
        lemma_seq_child_errors_all_empty(u);
    }
}

proof fn lemma_seq_mismatch_all_match(s: Seq<ExBox>, t: Type)
    requires
        forall|i: int| 0 <= i < s.len() ==> teq(ebox_type(s[i]), t),
    ensures
        seq_mismatch_errors(s, t).len() == 0,
    decreases s,
{
    if s.len() > 0 {
        let u = s.drop_first();
        assert forall|i: int| 0 <= i < u.len() implies teq(ebox_type(u[i]), t) by {
            assert(u[i] == s[i + 1]);
        }
        lemma_seq_mismatch_all_match(u, t);
    }
}

proof fn lemma_seq_mismatch_single(s: Seq<ExBox>, t: Type, j: int)
    requires
        0 <= j < s.len(),
        forall|i: int| 0 <= i < s.len() && i != j ==> teq(ebox_type(s[i]), t),
        !teq(ebox_type(s[j]), t),
    ensures
        seq_mismatch_errors(s, t) == seq![
            ErrV::TypeErr { expected: seq![t], got: ebox_type(s[j]) },
        ],
    decreases s,
{
    let u = s.drop_first();
    if j == 0 {
        assert forall|i: int| 0 <= i < u.len() implies teq(ebox_type(u[i]), t) by {
            assert(u[i] == s[i + 1]);
        }
        lemma_seq_mismatch_all_match(u, t);
        assert(seq_mismatch_errors(u, t) =~= Seq::<ErrV>::empty());
        assert(seq_mismatch_errors(s, t) =~= seq![
            ErrV::TypeErr { expected: seq![t], got: ebox_type(s[j]) },
        ]);
    } else {
        assert forall|i: int| 0 <= i < u.len() && i != j - 1 implies teq(ebox_type(u[i]), t) by {
            assert(u[i] == s[i + 1]);
        }
        assert(u[j - 1] == s[j]);
        lemma_seq_mismatch_single(u, t, j - 1);
        assert(seq_mismatch_errors(s, t) =~= seq![
            ErrV::TypeErr { expected: seq![t], got: ebox_type(s[j]) },
        ]);
    }
}

/// A non-empty sequence of cleanly validating operands that all share the
/// first operand's type validates cleanly and types as a set of that type.
pub proof fn lemma_sequence_homogeneous(v: Vec<ExBox>)
    requires
        v@.len() > 0,
        forall|i: int| 0 <= i < v@.len() ==> ebox_errors(v@[i]).len() == 0,
        forall|i: int| 0 <= i < v@.len() ==> teq(ebox_type(v@[i]), ebox_type(v@[0])),
    ensures
        errors(ExprNode::Sequence(v)).len() == 0,
        type_of(ExprNode::Sequence(v)) == Type::SetOf(Box::new(ebox_type(v@[0]))),
{
    lemma_seq_child_errors_all_empty(v@);
    lemma_seq_mismatch_all_match(v@, ebox_type(v@[0]));
}

/// Making exactly one later operand of a homogeneous sequence differ in
/// type yields exactly one type error, naming that operand's type as `got`.
pub proof fn lemma_sequence_one_mismatch(v: Vec<ExBox>, j: int)
    requires
        0 < j < v@.len(),
        forall|i: int| 0 <= i < v@.len() ==> ebox_errors(v@[i]).len() == 0,
        forall|i: int|
            0 <= i < v@.len() && i != j ==> teq(ebox_type(v@[i]), ebox_type(v@[0])),
        !teq(ebox_type(v@[j]), ebox_type(v@[0])),
    ensures
        errors(ExprNode::Sequence(v)) == seq![
            ErrV::TypeErr { expected: seq![ebox_type(v@[0])], got: ebox_type(v@[j]) },
        ],
{
    lemma_seq_child_errors_all_empty(v@);
    lemma_seq_mismatch_single(v@, ebox_type(v@[0]), j);
}

impl Call {
    /// The typing rule for calls is deliberately unresolved; the type
    /// degrades to `Invalid` until a symbol-table design is specified.
    pub fn get_type(&self, _program: &Program) -> (t: Type)
        ensures
            t == type_of(ExprNode::Call(*self)),
    {
        Type::Invalid
    }

    pub fn validate(&self, _program: &Program) -> (r: Vec<SemanticErrorKind>)
        ensures
            r.deep_view() == errors(ExprNode::Call(*self)),
    {
        let r: Vec<SemanticErrorKind> = Vec::new();
        proof {
            assert(r.deep_view() =~= errors(ExprNode::Call(*self)));
        }
        r
    }

    pub fn as_number(&self, _program: &Program) -> (r: Result<i64, SemanticErrorKind>)
        ensures
            fold_matches(r, fold(ExprNode::Call(*self))),
    {
        Err(SemanticErrorKind::InvalidLimit)
    }
}

impl VarRef {
    /// The typing rule for variable references requires symbol-table lookup
    /// that is deliberately unresolved; the type degrades to `Invalid`.
    pub fn get_type(&self, _program: &Program) -> (t: Type)
        ensures
            t == type_of(ExprNode::Var(*self)),
    {
        Type::Invalid
    }

    pub fn validate(&self, _program: &Program) -> (r: Vec<SemanticErrorKind>)
        ensures
            r.deep_view() == errors(ExprNode::Var(*self)),
    {
        let r: Vec<SemanticErrorKind> = Vec::new();
        proof {
            assert(r.deep_view() =~= errors(ExprNode::Var(*self)));
        }
        r
    }

    pub fn as_number(&self, _program: &Program) -> (r: Result<i64, SemanticErrorKind>)
        ensures
            fold_matches(r, fold(ExprNode::Var(*self))),
    {
        Err(SemanticErrorKind::InvalidLimit)
    }
}

} // verus!
