//! Deterministic rendering of types, positions and diagnostics as plain
//! text. Lists longer than three elements are truncated with an ellipsis
//! marker.

use vstd::prelude::*;
use vstd::string::StringExecFns;
use crate::types::{Span, Type};

verus! {

// ---------------------------------------------------------------------------
// Integers as decimal text
// ---------------------------------------------------------------------------

/// The character of one decimal digit.
pub open spec fn digit_char(d: int) -> char {
    if d == 0 {
        '0'
    } else if d == 1 {
        '1'
    } else if d == 2 {
        '2'
    } else if d == 3 {
        '3'
    } else if d == 4 {
        '4'
    } else if d == 5 {
        '5'
    } else if d == 6 {
        '6'
    } else if d == 7 {
        '7'
    } else if d == 8 {
        '8'
    } else {
        '9'
    }
}

/// Decimal digits of a non-negative integer, most significant first.
pub open spec fn dec_digits(n: int) -> Seq<char>
    decreases n,
{
    if n < 10 {
        seq![digit_char(n)]
    } else {
        dec_digits(n / 10).push(digit_char(n % 10))
    }
}

/// Decimal text of an integer, with a leading minus sign when negative.
pub open spec fn int_text(n: int) -> Seq<char> {
    if n < 0 {
        seq!['-'] + dec_digits(-n)
    } else {
        dec_digits(n)
    }
}

/// One decimal digit as text.
fn digit_str(d: u64) -> (r: &'static str)
    requires
        d < 10,
    ensures
        r@ == seq![digit_char(d as int)],
{
    let r: &'static str = match d {
        0 => "0",
        1 => "1",
        2 => "2",
        3 => "3",
        4 => "4",
        5 => "5",
        6 => "6",
        7 => "7",
        8 => "8",
        _ => "9",
    };
    proof {
        reveal_strlit("0");
        reveal_strlit("1");
        reveal_strlit("2");
        reveal_strlit("3");
        reveal_strlit("4");
        reveal_strlit("5");
        reveal_strlit("6");
        reveal_strlit("7");
        reveal_strlit("8");
        reveal_strlit("9");
        assert(r@ =~= seq![digit_char(d as int)]);
    }
    r
}

/// Renders an unsigned integer in decimal.
pub fn u64_to_string(n: u64) -> (r: String)
    ensures
        r@ == dec_digits(n as int),
    decreases n,
{
    if n < 10 {
        let s = String::from_str(digit_str(n));
        proof {
            assert(s@ =~= dec_digits(n as int));
        }
        s
    } else {
        let mut s = u64_to_string(n / 10);
        s.append(digit_str(n % 10));
        proof {
            assert(s@ =~= dec_digits(n as int));
        }
        s
    }
}

/// Renders a signed integer in decimal.
pub fn i64_to_string(n: i64) -> (r: String)
    ensures
        r@ == int_text(n as int),
{
    if n >= 0 {
        u64_to_string(n as u64)
    } else {
        let m: u64 = ((-(n + 1)) as u64) + 1;
        let mut s = String::from_str("-");
        let digits = u64_to_string(m);
        s.append(digits.as_str());
        proof {
            reveal_strlit("-");
            assert(m as int == -(n as int));
            assert(s@ =~= int_text(n as int));
        }
        s
    }
}

/// Renders a machine-sized index in decimal.
pub fn usize_to_string(n: usize) -> (r: String)
    ensures
        r@ == dec_digits(n as int),
{
    u64_to_string(n as u64)
}

// ---------------------------------------------------------------------------
// Types as text
// ---------------------------------------------------------------------------

/// Text of an index range, as `start..end`.
pub open spec fn span_text(sp: Span) -> Seq<char> {
    dec_digits(sp.start as int) + ".."@ + dec_digits(sp.end as int)
}

/// Dimension ranges joined with `;`.
pub open spec fn dims_text(ds: Seq<Span>) -> Seq<char>
    decreases ds.len(),
{
    if ds.len() == 0 {
        Seq::empty()
    } else if ds.len() == 1 {
        span_text(ds[0])
    } else {
        span_text(ds[0]) + ";"@ + dims_text(ds.drop_first())
    }
}

/// Record fields rendered `name: type` and joined with `;`.
pub open spec fn fields_text(fs: Seq<(String, Type)>) -> Seq<char>
    decreases fs,
{
    if fs.len() == 0 {
        Seq::empty()
    } else if fs.len() == 1 {
        fs[0].0@ + ": "@ + type_text(fs[0].1)
    } else {
        fs[0].0@ + ": "@ + type_text(fs[0].1) + ";"@ + fields_text(fs.drop_first())
    }
}

/// Enumeration variant names joined with `,`.
pub open spec fn names_text(vs: Seq<String>) -> Seq<char>
    decreases vs.len(),
{
    if vs.len() == 0 {
        Seq::empty()
    } else if vs.len() == 1 {
        vs[0]@
    } else {
        vs[0]@ + ","@ + names_text(vs.drop_first())
    }
}

/// The rendered description of a type. Record fields and enumeration
/// variants show at most their first three entries, then an ellipsis.
pub open spec fn type_text(t: Type) -> Seq<char>
    decreases t,
{
    match t {
        Type::Integer => "Integer"@,
        Type::Real => "Real"@,
        Type::Boolean => "Boolean"@,
        Type::Char => "Character"@,
        Type::SetOf(ty) => "Set of "@ + type_text(*ty),
        Type::ArrayOf(dims, ty) => "Array of "@ + type_text(*ty) + " ["@ + dims_text(dims@)
            + "]"@,
        Type::Record(fields) => "Record "@ + fields_text(
            if fields@.len() > 3 {
                fields@.take(3)
            } else {
                fields@
            },
        ) + (if fields@.len() > 3 {
            "... end"@
        } else {
            "end"@
        }),
        Type::Enum(vs) => "("@ + names_text(
            if vs@.len() > 3 {
                vs@.take(3)
            } else {
                vs@
            },
        ) + (if vs@.len() > 3 {
            "..."@
        } else {
            Seq::empty()
        }) + ")"@,
        Type::Range(r) => int_text(r.start as int) + ".."@ + int_text(r.end as int),
        Type::Invalid => "<???>"@,
    }
}

proof fn lemma_dims_text_snoc(ds: Seq<Span>, i: int)
    requires
        0 < i < ds.len(),
    ensures
        dims_text(ds.take(i + 1)) == dims_text(ds.take(i)) + ";"@ + span_text(ds[i]),
    decreases i,
{
    let u = ds.drop_first();
    if i == 1 {
        assert(ds.take(2).drop_first() =~= u.take(1));
        assert(ds.take(2)[0] == ds[0]);
        assert(u.take(1)[0] == ds[1]);
        assert(ds.take(1)[0] == ds[0]);
        assert(dims_text(u.take(1)) == span_text(ds[1]));
        assert(dims_text(ds.take(1)) == span_text(ds[0]));
        assert(dims_text(ds.take(2)) =~= dims_text(ds.take(1)) + ";"@ + span_text(ds[1]));
    } else {
        lemma_dims_text_snoc(u, i - 1);
        assert(ds.take(i + 1).drop_first() =~= u.take(i));
        assert(ds.take(i).drop_first() =~= u.take(i - 1));
        assert(u[i - 1] == ds[i]);
        assert(ds.take(i + 1)[0] == ds[0]);
        assert(ds.take(i)[0] == ds[0]);
        assert(dims_text(ds.take(i + 1)) =~= dims_text(ds.take(i)) + ";"@ + span_text(ds[i]));
    }
}

proof fn lemma_fields_text_snoc(fs: Seq<(String, Type)>, i: int)
    requires
        0 < i < fs.len(),
    ensures
        fields_text(fs.take(i + 1)) == fields_text(fs.take(i)) + ";"@ + (fs[i].0@ + ": "@
            + type_text(fs[i].1)),
    decreases i,
{
    let u = fs.drop_first();
    if i == 1 {
        assert(fs.take(2).drop_first() =~= u.take(1));
        assert(fs.take(2)[0] == fs[0]);
        assert(u.take(1)[0] == fs[1]);
        assert(fs.take(1)[0] == fs[0]);
        assert(fields_text(u.take(1)) == fs[1].0@ + ": "@ + type_text(fs[1].1));
        assert(fields_text(fs.take(1)) == fs[0].0@ + ": "@ + type_text(fs[0].1));
        assert(fields_text(fs.take(2)) =~= fields_text(fs.take(1)) + ";"@ + (fs[1].0@ + ": "@
            + type_text(fs[1].1)));
    } else {
        lemma_fields_text_snoc(u, i - 1);
        assert(fs.take(i + 1).drop_first() =~= u.take(i));
        assert(fs.take(i).drop_first() =~= u.take(i - 1));
        assert(u[i - 1] == fs[i]);
        assert(fs.take(i + 1)[0] == fs[0]);
        assert(fs.take(i)[0] == fs[0]);
        assert(fields_text(fs.take(i + 1)) =~= fields_text(fs.take(i)) + ";"@ + (fs[i].0@ + ": "@
            + type_text(fs[i].1)));
    }
}

proof fn lemma_names_text_snoc(vs: Seq<String>, i: int)
    requires
        0 < i < vs.len(),
    ensures
        names_text(vs.take(i + 1)) == names_text(vs.take(i)) + ","@ + vs[i]@,
    decreases i,
{
    let u = vs.drop_first();
    if i == 1 {
        assert(vs.take(2).drop_first() =~= u.take(1));
        assert(vs.take(2)[0] == vs[0]);
        assert(u.take(1)[0] == vs[1]);
        assert(vs.take(1)[0] == vs[0]);
        assert(names_text(u.take(1)) == vs[1]@);
        assert(names_text(vs.take(1)) == vs[0]@);
        assert(names_text(vs.take(2)) =~= names_text(vs.take(1)) + ","@ + vs[1]@);
    } else {
        lemma_names_text_snoc(u, i - 1);
        assert(vs.take(i + 1).drop_first() =~= u.take(i));
        assert(vs.take(i).drop_first() =~= u.take(i - 1));
        assert(u[i - 1] == vs[i]);
        assert(vs.take(i + 1)[0] == vs[0]);
        assert(vs.take(i)[0] == vs[0]);
        assert(names_text(vs.take(i + 1)) =~= names_text(vs.take(i)) + ","@ + vs[i]@);
    }
}

/// Renders an index range as `start..end`.
fn span_to_string(sp: &Span) -> (r: String)
    ensures
        r@ == span_text(*sp),
{
    let mut s = usize_to_string(sp.start);
    s.append("..");
    let endtext = usize_to_string(sp.end);
    s.append(endtext.as_str());
    proof {
        assert(s@ =~= span_text(*sp));
    }
    s
}

impl Type {
    /// Renders this type's description.
    #[verifier::loop_isolation(false)]
    #[verifier::rlimit(60)]
    pub fn describe(&self) -> (r: String)
        ensures
            r@ == type_text(*self),
        decreases *self,
    {
        match self {
            Type::Integer => String::from_str("Integer"),
            Type::Real => String::from_str("Real"),
            Type::Boolean => String::from_str("Boolean"),
            Type::Char => String::from_str("Character"),
            Type::SetOf(ty) => {
                let mut s = String::from_str("Set of ");
                let inner = ty.describe();
                s.append(inner.as_str());
                proof {
                    assert(s@ =~= type_text(*self));
                }
                s
            },
            Type::ArrayOf(dims, ty) => {
                let mut s = String::from_str("Array of ");
                let inner = ty.describe();
                s.append(inner.as_str());
                s.append(" [");
                let mut i: usize = 0;
                while i < dims.len()
                    invariant
                        i <= dims@.len(),
                        s@ == "Array of "@ + type_text(**ty) + " ["@ + dims_text(
                            dims@.take(i as int),
                        ),
                    decreases dims@.len() - i,
                {
                    if i > 0 {
                        s.append(";");
                    }
                    let piece = span_to_string(&dims[i]);
                    s.append(piece.as_str());
                    proof {
                        if i == 0 {
                            assert(dims@.take(1)[0] == dims@[0]);
                            assert(dims_text(dims@.take(1)) =~= span_text(dims@[0]));
                            assert(s@ =~= "Array of "@ + type_text(**ty) + " ["@ + dims_text(
                                dims@.take(1),
                            ));
                        } else {
                            lemma_dims_text_snoc(dims@, i as int);
                            assert(s@ =~= "Array of "@ + type_text(**ty) + " ["@ + dims_text(
                                dims@.take(i as int + 1),
                            ));
                        }
                    }
                    i = i + 1;
                }
                s.append("]");
                proof {
                    assert(dims@.take(dims@.len() as int) =~= dims@);
                    assert(s@ =~= type_text(*self));
                }
                s
            },
            Type::Record(fields) => {
                let limit: usize = if fields.len() > 3 {
                    3
                } else {
                    fields.len()
                };
                let ghost shown = if fields@.len() > 3 {
                    fields@.take(3)
                } else {
                    fields@
                };
                let mut s = String::from_str("Record ");
                let mut i: usize = 0;
                while i < limit
                    invariant
                        i <= limit,
                        limit <= fields@.len(),
                        limit == shown.len(),
                        shown =~= (if fields@.len() > 3 {
                            fields@.take(3)
                        } else {
                            fields@
                        }),
                        s@ == "Record "@ + fields_text(shown.take(i as int)),
                    decreases limit - i,
                {
                    if i > 0 {
                        s.append(";");
                    }
                    s.append(fields[i].0.as_str());
                    s.append(": ");
                    proof {
                        assert(decreases_to!(*self => *fields));
                        assert(decreases_to!(*fields => fields@));
                        assert(decreases_to!(fields@ => fields@[i as int]));
                        assert(decreases_to!(fields@[i as int] => fields@[i as int].1));
                    }
                    let piece = fields[i].1.describe();
                    s.append(piece.as_str());
                    proof {
                        assert(shown[i as int] == fields@[i as int]);
                        if i == 0 {
                            assert(shown.take(1)[0] == shown[0]);
                            assert(fields_text(shown.take(1)) =~= shown[0].0@ + ": "@ + type_text(
                                shown[0].1,
                            ));
                            assert(s@ =~= "Record "@ + fields_text(shown.take(1)));
                        } else {
                            lemma_fields_text_snoc(shown, i as int);
                            assert(s@ =~= "Record "@ + fields_text(shown.take(i as int + 1)));
                        }
                    }
                    i = i + 1;
                }
                if fields.len() > 3 {
                    s.append("... end");
                } else {
                    s.append("end");
                }
                proof {
                    assert(shown.take(limit as int) =~= shown);
                    assert(s@ =~= type_text(*self));
                }
                s
            },
            Type::Enum(vs) => {
                let limit: usize = if vs.len() > 3 {
                    3
                } else {
                    vs.len()
                };
                let ghost shown = if vs@.len() > 3 {
                    vs@.take(3)
                } else {
                    vs@
                };
                let mut s = String::from_str("(");
                let mut i: usize = 0;
                while i < limit
                    invariant
                        i <= limit,
                        limit <= vs@.len(),
                        limit == shown.len(),
                        shown =~= (if vs@.len() > 3 {
                            vs@.take(3)
                        } else {
                            vs@
                        }),
                        s@ == "("@ + names_text(shown.take(i as int)),
                    decreases limit - i,
                {
                    if i > 0 {
                        s.append(",");
                    }
                    s.append(vs[i].as_str());
                    proof {
                        assert(shown[i as int] == vs@[i as int]);
                        if i == 0 {
                            assert(shown.take(1)[0] == shown[0]);
                            assert(names_text(shown.take(1)) =~= shown[0]@);
                            assert(s@ =~= "("@ + names_text(shown.take(1)));
                        } else {
                            lemma_names_text_snoc(shown, i as int);
                            assert(s@ =~= "("@ + names_text(shown.take(i as int + 1)));
                        }
                    }
                    i = i + 1;
                }
                if vs.len() > 3 {
                    s.append("...");
                }
                s.append(")");
                proof {
                    assert(shown.take(limit as int) =~= shown);
                    assert(s@ =~= type_text(*self));
                }
                s
            },
            Type::Range(r) => {
                let mut s = i64_to_string(r.start);
                s.append("..");
                let endtext = i64_to_string(r.end);
                s.append(endtext.as_str());
                proof {
                    assert(s@ =~= type_text(*self));
                }
                s
            },
            Type::Invalid => String::from_str("<???>"),
        }
    }
}

} // verus!
