use pascal_front::parse_error::{ErrorRef, ErrorVariant, ParsingError};
use pascal_front::position::PositionBuilder;
use pascal_front::program::Program;
use pascal_front::semantic::{SemanticError, SemanticErrorKind};
use pascal_front::text::{i64_to_string, u64_to_string, usize_to_string};
use pascal_front::throwable::{Printable, Throwable};
use pascal_front::types::{type_eq, IntRange, Span, Type};

#[test]
fn integers_render_in_decimal() {
    assert_eq!(u64_to_string(0), "0");
    assert_eq!(u64_to_string(7), "7");
    assert_eq!(u64_to_string(1234567), "1234567");
    assert_eq!(i64_to_string(-42), "-42");
    assert_eq!(i64_to_string(i64::MIN), "-9223372036854775808");
    assert_eq!(usize_to_string(10), "10");
}

#[test]
fn primitive_types_describe_themselves() {
    assert_eq!(Type::Integer.describe(), "Integer");
    assert_eq!(Type::Real.describe(), "Real");
    assert_eq!(Type::Boolean.describe(), "Boolean");
    assert_eq!(Type::Char.describe(), "Character");
    assert_eq!(Type::Invalid.describe(), "<???>");
}

#[test]
fn compound_types_describe_their_parts() {
    assert_eq!(Type::SetOf(Box::new(Type::Integer)).describe(), "Set of Integer");
    let arr = Type::ArrayOf(
        vec![Span { start: 1, end: 5 }, Span { start: 0, end: 2 }],
        Box::new(Type::Char),
    );
    assert_eq!(arr.describe(), "Array of Character [1..5;0..2]");
    assert_eq!(Type::Range(IntRange { start: -1, end: 5 }).describe(), "-1..5");
}

#[test]
fn long_records_and_enums_are_truncated() {
    let rec = Type::Record(vec![
        ("a".to_string(), Type::Integer),
        ("b".to_string(), Type::Real),
        ("c".to_string(), Type::Char),
        ("d".to_string(), Type::Boolean),
    ]);
    assert_eq!(rec.describe(), "Record a: Integer;b: Real;c: Character... end");
    let short_rec = Type::Record(vec![("x".to_string(), Type::Integer)]);
    assert_eq!(short_rec.describe(), "Record x: Integerend");

    let en = Type::Enum(vec![
        "red".to_string(),
        "green".to_string(),
        "blue".to_string(),
        "grey".to_string(),
    ]);
    assert_eq!(en.describe(), "(red,green,blue...)");
    let short_en = Type::Enum(vec!["on".to_string(), "off".to_string()]);
    assert_eq!(short_en.describe(), "(on,off)");
}

#[test]
fn structural_type_equality() {
    let a = Type::SetOf(Box::new(Type::Integer));
    let b = Type::SetOf(Box::new(Type::Integer));
    let c = Type::SetOf(Box::new(Type::Real));
    assert!(type_eq(&a, &b));
    assert!(!type_eq(&a, &c));
    assert!(!type_eq(&Type::Invalid, &Type::Integer));
    let r1 = Type::Record(vec![("x".to_string(), Type::Integer)]);
    let r2 = Type::Record(vec![("x".to_string(), Type::Integer)]);
    let r3 = Type::Record(vec![("y".to_string(), Type::Integer)]);
    assert!(type_eq(&r1, &r2));
    assert!(!type_eq(&r1, &r3));
    assert!(Type::Real.is_primitive());
    assert!(!Type::Invalid.is_primitive());
}

#[test]
fn semantic_error_titles_and_descriptions() {
    let e = SemanticError::new(
        Span { start: 0, end: 1 },
        SemanticErrorKind::TypeError {
            expected: vec![Type::Integer, Type::Real, Type::Char, Type::Boolean],
            got: Type::Boolean,
        },
    );
    assert_eq!(e.title(), "Type Error");
    assert_eq!(e.description(), "Expected Integer/Real/Character..., got Boolean");

    let l = SemanticError::new(Span { start: 0, end: 1 }, SemanticErrorKind::InvalidLimit);
    assert_eq!(l.title(), "Invalid Limit");
    assert_eq!(l.description(), "This expression cannot be used as a limit");
    assert!(l.notes().is_empty());
}

#[test]
fn static_print_composes_title_and_description() {
    let l = SemanticError::new(Span { start: 0, end: 1 }, SemanticErrorKind::InvalidLimit);
    assert_eq!(l.static_print(), "Invalid Limit This expression cannot be used as a limit");
}

#[test]
fn parsing_error_descriptions_quote_the_token() {
    assert_eq!(
        ErrorVariant::UnrecognizedToken.describe(Some(&"begin".to_string())),
        "Unrecognized 'begin'"
    );
    assert_eq!(ErrorVariant::UnrecognizedToken.describe(None), "Unrecognized token");
    assert_eq!(ErrorVariant::InvalidToken.describe(None), "Stray token in program");
    assert_eq!(ErrorVariant::UnexpectedEOF.describe(None), "Unexpected end of file");
    assert_eq!(
        ErrorVariant::ExtraToken.describe(Some(&";".to_string())),
        "Extra ';'"
    );
    assert_eq!(ErrorVariant::Other.describe(None), "");
}

#[test]
fn parsing_error_renders_through_the_throwable_contract() {
    let e: ParsingError<String> = ParsingError {
        dropped: vec![],
        position: Span { start: 6, end: 11 },
        expected: vec!["';'".to_string()],
        token: Some("world".to_string()),
        variant: ErrorVariant::UnrecognizedToken,
    };
    assert_eq!(e.title(), "Error:");
    assert_eq!(e.description(), "Unrecognized 'world'");
    let b = PositionBuilder::new("hello world".to_string());
    let printable = Printable::new(e, b);
    assert_eq!(
        printable.render(),
        "Error: Unrecognized 'world' at line 0, 6..11\n\n    hello world\n    ------^^^^^-\n\n"
    );
}

#[test]
fn semantic_error_renders_with_a_trace() {
    let e = SemanticError::new(Span { start: 0, end: 1 }, SemanticErrorKind::InvalidLimit);
    let b = PositionBuilder::new("x := 3".to_string());
    let printable = b.printable(e);
    assert_eq!(
        printable.render(),
        "Invalid Limit This expression cannot be used as a limit at line 0, 0..1\n\n    x := 3\n    ^------\n\n"
    );
}

#[test]
fn unmappable_ranges_render_without_a_trace() {
    let e = SemanticError::new(Span { start: 50, end: 60 }, SemanticErrorKind::InvalidLimit);
    let b = PositionBuilder::new("tiny".to_string());
    let printable = Printable::new(e, b);
    assert_eq!(
        printable.render(),
        "Invalid Limit This expression cannot be used as a limit at <unmappable position>\n"
    );
}

#[test]
fn error_refs_render_as_a_fixed_marker() {
    let r = ErrorRef(0, Span { start: 2, end: 4 });
    assert_eq!(r.to_text(), "!!Error");
    assert_eq!(r.0, 0);
    assert_eq!(r.1, Span { start: 2, end: 4 });
}

#[test]
fn a_fresh_program_context_is_empty() {
    let p = Program::new("program demo;".to_string());
    assert_eq!(p.name, "");
    assert!(p.types.get("INTEGER").is_none());
    assert_eq!(p.positioner.file, "program demo;");
}
