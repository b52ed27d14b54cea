use pascal_front::position::{Position, PositionBuilder};
use pascal_front::types::Span;

fn builder(src: &str) -> PositionBuilder {
    PositionBuilder::new(src.to_string())
}

fn assert_pos(p: &Position, line_no: usize, start: usize, end: usize, line: &str) {
    assert_eq!(p.line_no, line_no);
    assert_eq!(p.offset, Span { start, end });
    assert_eq!(p.line, line);
}

#[test]
fn single_line_token_at_end() {
    let b = builder("hello world");
    let p = b.try_pos(Span { start: 6, end: 11 }).unwrap();
    assert_pos(&p, 0, 6, 11, "hello world");
}

#[test]
fn second_line_token() {
    let b = builder("ab\ncde fg\n");
    let p = b.try_pos(Span { start: 7, end: 9 }).unwrap();
    assert_pos(&p, 1, 4, 6, "cde fg");
}

#[test]
fn trailing_whitespace_is_trimmed() {
    // the range covers "4" plus the trailing blanks consumed by recovery
    let b = builder("3 + 4  \n");
    let p = b.try_pos(Span { start: 4, end: 8 }).unwrap();
    assert_eq!(p.line_no, 0);
    assert_eq!(p.offset, Span { start: 1, end: 5 });
    assert_eq!(p.line, "3 + 4  ");
}

#[test]
fn mapping_is_idempotent() {
    let b = builder("alpha\nbeta gamma\n");
    let r = Span { start: 11, end: 16 };
    let p1 = b.try_pos(r).unwrap();
    let p2 = b.try_pos(r).unwrap();
    assert_eq!(p1.line_no, p2.line_no);
    assert_eq!(p1.offset, p2.offset);
    assert_eq!(p1.line, p2.line);
}

#[test]
fn out_of_range_requests_are_refused() {
    let b = builder("short");
    assert!(b.try_pos(Span { start: 2, end: 99 }).is_none());
    assert!(b.try_pos(Span { start: 4, end: 2 }).is_none());
    let empty = builder("");
    assert!(empty.try_pos(Span { start: 0, end: 0 }).is_none());
}

#[test]
fn pos_agrees_with_try_pos() {
    let b = builder("hello world");
    let p = b.pos(Span { start: 0, end: 5 });
    assert_pos(&p, 0, 0, 5, "hello world");
}

#[test]
fn trace_underlines_the_column_range() {
    let b = builder("hello world");
    let p = b.try_pos(Span { start: 6, end: 11 }).unwrap();
    let t = p.trace();
    assert_eq!(t, "line 0, 6..11\n\n    hello world\n    ------^^^^^-\n\n");
}

#[test]
fn position_one_line_form() {
    let b = builder("hello world");
    let p = b.try_pos(Span { start: 0, end: 5 }).unwrap();
    assert_eq!(p.to_text(), "line 0, 0..5");
}
