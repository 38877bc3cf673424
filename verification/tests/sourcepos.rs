use ultrafxr::sourcepos::{Pos, Span};

fn span(start: u32, end: u32) -> Span {
    Span { start: Pos(start), end: Pos(end) }
}

#[test]
fn slice() {
    assert_eq!(span(5, 10).sub_span(1, 2), span(6, 7));
    assert_eq!(span(5, 10).sub_from(1), span(6, 10));
    assert_eq!(span(5, 10).sub_to(2), span(5, 7));
    assert_eq!(span(5, 10).sub_from(0), span(5, 10));
}

#[test]
fn empty_span() {
    assert_eq!(Span::none(), span(0, 0));
    assert!(Span::none().is_empty());
    assert!(!span(5, 10).is_empty());
    assert_eq!(span(5, 10).len(), 5);
}
