use oplang::span::Span;

#[test]
fn test_span_join() {
    let span1 = Span::new(3, 4);
    let span2 = Span::new(2, 5);
    assert_eq!(span1.join(span2), Span::new(2, 5));
}

#[test]
fn test_span_join1() {
    let span1 = Span::new(3, 5);
    let span2 = Span::new(4, 4);
    assert_eq!(span1.join(span2), Span::new(3, 5));
}

#[test]
fn join_is_commutative_and_covers_both() {
    let a = Span::new(10, 2);
    let b = Span::new(1, 3);
    assert_eq!(a.join(b), b.join(a));
    assert_eq!(a.join(b), Span::new(1, 11));
    assert_eq!(a.join(a), a);
    assert_eq!(a.end(), 12);
}

#[test]
fn retrieve_slice_gives_the_spanned_bytes() {
    let text = b"let x = 5;";
    assert_eq!(Span::retrieve_slice(text, &Span::new(4, 1)), b"x");
}

#[test]
fn parse_span_joins_by_offset() {
    let a = oplang::parse::span::Span::new(4, 2);
    let b = oplang::parse::span::Span::new(1, 1);
    let j = a.join(b);
    assert_eq!(j.offset(), 1);
    assert_eq!(j.len(), 5);
    assert_eq!(j.end(), 6);
}
