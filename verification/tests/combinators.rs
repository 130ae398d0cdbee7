use pretty_doc::AnnotDetails;
use pretty_doc::Doc;
use pretty_doc::DocBase;

fn text(s: &str) -> Doc<u32> {
    Doc::text(String::from(s))
}

#[test]
fn empty_is_empty() {
    assert!(Doc::<u32>::empty().is_empty());
}

#[test]
fn zero_width_text_is_not_empty() {
    assert!(!Doc::<u32>::zero_width_text(String::from("")).is_empty());
}

#[test]
fn atoms_are_not_empty() {
    assert!(!text("x").is_empty());
    assert!(!Doc::<u32>::char('x').is_empty());
}

#[test]
fn char_has_width_one() {
    match *Doc::<u32>::char('q').0 {
        DocBase::TextBeside(AnnotDetails::Chr(c, w), rest) => {
            assert_eq!(c, 'q');
            assert_eq!(w, 1);
            assert!(rest.is_empty());
        }
        _ => panic!("expected a character atom"),
    }
}

#[test]
fn text_width_counts_characters() {
    match *text("h\u{e9}llo").0 {
        DocBase::TextBeside(AnnotDetails::Str(s, w), rest) => {
            assert_eq!(s, "h\u{e9}llo");
            assert_eq!(w, 5);
            assert!(rest.is_empty());
        }
        _ => panic!("expected a string atom"),
    }
}

#[test]
fn sized_text_width_is_declared_not_literal() {
    match *Doc::<u32>::sized_text(5, String::from("\u{1F600}")).0 {
        DocBase::TextBeside(AnnotDetails::Str(s, w), _) => {
            assert_eq!(s, "\u{1F600}");
            assert_eq!(w, 5);
        }
        _ => panic!("expected a string atom"),
    }
}

#[test]
fn zero_width_text_has_width_zero() {
    match *Doc::<u32>::zero_width_text(String::from("x")).0 {
        DocBase::TextBeside(AnnotDetails::Str(s, w), _) => {
            assert_eq!(s, "x");
            assert_eq!(w, 0);
        }
        _ => panic!("expected a string atom"),
    }
}

#[test]
fn display_formats_like_text() {
    let d = Doc::<u32>::display(&42);
    match *d.0 {
        DocBase::TextBeside(AnnotDetails::Str(s, w), rest) => {
            assert_eq!(s, "42");
            assert_eq!(w, 2);
            assert!(rest.is_empty());
        }
        _ => panic!("expected a string atom"),
    }
}

#[test]
fn debug_formats_like_text() {
    let d = Doc::<u32>::debug(&"x");
    match *d.0 {
        DocBase::TextBeside(AnnotDetails::Str(s, w), rest) => {
            assert_eq!(s, "\"x\"");
            assert_eq!(w, 3);
            assert!(rest.is_empty());
        }
        _ => panic!("expected a string atom"),
    }
}

#[test]
fn beside_chain_stays_flat() {
    let abc = text("a").beside(true, text("b")).beside(false, text("c"));
    match *abc.0 {
        DocBase::Beside(head, items) => {
            assert_eq!(head, text("a"));
            assert_eq!(items, vec![(true, text("b")), (false, text("c"))]);
        }
        _ => panic!("expected a horizontal group"),
    }
}

#[test]
fn above_chain_stays_flat() {
    let abc = text("a").above(false, text("b")).above(true, text("c"));
    match *abc.0 {
        DocBase::Above(head, items) => {
            assert_eq!(head, text("a"));
            assert_eq!(items, vec![(false, text("b")), (true, text("c"))]);
        }
        _ => panic!("expected a vertical group"),
    }
}

#[test]
fn beside_then_above_scenario() {
    let d = text("x").beside(false, text("y")).above(true, text("z"));
    match *d.0 {
        DocBase::Above(head, items) => {
            match *head.0 {
                DocBase::Beside(h, hs) => {
                    assert_eq!(h, text("x"));
                    assert_eq!(hs, vec![(false, text("y"))]);
                }
                _ => panic!("expected the head to be a horizontal group"),
            }
            assert_eq!(items, vec![(true, text("z"))]);
        }
        _ => panic!("expected a vertical group"),
    }
}

#[test]
fn empty_beside_wraps_without_new_content() {
    let l = Doc::<u32>::empty().beside(false, text("d"));
    match *l.0 {
        DocBase::Beside(head, items) => {
            assert!(head.is_empty());
            assert_eq!(items, vec![(false, text("d"))]);
        }
        _ => panic!("expected a horizontal group"),
    }
    let r = text("d").beside(false, Doc::<u32>::empty());
    match *r.0 {
        DocBase::Beside(head, items) => {
            assert_eq!(head, text("d"));
            assert_eq!(items.len(), 1);
            assert!(!items[0].0);
            assert!(items[0].1.is_empty());
        }
        _ => panic!("expected a horizontal group"),
    }
}

#[test]
fn parens_decompose_structurally() {
    let d = text("d").parens();
    match *d.0 {
        DocBase::Beside(head, items) => {
            assert_eq!(head, Doc::<u32>::char('('));
            assert_eq!(items, vec![(false, text("d")), (false, Doc::<u32>::char(')'))]);
        }
        _ => panic!("expected a horizontal group"),
    }
}

#[test]
fn bracket_and_quote_helpers_use_their_delimiters() {
    let checks: Vec<(Doc<u32>, char, char)> = vec![
        (text("d").brackets(), '[', ']'),
        (text("d").braces(), '{', '}'),
        (text("d").quotes(), '\'', '\''),
        (text("d").double_quotes(), '"', '"'),
        (text("d").curly_quotes(), '\u{2018}', '\u{2019}'),
        (text("d").curly_double_quotes(), '\u{201C}', '\u{201D}'),
    ];
    for (d, left, right) in checks {
        match *d.0 {
            DocBase::Beside(head, items) => {
                assert_eq!(head, Doc::<u32>::char(left));
                assert_eq!(items, vec![(false, text("d")), (false, Doc::<u32>::char(right))]);
            }
            _ => panic!("expected a horizontal group"),
        }
    }
}

#[test]
fn maybe_helpers_wrap_only_when_asked() {
    assert_eq!(text("d").maybe_parens(false), text("d"));
    assert_eq!(text("d").maybe_brackets(false), text("d"));
    assert_eq!(text("d").maybe_braces(false), text("d"));
    assert_eq!(text("d").maybe_quotes(false), text("d"));
    assert_eq!(text("d").maybe_double_quotes(false), text("d"));
    assert_eq!(text("d").maybe_curly_quotes(false), text("d"));
    assert_eq!(text("d").maybe_curly_double_quotes(false), text("d"));
    assert_eq!(text("d").maybe_parens(true), text("d").parens());
    assert_eq!(text("d").maybe_brackets(true), text("d").brackets());
    assert_eq!(text("d").maybe_braces(true), text("d").braces());
    assert_eq!(text("d").maybe_quotes(true), text("d").quotes());
    assert_eq!(text("d").maybe_double_quotes(true), text("d").double_quotes());
    assert_eq!(text("d").maybe_curly_quotes(true), text("d").curly_quotes());
    assert_eq!(
        text("d").maybe_curly_double_quotes(true),
        text("d").curly_double_quotes()
    );
}

#[test]
fn nest_records_the_delta() {
    let d = Doc::nest(-3, text("body"));
    match *d.0 {
        DocBase::Nest(delta, inner) => {
            assert_eq!(delta, -3);
            assert_eq!(inner, text("body"));
        }
        _ => panic!("expected an indentation node"),
    }
    let twice = Doc::nest(2, Doc::nest(4, text("body")));
    match *twice.0 {
        DocBase::Nest(2, inner) => match *inner.0 {
            DocBase::Nest(4, _) => {}
            _ => panic!("nestings must wrap, not sum"),
        },
        _ => panic!("expected an indentation node"),
    }
}
