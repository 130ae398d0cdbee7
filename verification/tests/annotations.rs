use pretty_doc::AnnotDetails;
use pretty_doc::Doc;
use pretty_doc::DocBase;

fn text(s: &str) -> Doc<u32> {
    Doc::text(String::from(s))
}

/// Collects the annotation markers of a tree in left-to-right traversal
/// order, as "open" and "close:<payload>" entries.
fn markers(d: &Doc<u32>, out: &mut Vec<String>) {
    match &*d.0 {
        DocBase::Empty | DocBase::NoDoc => {}
        DocBase::TextBeside(a, rest) => {
            match a {
                AnnotDetails::Start => out.push(String::from("open")),
                AnnotDetails::End(p) => out.push(format!("close:{}", p)),
                _ => {}
            }
            markers(rest, out);
        }
        DocBase::Nest(_, inner) => markers(inner, out),
        DocBase::Union(x, y) => {
            markers(x, out);
            markers(y, out);
        }
        DocBase::Beside(head, items) | DocBase::Above(head, items) => {
            markers(head, out);
            for (_, item) in items {
                markers(item, out);
            }
        }
    }
}

#[test]
fn annotate_builds_the_documented_shape() {
    let close = Doc(Box::new(DocBase::TextBeside(
        AnnotDetails::End(9u32),
        Doc(Box::new(DocBase::Empty)),
    )));
    let body = Doc(Box::new(DocBase::Beside(text("x"), vec![(false, close)])));
    let expected = Doc(Box::new(DocBase::TextBeside(AnnotDetails::Start, body)));
    assert_eq!(text("x").annotate(9), expected);
}

#[test]
fn annotate_brackets_are_balanced() {
    let mut seen = Vec::new();
    markers(&text("x").annotate(7), &mut seen);
    assert_eq!(seen, vec![String::from("open"), String::from("close:7")]);
}

#[test]
fn annotate_close_comes_after_all_content() {
    let d = text("a").beside(true, text("b")).annotate(3);
    let mut seen = Vec::new();
    markers(&d, &mut seen);
    assert_eq!(seen, vec![String::from("open"), String::from("close:3")]);
    match *d.0 {
        DocBase::TextBeside(AnnotDetails::Start, body) => match *body.0 {
            DocBase::Beside(_, items) => {
                let last = items.last().expect("the close marker is appended");
                assert!(!last.0);
                match &*last.1 .0 {
                    DocBase::TextBeside(AnnotDetails::End(3), rest) => assert!(rest.is_empty()),
                    _ => panic!("expected the close marker last"),
                }
            }
            _ => panic!("expected the annotated body to be a horizontal group"),
        },
        _ => panic!("expected an open marker in front"),
    }
}

#[test]
fn nested_annotations_do_not_interleave() {
    let inner = text("x").annotate(1);
    let outer = inner.beside(false, text("y")).annotate(2);
    let mut seen = Vec::new();
    markers(&outer, &mut seen);
    assert_eq!(
        seen,
        vec![
            String::from("open"),
            String::from("open"),
            String::from("close:1"),
            String::from("close:2"),
        ]
    );
}

#[test]
fn annotations_on_siblings_stay_disjoint() {
    let d = text("a").annotate(1).beside(false, text("b").annotate(2));
    let mut seen = Vec::new();
    markers(&d, &mut seen);
    assert_eq!(
        seen,
        vec![
            String::from("open"),
            String::from("close:1"),
            String::from("open"),
            String::from("close:2"),
        ]
    );
}

#[test]
fn annotating_a_group_extends_it_in_place() {
    let d = text("a").beside(true, text("b")).annotate(5);
    match *d.0 {
        DocBase::TextBeside(AnnotDetails::Start, body) => match *body.0 {
            DocBase::Beside(head, items) => {
                assert_eq!(head, text("a"));
                assert_eq!(items.len(), 2);
                assert_eq!(items[0], (true, text("b")));
            }
            _ => panic!("expected the existing group to be extended"),
        },
        _ => panic!("expected an open marker in front"),
    }
}
