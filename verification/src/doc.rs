//! The document tree and its combinator API.

use vstd::prelude::*;

use std::fmt::Debug;
use std::fmt::Display;

use crate::trace::balanced;
use crate::trace::lemma_wrap_balanced;
use crate::trace::lemma_balanced_concat;
use crate::trace::lemma_singleton_stream;
use crate::trace::lemma_widths_ok_concat;
use crate::trace::widths_ok;
use crate::trace::Tok;
use vstd::string::StrSliceExecFns;

verus! {

/// A buildable, annotatable document, generic over the annotation
/// payload type `T`.  Combinators consume their receiver and return an
/// owned result; a finished document is handed whole to an external
/// layout resolver, which pattern-matches the [`DocBase`] variants.
#[derive(Debug, PartialEq)]
pub struct Doc<T>(pub Box<DocBase<T>>);

/// The variants of a document node.
#[derive(Debug, PartialEq)]
pub enum DocBase<T> {
    /// The neutral element for concatenation.
    Empty,
    /// A leaf of displayable content (or an annotation boundary) followed
    /// by a continuation document.
    TextBeside(AnnotDetails<T>, Doc<T>),
    /// A sub-document to be offset by a signed indentation delta.
    Nest(i32, Doc<T>),
    /// Two alternative renderings of the same logical content: prefer the
    /// first, fall back to the second.
    Union(Doc<T>, Doc<T>),
    /// An unrenderable alternative, pruned by the resolver.
    NoDoc,
    /// A flattened run of documents placed side by side: a head document
    /// and an ordered sequence of (needs-separator, document) pairs.
    Beside(Doc<T>, Vec<(bool, Doc<T>)>),
    /// A flattened run of documents stacked on separate lines: a head
    /// document and an ordered sequence of (needs-break, document) pairs.
    Above(Doc<T>, Vec<(bool, Doc<T>)>),
}

/// The content of a [`DocBase::TextBeside`] node: a displayable atom with
/// its declared width, or one of the two annotation boundary markers.
#[derive(Debug, PartialEq)]
pub enum AnnotDetails<T> {
    /// Start of an annotated span.
    Start,
    /// A string atom and its declared display width (which may differ
    /// from the string's literal length).
    Str(String, i32),
    /// A single-character atom and its declared display width.
    Chr(char, i32),
    /// End of an annotated span, carrying its payload.
    End(T),
}

impl<T> AnnotDetails<T> {
    /// The single traversal token this atom or marker contributes.
    pub open spec fn tok(self) -> Tok<T> {
        match self {
            AnnotDetails::Start => Tok::Open,
            AnnotDetails::Str(s, w) => Tok::Str(s@, w as int),
            AnnotDetails::Chr(c, w) => Tok::Chr(c, w as int),
            AnnotDetails::End(a) => Tok::Close(a),
        }
    }

    /// Place this atom or marker in front of a continuation document.
    fn text_beside(self, doc: Doc<T>) -> (r: Doc<T>)
        ensures
            r.node() == DocBase::TextBeside(self, doc),
    {
        Doc(Box::new(DocBase::TextBeside(self, doc)))
    }
}

/// How `beside` relates its result to its inputs: if the receiver is
/// already a horizontal group, the pair is appended to its sequence;
/// otherwise the receiver becomes the head of a new horizontal group
/// whose sequence holds just this pair.
pub open spec fn beside_appended<T>(d: Doc<T>, sep: bool, other: Doc<T>, r: Doc<T>) -> bool {
    match d.node() {
        DocBase::Beside(h, v) => {
            &&& r.node() matches DocBase::Beside(h2, v2)
            &&& h2 == h
            &&& v2@ == v@.push((sep, other))
        },
        _ => {
            &&& r.node() matches DocBase::Beside(h2, v2)
            &&& h2 == d
            &&& v2@ == seq![(sep, other)]
        },
    }
}

/// The shape `surround` builds: a horizontal group whose head is the
/// left character and whose sequence holds the surrounded document and
/// then the right character, neither preceded by a separator.
pub open spec fn surrounded<T>(d: Doc<T>, left: char, right: char, r: Doc<T>) -> bool {
    &&& r.node() matches DocBase::Beside(h, v)
    &&& h.is_chr_atom()
    &&& h.atom_char() == left
    &&& h.atom_width() == 1
    &&& v@.len() == 2
    &&& v@[0] == (false, d)
    &&& v@[1].0 == false
    &&& v@[1].1.is_chr_atom()
    &&& v@[1].1.atom_char() == right
    &&& v@[1].1.atom_width() == 1
}

/// The same policy for `above` and vertical groups.
pub open spec fn above_appended<T>(d: Doc<T>, brk: bool, other: Doc<T>, r: Doc<T>) -> bool {
    match d.node() {
        DocBase::Above(h, v) => {
            &&& r.node() matches DocBase::Above(h2, v2)
            &&& h2 == h
            &&& v2@ == v@.push((brk, other))
        },
        _ => {
            &&& r.node() matches DocBase::Above(h2, v2)
            &&& h2 == d
            &&& v2@ == seq![(brk, other)]
        },
    }
}

/// Appending one pair to a group's sequence appends that document's
/// tokens to the sequence's concatenated traversal.
proof fn lemma_items_tokens_push<T>(items: Seq<(bool, Doc<T>)>, p: (bool, Doc<T>))
    ensures
        Doc::items_tokens(items.push(p)) == Doc::items_tokens(items) + p.1.tokens(),
    decreases items.len(),
{
    let w = items.push(p);
    if items.len() == 0 {
        assert(w.subrange(1, w.len() as int) =~= Seq::<(bool, Doc<T>)>::empty());
        assert(Doc::items_tokens(w.subrange(1, w.len() as int)) =~= Seq::<Tok<T>>::empty());
        assert(Doc::items_tokens(w) =~= Doc::items_tokens(items) + p.1.tokens());
    } else {
        let rest = items.subrange(1, items.len() as int);
        lemma_items_tokens_push(rest, p);
        assert(w[0] == items[0]);
        assert(w.subrange(1, w.len() as int) =~= rest.push(p));
        assert(Doc::items_tokens(w) =~= Doc::items_tokens(items) + p.1.tokens());
    }
}

/// A one-pair sequence contributes exactly that document's tokens.
proof fn lemma_items_tokens_singleton<T>(p: (bool, Doc<T>))
    ensures
        Doc::items_tokens(seq![p]) == p.1.tokens(),
{
    let s = seq![p];
    assert(s.subrange(1, 1) =~= Seq::<(bool, Doc<T>)>::empty());
    assert(Doc::items_tokens(s.subrange(1, 1)) =~= Seq::<Tok<T>>::empty());
    assert(Doc::items_tokens(s) =~= p.1.tokens());
}

/// `beside` concatenates traversals: the result's token stream is the
/// receiver's followed by the appended document's.
proof fn lemma_beside_appended_tokens<T>(d: Doc<T>, sep: bool, other: Doc<T>, r: Doc<T>)
    requires
        beside_appended(d, sep, other, r),
    ensures
        r.tokens() == d.tokens() + other.tokens(),
{
    let p = (sep, other);
    match d.node() {
        DocBase::Beside(h, v) => {
            lemma_items_tokens_push(v@, p);
            assert(r.tokens() =~= d.tokens() + other.tokens());
        },
        _ => {
            lemma_items_tokens_singleton(p);
            assert(r.tokens() =~= d.tokens() + other.tokens());
        },
    }
}

/// The same for `above` and vertical groups.
proof fn lemma_above_appended_tokens<T>(d: Doc<T>, brk: bool, other: Doc<T>, r: Doc<T>)
    requires
        above_appended(d, brk, other, r),
    ensures
        r.tokens() == d.tokens() + other.tokens(),
{
    let p = (brk, other);
    match d.node() {
        DocBase::Above(h, v) => {
            lemma_items_tokens_push(v@, p);
            assert(r.tokens() =~= d.tokens() + other.tokens());
        },
        _ => {
            lemma_items_tokens_singleton(p);
            assert(r.tokens() =~= d.tokens() + other.tokens());
        },
    }
}

/// Relies on std's formatting machinery: renders a value through its
/// `Debug` implementation.
#[verifier::external_body]
fn debug_string<S: Debug + ?Sized>(s: &S) -> String {
    format!("{:?}", s)
}

/// An atom or marker with an empty continuation contributes exactly its
/// own token to the traversal.
proof fn lemma_atom_tokens<T>(r: Doc<T>, a: AnnotDetails<T>, rest: Doc<T>)
    requires
        r.node() == DocBase::TextBeside(a, rest),
        rest.node() is Empty,
    ensures
        r.tokens() == seq![a.tok()],
{
    assert(rest.tokens() =~= Seq::<Tok<T>>::empty());
    assert(r.tokens() =~= seq![a.tok()]);
}

impl<T> Doc<T> {
    /// The node at the root of this document.
    pub open spec fn node(self) -> DocBase<T> {
        *self.0
    }

    /// The flat stream of tokens a consumer sees when it walks this
    /// document left to right: atoms with their declared widths, and the
    /// markers bounding annotated spans.  An `Union` node contributes
    /// both of its branches, in order.
    pub open spec fn tokens(self) -> Seq<Tok<T>>
        decreases self,
    {
        match self.node() {
            DocBase::Empty => Seq::empty(),
            DocBase::TextBeside(a, rest) => seq![a.tok()] + rest.tokens(),
            DocBase::Nest(_, inner) => inner.tokens(),
            DocBase::Union(x, y) => x.tokens() + y.tokens(),
            DocBase::NoDoc => Seq::empty(),
            DocBase::Beside(head, items) => head.tokens() + Self::items_tokens(items@),
            DocBase::Above(head, items) => head.tokens() + Self::items_tokens(items@),
        }
    }

    /// The concatenated token streams of a group's sequence items.
    pub open spec fn items_tokens(items: Seq<(bool, Doc<T>)>) -> Seq<Tok<T>>
        decreases items,
    {
        if items.len() == 0 {
            Seq::empty()
        } else {
            items[0].1.tokens() + Self::items_tokens(items.subrange(1, items.len() as int))
        }
    }

    /// A string atom: `Str` content in front of an empty continuation.
    pub open spec fn is_str_atom(self) -> bool {
        &&& self.node() matches DocBase::TextBeside(a, rest)
        &&& a is Str
        &&& rest.node() is Empty
    }

    /// A character atom: `Chr` content in front of an empty continuation.
    pub open spec fn is_chr_atom(self) -> bool {
        &&& self.node() matches DocBase::TextBeside(a, rest)
        &&& a is Chr
        &&& rest.node() is Empty
    }

    /// The stored text of a string atom.
    pub open spec fn atom_text(self) -> Seq<char>
        recommends
            self.is_str_atom(),
    {
        self.node()->TextBeside_0->Str_0@
    }

    /// The stored character of a character atom.
    pub open spec fn atom_char(self) -> char
        recommends
            self.is_chr_atom(),
    {
        self.node()->TextBeside_0->Chr_0
    }

    /// The declared display width of an atom, independent of its
    /// literal length.
    pub open spec fn atom_width(self) -> int
        recommends
            self.is_str_atom() || self.is_chr_atom(),
    {
        match self.node()->TextBeside_0 {
            AnnotDetails::Str(_, w) => w as int,
            AnnotDetails::Chr(_, w) => w as int,
            _ => 0,
        }
    }

    /// A close marker for payload `a`: `End(a)` in front of an empty
    /// continuation.
    pub open spec fn is_close_marker(self, a: T) -> bool {
        &&& self.node() matches DocBase::TextBeside(m, rest)
        &&& m == AnnotDetails::End(a)
        &&& rest.node() is Empty
    }

    /// A document is well formed when its annotation brackets are
    /// balanced and every atom declares a non-negative width.  Every
    /// combinator of this crate preserves well-formedness.
    pub open spec fn wf(self) -> bool {
        balanced(self.tokens()) && widths_ok(self.tokens())
    }

    /// The empty document, neutral for concatenation.
    pub fn empty() -> (r: Self)
        ensures
            r.node() == DocBase::<T>::Empty,
            r.tokens() == Seq::<Tok<T>>::empty(),
            r.wf(),
    {
        let r = Doc(Box::new(DocBase::Empty));
        proof {
            assert(r.tokens() =~= Seq::<Tok<T>>::empty());
        }
        r
    }

    /// A one-character atom; its declared width is always 1.
    pub fn char(c: char) -> (r: Self)
        ensures
            r.is_chr_atom(),
            r.atom_char() == c,
            r.atom_width() == 1,
            r.tokens() == seq![Tok::<T>::Chr(c, 1)],
            r.wf(),
    {
        let e = Self::empty();
        let ghost ge = e;
        let r = AnnotDetails::Chr(c, 1).text_beside(e);
        proof {
            lemma_atom_tokens(r, AnnotDetails::Chr(c, 1), ge);
            lemma_singleton_stream(Tok::<T>::Chr(c, 1), 0);
        }
        r
    }

    /// A string atom whose display width is supplied by the caller,
    /// decoupled from the stored text — for content whose visual width
    /// differs from its stored representation.
    pub fn sized_text(len: i32, s: String) -> (r: Self)
        requires
            0 <= len,
        ensures
            r.is_str_atom(),
            r.atom_text() == s@,
            r.atom_width() == len as int,
            r.tokens() == seq![Tok::<T>::Str(s@, len as int)],
            r.wf(),
    {
        let ghost t = Tok::<T>::Str(s@, len as int);
        let ghost ga = AnnotDetails::<T>::Str(s, len);
        let e = Self::empty();
        let ghost ge = e;
        let r = AnnotDetails::Str(s, len).text_beside(e);
        proof {
            lemma_atom_tokens(r, ga, ge);
            lemma_singleton_stream(t, 0);
        }
        r
    }

    /// A string atom whose declared width is the number of characters in
    /// `s` (character count, not byte count).
    pub fn text(s: String) -> (r: Self)
        requires
            s@.len() <= i32::MAX,
        ensures
            r.is_str_atom(),
            r.atom_text() == s@,
            r.atom_width() == s@.len() as int,
            r.tokens() == seq![Tok::<T>::Str(s@, s@.len() as int)],
            r.wf(),
    {
        let len: usize = s.as_str().unicode_len();
        Self::sized_text(len as i32, s)
    }

    /// A string atom whose declared width is forced to 0, for markers
    /// that must not affect layout decisions.
    pub fn zero_width_text(s: String) -> (r: Self)
        ensures
            r.is_str_atom(),
            r.atom_text() == s@,
            r.atom_width() == 0,
            r.tokens() == seq![Tok::<T>::Str(s@, 0)],
            r.wf(),
    {
        Self::sized_text(0, s)
    }

    /// True exactly for the `Empty` variant; a structural check, not a
    /// width-based one (a zero-width atom is not empty).
    pub fn is_empty(&self) -> (r: bool)
        ensures
            r == (self.node() is Empty),
    {
        match *self.0 {
            DocBase::Empty => true,
            _ => false,
        }
    }

    /// Attach annotation `annotation` to this whole document.  Read left
    /// to right, the result is an open marker, this document's content,
    /// then a close marker carrying the payload; annotation pairs already
    /// inside stay strictly inside the new pair.
    pub fn annotate(self, annotation: T) -> (r: Self)
        ensures
            r.node() matches DocBase::TextBeside(m, body) && m is Start && (exists|e: Doc<T>|
                #[trigger] e.is_close_marker(annotation) && beside_appended(self, false, e, body)),
            r.tokens() == seq![Tok::<T>::Open] + self.tokens() + seq![Tok::<T>::Close(annotation)],
            self.wf() ==> r.wf(),
    {
        let ghost gd = self;
        let ghost ga = annotation;
        let e0 = Self::empty();
        let ghost ge0 = e0;
        let end = AnnotDetails::End(annotation).text_beside(e0);
        let ghost gend = end;
        let body = self.reduce().beside(false, end);
        let r = AnnotDetails::Start.text_beside(body);
        proof {
            lemma_atom_tokens(gend, AnnotDetails::End(ga), ge0);
            assert(gend.is_close_marker(ga));
            assert(r.tokens() =~= seq![Tok::<T>::Open] + gd.tokens() + seq![Tok::<T>::Close(ga)]);
            if gd.wf() {
                lemma_wrap_balanced(gd.tokens(), ga);
                assert(widths_ok(seq![Tok::<T>::Open]));
                assert(widths_ok(seq![Tok::<T>::Close(ga)]));
                lemma_widths_ok_concat(seq![Tok::<T>::Open], gd.tokens());
                lemma_widths_ok_concat(seq![Tok::<T>::Open] + gd.tokens(), seq![Tok::<T>::Close(ga)]);
            }
        }
        r
    }

    /// Normalize a document to its canonical form before annotation
    /// wrapping.  Currently the identity: a seam for a future
    /// normalization pass, which must not change behaviour until one is
    /// specified.
    fn reduce(self) -> (r: Self)
        ensures
            r == self,
    {
        self
    }

    /// Wrap a document in an indentation node carrying the signed delta
    /// `delta`.  Nestings compose by wrapping, not by summing: the
    /// resolver sums the deltas along a path.
    pub fn nest(delta: i32, doc: Self) -> (r: Self)
        ensures
            r.node() == DocBase::Nest(delta, doc),
            r.tokens() == doc.tokens(),
            doc.wf() ==> r.wf(),
    {
        Doc(Box::new(DocBase::Nest(delta, doc)))
    }

    /// An atom holding the textual form of `s` given by its `Debug`
    /// implementation, behaving as `text` on that form.  The declared
    /// width is the form's character count, saturated at the widest
    /// representable width.
    pub fn debug<S: Debug>(s: &S) -> (r: Self)
        ensures
            r.is_str_atom(),
            r.atom_width() == if r.atom_text().len() <= i32::MAX {
                r.atom_text().len() as int
            } else {
                i32::MAX as int
            },
            r.wf(),
    {
        Self::formatted(debug_string(s))
    }

    /// An atom holding the textual form of `s` given by its `Display`
    /// implementation, behaving as `text` on that form.  The declared
    /// width is the form's character count, saturated at the widest
    /// representable width.
    pub fn display<S: Display>(s: &S) -> (r: Self)
        ensures
            r.is_str_atom(),
            r.atom_width() == if r.atom_text().len() <= i32::MAX {
                r.atom_text().len() as int
            } else {
                i32::MAX as int
            },
            r.wf(),
    {
        Self::formatted(s.to_string())
    }

    /// A string atom for formatter output, whose length no caller
    /// controls: the declared width is the character count, saturated at
    /// the widest representable width.
    fn formatted(s: String) -> (r: Self)
        ensures
            r.is_str_atom(),
            r.atom_text() == s@,
            r.atom_width() == if s@.len() <= i32::MAX {
                s@.len() as int
            } else {
                i32::MAX as int
            },
            r.wf(),
    {
        let len: usize = s.as_str().unicode_len();
        if len <= i32::MAX as usize {
            Self::sized_text(len as i32, s)
        } else {
            Self::sized_text(i32::MAX, s)
        }
    }

    /// `left`, then this document, then `right`, concatenated with no
    /// forced separators into one flat horizontal group.
    fn surround(self, left: char, right: char) -> (r: Self)
        ensures
            surrounded(self, left, right, r),
            r.tokens() == seq![Tok::<T>::Chr(left, 1)] + self.tokens() + seq![Tok::<T>::Chr(
                right,
                1,
            )],
            self.wf() ==> r.wf(),
    {
        let ghost gd = self;
        let c1 = Self::char(left);
        let mid = c1.beside(false, self);
        let c2 = Self::char(right);
        let ghost gc2 = c2;
        let r = mid.beside(false, c2);
        proof {
            assert(seq![(false, gd)].push((false, gc2)) =~= seq![(false, gd), (false, gc2)]);
            assert(r.tokens() =~= seq![Tok::<T>::Chr(left, 1)] + gd.tokens() + seq![Tok::<T>::Chr(
                right,
                1,
            )]);
        }
        r
    }

    /// Wrap this document in ASCII parentheses.
    pub fn parens(self) -> (r: Self)
        ensures
            surrounded(self, '(', ')', r),
            self.wf() ==> r.wf(),
    {
        self.surround('(', ')')
    }

    /// Wrap this document in ASCII square brackets.
    pub fn brackets(self) -> (r: Self)
        ensures
            surrounded(self, '[', ']', r),
            self.wf() ==> r.wf(),
    {
        self.surround('[', ']')
    }

    /// Wrap this document in ASCII curly braces.
    pub fn braces(self) -> (r: Self)
        ensures
            surrounded(self, '{', '}', r),
            self.wf() ==> r.wf(),
    {
        self.surround('{', '}')
    }

    /// Wrap this document in ASCII single quotes.
    pub fn quotes(self) -> (r: Self)
        ensures
            surrounded(self, '\'', '\'', r),
            self.wf() ==> r.wf(),
    {
        self.surround('\'', '\'')
    }

    /// Wrap this document in ASCII double quotes.
    pub fn double_quotes(self) -> (r: Self)
        ensures
            surrounded(self, '"', '"', r),
            self.wf() ==> r.wf(),
    {
        self.surround('"', '"')
    }

    /// Wrap this document in typographic single quotes.
    pub fn curly_quotes(self) -> (r: Self)
        ensures
            surrounded(self, '\u{2018}', '\u{2019}', r),
            self.wf() ==> r.wf(),
    {
        self.surround('\u{2018}', '\u{2019}')
    }

    /// Wrap this document in typographic double quotes.
    pub fn curly_double_quotes(self) -> (r: Self)
        ensures
            surrounded(self, '\u{201C}', '\u{201D}', r),
            self.wf() ==> r.wf(),
    {
        self.surround('\u{201C}', '\u{201D}')
    }

    /// Wrap this document in parentheses only when `on` holds; otherwise
    /// return it unchanged.
    pub fn maybe_parens(self, on: bool) -> (r: Self)
        ensures
            on ==> surrounded(self, '(', ')', r),
            !on ==> r == self,
            self.wf() ==> r.wf(),
    {
        if on {
            self.parens()
        } else {
            self
        }
    }

    /// Wrap this document in square brackets only when `on` holds;
    /// otherwise return it unchanged.
    pub fn maybe_brackets(self, on: bool) -> (r: Self)
        ensures
            on ==> surrounded(self, '[', ']', r),
            !on ==> r == self,
            self.wf() ==> r.wf(),
    {
        if on {
            self.brackets()
        } else {
            self
        }
    }

    /// Wrap this document in curly braces only when `on` holds;
    /// otherwise return it unchanged.
    pub fn maybe_braces(self, on: bool) -> (r: Self)
        ensures
            on ==> surrounded(self, '{', '}', r),
            !on ==> r == self,
            self.wf() ==> r.wf(),
    {
        if on {
            self.braces()
        } else {
            self
        }
    }

    /// Wrap this document in single quotes only when `on` holds;
    /// otherwise return it unchanged.
    pub fn maybe_quotes(self, on: bool) -> (r: Self)
        ensures
            on ==> surrounded(self, '\'', '\'', r),
            !on ==> r == self,
            self.wf() ==> r.wf(),
    {
        if on {
            self.quotes()
        } else {
            self
        }
    }

    /// Wrap this document in double quotes only when `on` holds;
    /// otherwise return it unchanged.
    pub fn maybe_double_quotes(self, on: bool) -> (r: Self)
        ensures
            on ==> surrounded(self, '"', '"', r),
            !on ==> r == self,
            self.wf() ==> r.wf(),
    {
        if on {
            self.double_quotes()
        } else {
            self
        }
    }

    /// Wrap this document in typographic single quotes only when `on`
    /// holds; otherwise return it unchanged.
    pub fn maybe_curly_quotes(self, on: bool) -> (r: Self)
        ensures
            on ==> surrounded(self, '\u{2018}', '\u{2019}', r),
            !on ==> r == self,
            self.wf() ==> r.wf(),
    {
        if on {
            self.curly_quotes()
        } else {
            self
        }
    }

    /// Wrap this document in typographic double quotes only when `on`
    /// holds; otherwise return it unchanged.
    pub fn maybe_curly_double_quotes(self, on: bool) -> (r: Self)
        ensures
            on ==> surrounded(self, '\u{201C}', '\u{201D}', r),
            !on ==> r == self,
            self.wf() ==> r.wf(),
    {
        if on {
            self.curly_double_quotes()
        } else {
            self
        }
    }

    /// Place `other` immediately after this document, optionally
    /// separated by a single space at render time.  A receiver that is
    /// already a horizontal group is extended in place, so a chain of
    /// `beside` calls yields one flat group, not a nested tree.
    pub fn beside(self, space: bool, other: Doc<T>) -> (r: Self)
        ensures
            beside_appended(self, space, other, r),
            r.tokens() == self.tokens() + other.tokens(),
            self.wf() && other.wf() ==> r.wf(),
    {
        let ghost gd = self;
        let ghost go = other;
        let Doc(b) = self;
        let r = match *b {
            DocBase::Beside(head, mut rest) => {
                rest.push((space, other));
                Doc(Box::new(DocBase::Beside(head, rest)))
            },
            node => {
                let mut items: Vec<(bool, Doc<T>)> = Vec::new();
                items.push((space, other));
                Doc(Box::new(DocBase::Beside(Doc(Box::new(node)), items)))
            },
        };
        proof {
            lemma_beside_appended_tokens(gd, space, go, r);
            if gd.wf() && go.wf() {
                lemma_balanced_concat(gd.tokens(), go.tokens());
                lemma_widths_ok_concat(gd.tokens(), go.tokens());
            }
        }
        r
    }

    /// Stack `other` below this document, optionally forcing a line
    /// break at render time.  A receiver that is already a vertical
    /// group is extended in place, exactly as with `beside`.
    pub fn above(self, space: bool, other: Doc<T>) -> (r: Self)
        ensures
            above_appended(self, space, other, r),
            r.tokens() == self.tokens() + other.tokens(),
            self.wf() && other.wf() ==> r.wf(),
    {
        let ghost gd = self;
        let ghost go = other;
        let Doc(b) = self;
        let r = match *b {
            DocBase::Above(head, mut rest) => {
                rest.push((space, other));
                Doc(Box::new(DocBase::Above(head, rest)))
            },
            node => {
                let mut items: Vec<(bool, Doc<T>)> = Vec::new();
                items.push((space, other));
                Doc(Box::new(DocBase::Above(Doc(Box::new(node)), items)))
            },
        };
        proof {
            lemma_above_appended_tokens(gd, space, go, r);
            if gd.wf() && go.wf() {
                lemma_balanced_concat(gd.tokens(), go.tokens());
                lemma_widths_ok_concat(gd.tokens(), go.tokens());
            }
        }
        r
    }
}

} // verus!

