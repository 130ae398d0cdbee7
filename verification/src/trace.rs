//! The left-to-right traversal model of a document.
//!
//! A document denotes, besides its tree shape, the flat stream of tokens a
//! consumer sees when it walks the tree left to right: text atoms with
//! their declared widths, and the open/close markers that bound annotated
//! spans.  Bracket balance and proper nesting of annotations are stated
//! over this stream.

use vstd::prelude::*;

verus! {

/// One element of the flat left-to-right traversal of a document:
/// a displayable atom, or an annotation boundary marker.
pub enum Tok<T> {
    /// Start of an annotated span (untyped marker).
    Open,
    /// A string atom together with its declared display width.
    Str(Seq<char>, int),
    /// A single-character atom together with its declared display width.
    Chr(char, int),
    /// End of an annotated span, carrying the annotation payload.
    Close(T),
}

/// How one token changes the nesting depth of open annotation spans.
pub open spec fn tok_delta<T>(t: Tok<T>) -> int {
    match t {
        Tok::Open => 1,
        Tok::Close(_) => -1,
        _ => 0,
    }
}

/// Nesting depth of open annotation spans after reading `s`, starting
/// from depth `d`.
pub open spec fn depth_after<T>(s: Seq<Tok<T>>, d: int) -> int
    decreases s.len(),
{
    if s.len() == 0 {
        d
    } else {
        depth_after(s.subrange(1, s.len() as int), d + tok_delta(s[0]))
    }
}

/// Reading `s` from depth `d`, no close marker ever arrives without a
/// matching open before it (the depth never goes negative).
pub open spec fn never_below_zero<T>(s: Seq<Tok<T>>, d: int) -> bool
    decreases s.len(),
{
    if s.len() == 0 {
        true
    } else {
        d + tok_delta(s[0]) >= 0 && never_below_zero(
            s.subrange(1, s.len() as int),
            d + tok_delta(s[0]),
        )
    }
}

/// A token stream is balanced when every close marker matches an earlier
/// open marker and every open marker is eventually closed.
pub open spec fn balanced<T>(s: Seq<Tok<T>>) -> bool {
    depth_after(s, 0) == 0 && never_below_zero(s, 0)
}

/// Every atom in the stream declares a non-negative display width.
pub open spec fn widths_ok<T>(s: Seq<Tok<T>>) -> bool {
    forall|i: int|
        0 <= i < s.len() ==> match #[trigger] s[i] {
            Tok::Str(_, w) => w >= 0,
            Tok::Chr(_, w) => w >= 0,
            _ => true,
        }
}

/// A one-token stream changes the depth by that token's delta, and never
/// dips below zero as long as the delta itself is not negative.
pub proof fn lemma_singleton_stream<T>(t: Tok<T>, d: int)
    ensures
        depth_after(seq![t], d) == d + tok_delta(t),
        d + tok_delta(t) >= 0 ==> never_below_zero(seq![t], d),
{
    let s = seq![t];
    assert(s.subrange(1, 1).len() == 0);
    assert(depth_after(s.subrange(1, 1), d + tok_delta(t)) == d + tok_delta(t));
    assert(never_below_zero(s.subrange(1, 1), d + tok_delta(t)));
}

/// Reading a concatenation is reading the first part, then the second
/// from the depth the first part reached.
pub proof fn lemma_depth_after_concat<T>(a: Seq<Tok<T>>, b: Seq<Tok<T>>, d: int)
    ensures
        depth_after(a + b, d) == depth_after(b, depth_after(a, d)),
    decreases a.len(),
{
    if a.len() == 0 {
        assert(a + b =~= b);
    } else {
        let a1 = a.subrange(1, a.len() as int);
        assert((a + b).subrange(1, (a + b).len() as int) =~= a1 + b);
        assert((a + b)[0] == a[0]);
        lemma_depth_after_concat(a1, b, d + tok_delta(a[0]));
    }
}

/// Same decomposition for the never-below-zero check.
pub proof fn lemma_never_below_zero_concat<T>(a: Seq<Tok<T>>, b: Seq<Tok<T>>, d: int)
    ensures
        never_below_zero(a + b, d) <==> (never_below_zero(a, d) && never_below_zero(
            b,
            depth_after(a, d),
        )),
    decreases a.len(),
{
    if a.len() == 0 {
        assert(a + b =~= b);
    } else {
        let a1 = a.subrange(1, a.len() as int);
        assert((a + b).subrange(1, (a + b).len() as int) =~= a1 + b);
        assert((a + b)[0] == a[0]);
        lemma_never_below_zero_concat(a1, b, d + tok_delta(a[0]));
    }
}

/// The final depth depends on the starting depth only by an offset.
pub proof fn lemma_depth_after_shift<T>(s: Seq<Tok<T>>, d: int)
    ensures
        depth_after(s, d) == d + depth_after(s, 0),
    decreases s.len(),
{
    if s.len() == 0 {
    } else {
        let s1 = s.subrange(1, s.len() as int);
        lemma_depth_after_shift(s1, d + tok_delta(s[0]));
        lemma_depth_after_shift(s1, tok_delta(s[0]));
    }
}

/// A stream that never dips below zero from some depth also never dips
/// below zero from any greater depth.
pub proof fn lemma_never_below_zero_monotone<T>(s: Seq<Tok<T>>, d1: int, d2: int)
    requires
        d1 <= d2,
        never_below_zero(s, d1),
    ensures
        never_below_zero(s, d2),
    decreases s.len(),
{
    if s.len() == 0 {
    } else {
        let s1 = s.subrange(1, s.len() as int);
        lemma_never_below_zero_monotone(s1, d1 + tok_delta(s[0]), d2 + tok_delta(s[0]));
    }
}

/// Balance is closed under concatenation.
pub proof fn lemma_balanced_concat<T>(a: Seq<Tok<T>>, b: Seq<Tok<T>>)
    requires
        balanced(a),
        balanced(b),
    ensures
        balanced(a + b),
{
    lemma_depth_after_concat(a, b, 0);
    lemma_never_below_zero_concat(a, b, 0);
}

/// Non-negative widths are closed under concatenation.
pub proof fn lemma_widths_ok_concat<T>(a: Seq<Tok<T>>, b: Seq<Tok<T>>)
    requires
        widths_ok(a),
        widths_ok(b),
    ensures
        widths_ok(a + b),
{
    assert forall|i: int| 0 <= i < (a + b).len() implies match #[trigger] (a + b)[i] {
        Tok::Str(_, w) => w >= 0,
        Tok::Chr(_, w) => w >= 0,
        _ => true,
    } by {
        if i < a.len() {
            assert((a + b)[i] == a[i]);
        } else {
            assert((a + b)[i] == b[i - a.len()]);
        }
    }
}

/// Wrapping a balanced stream in one open/close pair keeps it balanced:
/// the new pair encloses the whole stream, so no bracket can cross it.
pub proof fn lemma_wrap_balanced<T>(s: Seq<Tok<T>>, p: T)
    requires
        balanced(s),
    ensures
        balanced(seq![Tok::Open] + s + seq![Tok::Close(p)]),
{
    let o = seq![Tok::<T>::Open];
    let c = seq![Tok::<T>::Close(p)];
    lemma_singleton_stream(Tok::<T>::Open, 0);
    lemma_depth_after_concat(o, s, 0);
    lemma_depth_after_shift(s, 1);
    assert(depth_after(o + s, 0) == 1);
    lemma_singleton_stream(Tok::<T>::Close(p), 1);
    lemma_depth_after_concat(o + s, c, 0);
    assert(depth_after(o + s + c, 0) == 0);
    lemma_never_below_zero_monotone(s, 0, 1);
    lemma_never_below_zero_concat(o, s, 0);
    lemma_never_below_zero_concat(o + s, c, 0);
}

} // verus!
