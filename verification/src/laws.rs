//! The structural laws the combinator contracts guarantee, stated and
//! proved once, for every document.
//!
//! Each lemma's hypotheses are exactly what the combinators named in its
//! doc comment state in their `ensures`, so a caller can instantiate it
//! directly with the results of those calls.

use vstd::prelude::*;

use crate::doc::above_appended;
use crate::doc::beside_appended;
use crate::doc::Doc;
use crate::trace::balanced;
use crate::trace::lemma_balanced_concat;
use crate::trace::lemma_wrap_balanced;
use crate::trace::Tok;

verus! {

/// Flattening: a chain of `beside` calls against one receiver that is
/// not already a horizontal group yields a single flat group whose head
/// is that receiver and whose sequence holds exactly the appended pairs
/// in order — never a nested pair of groups.
pub proof fn lemma_beside_chain_flattens<T>(
    a: Doc<T>,
    s1: bool,
    b: Doc<T>,
    s2: bool,
    c: Doc<T>,
    ab: Doc<T>,
    abc: Doc<T>,
)
    requires
        !(a.node() is Beside),
        beside_appended(a, s1, b, ab),
        beside_appended(ab, s2, c, abc),
    ensures
        abc.node() is Beside,
        abc.node()->Beside_0 == a,
        abc.node()->Beside_1@ == seq![(s1, b), (s2, c)],
{
    assert(abc.node()->Beside_1@ =~= seq![(s1, b), (s2, c)]);
}

/// The same flattening for chains of `above` calls and vertical groups.
pub proof fn lemma_above_chain_flattens<T>(
    a: Doc<T>,
    s1: bool,
    b: Doc<T>,
    s2: bool,
    c: Doc<T>,
    ab: Doc<T>,
    abc: Doc<T>,
)
    requires
        !(a.node() is Above),
        above_appended(a, s1, b, ab),
        above_appended(ab, s2, c, abc),
    ensures
        abc.node() is Above,
        abc.node()->Above_0 == a,
        abc.node()->Above_1@ == seq![(s1, b), (s2, c)],
{
    assert(abc.node()->Above_1@ =~= seq![(s1, b), (s2, c)]);
}

/// Identity: concatenating with the empty document on either side
/// preserves a document's traversal — its sequence semantics — though
/// the resulting trees need not be identical to it.
pub proof fn lemma_beside_empty_identity<T>(d: Doc<T>, e: Doc<T>, l: Doc<T>, r: Doc<T>)
    requires
        e.node() is Empty,
        l.tokens() == e.tokens() + d.tokens(),
        r.tokens() == d.tokens() + e.tokens(),
    ensures
        l.tokens() == d.tokens(),
        r.tokens() == d.tokens(),
{
    assert(e.tokens() =~= Seq::<Tok<T>>::empty());
    assert(l.tokens() =~= d.tokens());
    assert(r.tokens() =~= d.tokens());
}

/// Annotation bracket balance: wrapping a document whose brackets are
/// balanced puts exactly one new open marker before, and one close
/// marker carrying the payload after, all of the document's own
/// content, and the whole stream is balanced again.  The token stream
/// hypothesis is exactly what `annotate` ensures.
pub proof fn lemma_annotate_balanced<T>(d: Doc<T>, p: T, r: Doc<T>)
    requires
        balanced(d.tokens()),
        r.tokens() == seq![Tok::<T>::Open] + d.tokens() + seq![Tok::<T>::Close(p)],
    ensures
        balanced(r.tokens()),
        r.tokens().len() == d.tokens().len() + 2,
        r.tokens()[0] == Tok::<T>::Open,
        r.tokens()[r.tokens().len() - 1] == Tok::<T>::Close(p),
        r.tokens().subrange(1, r.tokens().len() - 1) == d.tokens(),
{
    lemma_wrap_balanced(d.tokens(), p);
    assert(r.tokens().subrange(1, r.tokens().len() - 1) =~= d.tokens());
}

/// Nested annotations stay well nested: annotate `x`, put `y` beside
/// the result, annotate the whole — the inner pair's markers then lie
/// strictly between the outer pair's, with no interleaving, and the
/// whole stream is balanced.  The three stream hypotheses are exactly
/// what `annotate` and `beside` ensure for those calls.
pub proof fn lemma_nested_annotations<T>(
    x: Doc<T>,
    p1: T,
    inner: Doc<T>,
    y: Doc<T>,
    mid: Doc<T>,
    p2: T,
    outer: Doc<T>,
)
    requires
        balanced(x.tokens()),
        balanced(y.tokens()),
        inner.tokens() == seq![Tok::<T>::Open] + x.tokens() + seq![Tok::<T>::Close(p1)],
        mid.tokens() == inner.tokens() + y.tokens(),
        outer.tokens() == seq![Tok::<T>::Open] + mid.tokens() + seq![Tok::<T>::Close(p2)],
    ensures
        balanced(outer.tokens()),
        outer.tokens()[0] == Tok::<T>::Open,
        outer.tokens()[outer.tokens().len() - 1] == Tok::<T>::Close(p2),
        outer.tokens().subrange(1, 1 + inner.tokens().len() as int) == inner.tokens(),
{
    lemma_wrap_balanced(x.tokens(), p1);
    lemma_balanced_concat(inner.tokens(), y.tokens());
    lemma_wrap_balanced(mid.tokens(), p2);
    assert(outer.tokens().subrange(1, 1 + inner.tokens().len() as int) =~= inner.tokens());
}

} // verus!
