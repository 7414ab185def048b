//! What the readers of pages share: predicates as they are handed to a
//! filter, the split of a list by a predicate, and results gathered up to the
//! first failure.

use vstd::prelude::*;

verus! {

/// Whether `predicate` can return `true` for `x`.
pub open spec fn accepts<A, F: Fn(&A) -> bool>(predicate: F, x: A) -> bool {
    call_ensures(predicate, (&x,), true)
}

/// Whether `predicate` may be called on `x` and cannot answer both ways for it.
pub open spec fn decides<A, F: Fn(&A) -> bool>(predicate: F, x: A) -> bool {
    &&& call_requires(predicate, (&x,))
    &&& !(call_ensures(predicate, (&x,), true) && call_ensures(predicate, (&x,), false))
}

/// Splits `xs` by `predicate`: references to the elements it accepts, then
/// references to those it rejects, each in the order of `xs`. The predicate
/// must decide each element: its answer is a function of the element.
pub fn partition<'a, A, F: Fn(&A) -> bool>(predicate: F, xs: &'a [A]) -> (parts: (
    Vec<&'a A>,
    Vec<&'a A>,
))
    requires
        forall|i: int| 0 <= i < xs@.len() ==> decides(predicate, #[trigger] xs@[i]),
    ensures
        parts.0@.map_values(|r: &A| *r) == xs@.filter(|x: A| accepts(predicate, x)),
        parts.1@.map_values(|r: &A| *r) == xs@.filter(|x: A| !accepts(predicate, x)),
        forall|i: int|
            0 <= i < xs@.len() ==> call_ensures(
                predicate,
                (&#[trigger] xs@[i],),
                accepts(predicate, xs@[i]),
            ),
{
    let mut yes: Vec<&'a A> = Vec::new();
    let mut no: Vec<&'a A> = Vec::new();
    let mut i: usize = 0;
    let ghost pos = |x: A| accepts(predicate, x);
    let ghost neg = |x: A| !accepts(predicate, x);
    proof {
        reveal(Seq::filter);
        assert(xs@.take(0).filter(pos) =~= Seq::empty());
        assert(xs@.take(0).filter(neg) =~= Seq::empty());
    }
    while i < xs.len()
        invariant
            i <= xs@.len(),
            pos == |x: A| accepts(predicate, x),
            neg == |x: A| !accepts(predicate, x),
            forall|i: int| 0 <= i < xs@.len() ==> decides(predicate, #[trigger] xs@[i]),
            yes@.map_values(|r: &A| *r) =~= xs@.take(i as int).filter(pos),
            no@.map_values(|r: &A| *r) =~= xs@.take(i as int).filter(neg),
            forall|k: int|
                0 <= k < i ==> call_ensures(
                    predicate,
                    (&#[trigger] xs@[k],),
                    accepts(predicate, xs@[k]),
                ),
        decreases xs@.len() - i,
    {
        let x = &xs[i];
        assert(decides(predicate, xs@[i as int]));
        let keep = predicate(x);
        proof {
            reveal(Seq::filter);
            assert(xs@.take(i as int + 1).drop_last() =~= xs@.take(i as int));
        }
        if keep {
            yes.push(x);
        } else {
            no.push(x);
        }
        i += 1;
    }
    proof {
        assert(xs@.take(i as int) =~= xs@);
    }
    (yes, no)
}

/// Two predicates that agree on every element of a sequence filter it alike.
pub proof fn lemma_filter_agree<A>(s: Seq<A>, p: spec_fn(A) -> bool, q: spec_fn(A) -> bool)
    requires
        forall|i: int| 0 <= i < s.len() ==> p(#[trigger] s[i]) == q(s[i]),
    ensures
        s.filter(p) == s.filter(q),
    decreases s.len(),
{
    reveal(Seq::filter);
    if s.len() > 0 {
        assert(p(s.last()) == q(s[s.len() - 1]));
        assert forall|i: int| 0 <= i < s.drop_last().len() implies p(#[trigger] s.drop_last()[i])
            == q(s.drop_last()[i]) by {
            assert(p(s[i]) == q(s[i]));
        }
        lemma_filter_agree(s.drop_last(), p, q);
    }
}

/// The results of `f` on the elements of `s`, in order, up to the first
/// failure, which is the result if there is one.
pub open spec fn try_map<A, B, E>(s: Seq<A>, f: spec_fn(A) -> Result<B, E>) -> Result<Seq<B>, E>
    decreases s.len(),
{
    if s.len() == 0 {
        Ok(Seq::empty())
    } else {
        match try_map(s.drop_last(), f) {
            Err(e) => Err(e),
            Ok(done) => match f(s.last()) {
                Err(e) => Err(e),
                Ok(b) => Ok(done.push(b)),
            },
        }
    }
}

/// A prefix that fails makes the whole fail in the same way.
pub proof fn lemma_try_map_prefix_fails<A, B, E>(s: Seq<A>, f: spec_fn(A) -> Result<B, E>, n: int)
    requires
        0 <= n <= s.len(),
        try_map(s.take(n), f) is Err,
    ensures
        try_map(s, f) == try_map(s.take(n), f),
    decreases s.len() - n,
{
    if n < s.len() {
        assert(s.take(n + 1).drop_last() =~= s.take(n));
        lemma_try_map_prefix_fails(s, f, n + 1);
    } else {
        assert(s.take(n) =~= s);
    }
}

/// One element that fails makes the whole fail.
pub proof fn lemma_try_map_fails<A, B, E>(s: Seq<A>, f: spec_fn(A) -> Result<B, E>, at: int)
    requires
        0 <= at < s.len(),
        f(s[at]) is Err,
    ensures
        try_map(s, f) is Err,
    decreases s.len(),
{
    if at < s.len() - 1 {
        assert(s.drop_last()[at] == s[at]);
        lemma_try_map_fails(s.drop_last(), f, at);
    }
}

} // verus!
