//! Lists: facts about filtering, and turning one round.
use vstd::prelude::*;

verus! {

/// One more element: the filtered list grows by it where it passes.
pub proof fn lemma_filter_step<A>(s: Seq<A>, p: spec_fn(A) -> bool, i: int)
    requires
        0 <= i < s.len(),
    ensures
        s.take(i + 1).filter(p) == (if p(s[i]) {
            s.take(i).filter(p).push(s[i])
        } else {
            s.take(i).filter(p)
        }),
{
    reveal(Seq::filter);
    assert(s.take(i + 1).drop_last() =~= s.take(i));
}

/// Nothing passes out of an empty list.
pub proof fn lemma_filter_none<A>(s: Seq<A>, p: spec_fn(A) -> bool)
    ensures
        s.take(0).filter(p) == Seq::<A>::empty(),
{
    reveal(Seq::filter);
    assert(s.take(0) =~= Seq::empty());
}

/// What a filtered list holds.
pub proof fn lemma_filter_holds<A>(s: Seq<A>, p: spec_fn(A) -> bool)
    ensures
        forall|x: A| #[trigger] s.filter(p).contains(x) <==> s.contains(x) && p(x),
        s.filter(p).len() <= s.len(),
    decreases s.len(),
{
    reveal(Seq::filter);
    if s.len() > 0 {
        let rest = s.drop_last();
        lemma_filter_holds(rest, p);
        let f = s.filter(p);
        assert forall|x: A| #[trigger] f.contains(x) <==> s.contains(x) && p(x) by {
            let g = rest.filter(p);
            if f.contains(x) {
                let j = choose|j: int| 0 <= j < f.len() && f[j] == x;
                if j < g.len() {
                    assert(g[j] == x);
                    assert(g.contains(x));
                    let k = choose|k: int| 0 <= k < rest.len() && rest[k] == x;
                    assert(s[k] == x);
                } else {
                    assert(s[s.len() - 1] == x);
                }
            }
            if s.contains(x) && p(x) {
                let k = choose|k: int| 0 <= k < s.len() && s[k] == x;
                if k < rest.len() {
                    assert(rest[k] == x);
                    assert(g.contains(x));
                    let j = choose|j: int| 0 <= j < g.len() && g[j] == x;
                    assert(f[j] == x);
                } else {
                    assert(f[f.len() - 1] == x);
                }
            }
        }
    }
}

/// The list in the opposite order. What is popped off the result comes in the order
/// of the list.
pub fn reversed<T>(v: Vec<T>) -> (r: Vec<T>)
    ensures
        r@ == v@.reverse(),
{
    let ghost all = v@;
    let mut rest: Vec<T> = v;
    let mut r: Vec<T> = Vec::new();
    assert(all.take(all.len() as int) =~= all);
    while rest.len() > 0
        invariant
            rest@.len() + r@.len() == all.len(),
            rest@ =~= all.take(rest@.len() as int),
            r@ =~= all.reverse().take(r@.len() as int),
        decreases rest@.len(),
    {
        if let Some(x) = rest.pop() {
            r.push(x);
        }
    }
    assert(r@ =~= all.reverse());
    r
}

} // verus!
