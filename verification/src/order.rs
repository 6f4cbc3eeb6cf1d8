//! The order of texts and of number keys, and a sort over both.
use vstd::prelude::*;
use vstd::relations::*;

use crate::text::chars_of;

verus! {

/// A value that is sorted by a key with a total order.
pub trait Ranked: Sized {
    type Key;

    spec fn key(&self) -> Self::Key;

    spec fn order() -> spec_fn(Self::Key, Self::Key) -> bool;

    proof fn order_is_total()
        ensures
            total_ordering(Self::order()),
    ;

    fn le(&self, other: &Self) -> (r: bool)
        ensures
            r == Self::order()(self.key(), other.key()),
    ;
}

/// The keys of a list.
pub open spec fn keys<T: Ranked>(s: Seq<T>) -> Seq<T::Key> {
    s.map_values(|t: T| t.key())
}

/// The keys in ascending order, each as often as it occurs.
pub open spec fn sorted_keys<T: Ranked>(s: Seq<T>) -> Seq<T::Key> {
    keys(s).sort_by(T::order())
}

/// `a` comes before `b` or equals it: at the first place where they differ the
/// smaller code point decides, and a text comes before its own prolongations.
pub open spec fn text_le(a: Seq<char>, b: Seq<char>) -> bool
    decreases a.len(),
{
    if a.len() == 0 {
        true
    } else if b.len() == 0 {
        false
    } else if a[0] != b[0] {
        a[0] < b[0]
    } else {
        text_le(a.drop_first(), b.drop_first())
    }
}

/// The order of texts by code points.
pub open spec fn text_order() -> spec_fn(Seq<char>, Seq<char>) -> bool {
    |a: Seq<char>, b: Seq<char>| text_le(a, b)
}

/// The texts in ascending order, each as often as it occurs.
pub open spec fn sorted_texts(s: Seq<Seq<char>>) -> Seq<Seq<char>> {
    s.sort_by(text_order())
}

proof fn lemma_text_le(a: Seq<char>, b: Seq<char>, c: Seq<char>)
    ensures
        text_le(a, a),
        text_le(a, b) || text_le(b, a),
        text_le(a, b) && text_le(b, a) ==> a == b,
        text_le(a, b) && text_le(b, c) ==> text_le(a, c),
    decreases a.len(),
{
    if a.len() > 0 {
        lemma_text_le(a.drop_first(), b.drop_first(), c.drop_first());
        if b.len() > 0 && a[0] == b[0] && a.drop_first() == b.drop_first() {
            assert(a =~= seq![a[0]] + a.drop_first());
            assert(b =~= seq![b[0]] + b.drop_first());
        }
    } else if b.len() == 0 {
        assert(a =~= b);
    }
}

/// The order of texts is total.
pub proof fn law_text_order_is_total()
    ensures
        total_ordering(text_order()),
{
    let r = text_order();
    assert forall|x: Seq<char>| #[trigger] r(x, x) by {
        lemma_text_le(x, x, x);
    }
    assert forall|x: Seq<char>, y: Seq<char>| #[trigger] r(x, y) && #[trigger] r(y, x) implies x
        == y by {
        lemma_text_le(x, y, x);
    }
    assert forall|x: Seq<char>, y: Seq<char>, z: Seq<char>| #[trigger]
        r(x, y) && #[trigger] r(y, z) implies r(x, z) by {
        lemma_text_le(x, y, z);
    }
    assert forall|x: Seq<char>, y: Seq<char>| #[trigger] r(x, y) || #[trigger] r(y, x) by {
        lemma_text_le(x, y, x);
    }
}

/// What the order of texts means: the first begins the second, or at the first place
/// where they differ it has the smaller character.
pub proof fn law_text_order_is_by_the_first_difference(a: Seq<char>, b: Seq<char>)
    ensures
        text_le(a, b) <==> (a.len() <= b.len() && b.take(a.len() as int) == a) || exists|k: int|
            0 <= k < a.len() && k < b.len() && a.take(k) == b.take(k) && #[trigger] a[k] < b[k],
    decreases a.len(),
{
    if a.len() == 0 {
        assert(b.take(0) =~= a);
    } else if b.len() > 0 && a[0] != b[0] {
        assert(a.take(0) =~= b.take(0));
        if a.len() <= b.len() {
            assert(b.take(a.len() as int)[0] == b[0]);
        }
        if exists|k: int|
            0 <= k < a.len() && k < b.len() && a.take(k) == b.take(k) && #[trigger] a[k] < b[k] {
            let k = choose|k: int|
                0 <= k < a.len() && k < b.len() && a.take(k) == b.take(k) && #[trigger] a[k] < b[k];
            if k > 0 {
                assert(a.take(k)[0] == b.take(k)[0]);
            }
        }
    } else if b.len() > 0 {
        let (x, y) = (a.drop_first(), b.drop_first());
        law_text_order_is_by_the_first_difference(x, y);
        if a.len() <= b.len() && b.take(a.len() as int) == a {
            assert forall|i: int| 0 <= i < x.len() implies y.take(x.len() as int)[i] == x[i] by {
                assert(b.take(a.len() as int)[i + 1] == a[i + 1]);
            }
            assert(y.take(x.len() as int) =~= x);
        }
        if x.len() <= y.len() && y.take(x.len() as int) == x {
            assert forall|i: int| 0 <= i < a.len() implies b.take(a.len() as int)[i] == a[i] by {
                if i > 0 {
                    assert(y.take(x.len() as int)[i - 1] == x[i - 1]);
                }
            }
            assert(b.take(a.len() as int) =~= a);
        }
        if exists|k: int|
            0 <= k < a.len() && k < b.len() && a.take(k) == b.take(k) && #[trigger] a[k] < b[k] {
            let k = choose|k: int|
                0 <= k < a.len() && k < b.len() && a.take(k) == b.take(k) && #[trigger] a[k] < b[k];
            assert(x[k - 1] < y[k - 1]);
            assert forall|i: int| 0 <= i < k - 1 implies #[trigger] x[i] == y[i] by {
                assert(a.take(k)[i + 1] == b.take(k)[i + 1]);
            }
            assert(x.take(k - 1) =~= y.take(k - 1));
        }
        if exists|k: int|
            0 <= k < x.len() && k < y.len() && x.take(k) == y.take(k) && #[trigger] x[k] < y[k] {
            let k = choose|k: int|
                0 <= k < x.len() && k < y.len() && x.take(k) == y.take(k) && #[trigger] x[k] < y[k];
            assert(a[k + 1] < b[k + 1]);
            assert forall|i: int| 0 <= i < k + 1 implies #[trigger] a[i] == b[i] by {
                if i > 0 {
                    assert(x.take(k)[i - 1] == y.take(k)[i - 1]);
                }
            }
            assert(a.take(k + 1) =~= b.take(k + 1));
        }
    }
}

/// Sorting keeps every text as often as it occurs and puts no text behind one that
/// comes after it.
pub proof fn law_sorted_texts(s: Seq<Seq<char>>)
    ensures
        sorted_texts(s).to_multiset() == s.to_multiset(),
        sorted_texts(s).len() == s.len(),
        forall|i: int, j: int|
            0 <= i < j < s.len() ==> text_le(
                #[trigger] sorted_texts(s)[i],
                #[trigger] sorted_texts(s)[j],
            ),
{
    law_text_order_is_total();
    s.lemma_sort_by_ensures(text_order());
    let r = sorted_texts(s);
    r.to_multiset_ensures();
    s.to_multiset_ensures();
    assert forall|i: int, j: int| 0 <= i < j < s.len() implies text_le(
        #[trigger] r[i],
        #[trigger] r[j],
    ) by {
        assert(text_order()(r[i], r[j]));
    }
}

/// Compares two texts by code points.
pub fn text_at_most(a: &str, b: &str) -> (r: bool)
    ensures
        r == text_le(a@, b@),
{
    let va = chars_of(a);
    let vb = chars_of(b);
    let mut i: usize = 0;
    assert(va@.skip(0) =~= va@);
    assert(vb@.skip(0) =~= vb@);
    while i < va.len() && i < vb.len() && va[i] == vb[i]
        invariant
            i <= va@.len(),
            i <= vb@.len(),
            text_le(va@, vb@) == text_le(va@.skip(i as int), vb@.skip(i as int)),
        decreases va@.len() - i,
    {
        assert(va@.skip(i as int).drop_first() =~= va@.skip(i + 1));
        assert(vb@.skip(i as int).drop_first() =~= vb@.skip(i + 1));
        i = i + 1;
    }
    if i >= va.len() {
        true
    } else if i >= vb.len() {
        false
    } else {
        va[i] < vb[i]
    }
}

impl Ranked for String {
    type Key = Seq<char>;

    open spec fn key(&self) -> Seq<char> {
        self@
    }

    open spec fn order() -> spec_fn(Seq<char>, Seq<char>) -> bool {
        text_order()
    }

    proof fn order_is_total() {
        law_text_order_is_total();
    }

    fn le(&self, other: &Self) -> (r: bool) {
        text_at_most(self.as_str(), other.as_str())
    }
}

/// A key of four numbers, the first of which counts most.
pub type NumKey = (i64, i64, i64, usize);

/// The order of number keys.
pub open spec fn num_order() -> spec_fn(NumKey, NumKey) -> bool {
    |a: NumKey, b: NumKey|
        a.0 < b.0 || (a.0 == b.0 && (a.1 < b.1 || (a.1 == b.1 && (a.2 < b.2 || (a.2 == b.2 && a.3
            <= b.3)))))
}

/// Number keys are ordered by their first numbers, at equal ones by the second, and so on.
pub proof fn law_number_keys_are_ordered_from_the_left(a: NumKey, b: NumKey)
    ensures
        a.0 != b.0 ==> (num_order()(a, b) <==> a.0 < b.0),
        a.0 == b.0 && a.1 != b.1 ==> (num_order()(a, b) <==> a.1 < b.1),
        a.0 == b.0 && a.1 == b.1 && a.2 != b.2 ==> (num_order()(a, b) <==> a.2 < b.2),
        a.0 == b.0 && a.1 == b.1 && a.2 == b.2 ==> (num_order()(a, b) <==> a.3 <= b.3),
{
}

impl Ranked for NumKey {
    type Key = NumKey;

    open spec fn key(&self) -> NumKey {
        *self
    }

    open spec fn order() -> spec_fn(NumKey, NumKey) -> bool {
        num_order()
    }

    proof fn order_is_total() {
    }

    fn le(&self, other: &Self) -> (r: bool) {
        self.0 < other.0 || (self.0 == other.0 && (self.1 < other.1 || (self.1 == other.1 && (
        self.2 < other.2 || (self.2 == other.2 && self.3 <= other.3)))))
    }
}

/// Moving the last of `a`, which is no smaller than anything in `b`, to the front
/// of the sorted `rest` keeps all three sorted and the rest above both.
proof fn lemma_move_last<K>(
    a: Seq<K>,
    k: K,
    b: Seq<K>,
    down: Seq<K>,
    leq: spec_fn(K, K) -> bool,
)
    requires
        total_ordering(leq),
        sorted_by(a.push(k), leq),
        sorted_by(b, leq),
        b.len() > 0 ==> leq(b.last(), k),
        sorted_by(down.reverse(), leq),
        above(a.push(k), down, leq),
        above(b, down, leq),
    ensures
        sorted_by(a, leq),
        sorted_by(down.push(k).reverse(), leq),
        above(a, down.push(k), leq),
        above(b, down.push(k), leq),
        a.push(k).to_multiset() == a.to_multiset().insert(k),
        down.push(k).to_multiset() == down.to_multiset().insert(k),
{
    let ak = a.push(k);
    assert forall|i: int, j: int| 0 <= i < j < a.len() implies #[trigger] leq(a[i], a[j]) by {
        assert(leq(ak[i], ak[j]));
    }
    assert forall|i: int, j: int|
        0 <= i < a.len() && 0 <= j < down.push(k).len() implies #[trigger] leq(
        a[i],
        down.push(k)[j],
    ) by {
        assert(leq(ak[i], ak[a.len() as int]));
        if j < down.len() {
            assert(leq(ak[i], down[j]));
        }
    }
    assert forall|i: int, j: int|
        0 <= i < b.len() && 0 <= j < down.push(k).len() implies #[trigger] leq(
        b[i],
        down.push(k)[j],
    ) by {
        if j < down.len() {
            assert(leq(b[i], down[j]));
        } else if i < b.len() - 1 {
            assert(leq(b[i], b[b.len() - 1]));
        }
    }
    let r0 = down.reverse();
    let r1 = down.push(k).reverse();
    assert(r1 =~= seq![k] + r0);
    assert forall|i: int, j: int| 0 <= i < j < r1.len() implies #[trigger] leq(r1[i], r1[j]) by {
        if i == 0 {
            assert(r1[j] == down[down.len() - j]);
            assert(leq(ak[a.len() as int], down[down.len() - j]));
        } else {
            assert(leq(r0[i - 1], r0[j - 1]));
        }
    }
    vstd::seq_lib::to_multiset_build(a, k);
    vstd::seq_lib::to_multiset_build(down, k);
}

/// Nothing in `low` is larger than anything in `high`.
spec fn above<K>(low: Seq<K>, high: Seq<K>, leq: spec_fn(K, K) -> bool) -> bool {
    forall|i: int, j: int|
        0 <= i < low.len() && 0 <= j < high.len() ==> #[trigger] leq(low[i], high[j])
}

/// Merges two sorted lists into one.
fn merge<T: Ranked>(a: Vec<T>, b: Vec<T>) -> (r: Vec<T>)
    requires
        sorted_by(keys(a@), T::order()),
        sorted_by(keys(b@), T::order()),
    ensures
        sorted_by(keys(r@), T::order()),
        keys(r@).to_multiset() == keys(a@).to_multiset().add(keys(b@).to_multiset()),
{
    broadcast use vstd::multiset::group_multiset_axioms;

    let ghost whole = keys(a@).to_multiset().add(keys(b@).to_multiset());
    let ghost leq = T::order();
    let mut a: Vec<T> = a;
    let mut b: Vec<T> = b;
    // The largest elements come first here.
    let mut down: Vec<T> = Vec::new();
    proof {
        broadcast use vstd::seq_lib::group_to_multiset_ensures;

        T::order_is_total();
        assert(keys(down@) =~= Seq::empty());
        assert(keys(a@).to_multiset().add(keys(b@).to_multiset()).add(keys(down@).to_multiset())
            =~= whole);
    }
    while a.len() > 0 || b.len() > 0
        invariant
            leq == T::order(),
            total_ordering(leq),
            sorted_by(keys(a@), leq),
            sorted_by(keys(b@), leq),
            sorted_by(keys(down@).reverse(), leq),
            above(keys(a@), keys(down@), leq),
            above(keys(b@), keys(down@), leq),
            keys(a@).to_multiset().add(keys(b@).to_multiset()).add(keys(down@).to_multiset())
                == whole,
        decreases a@.len() + b@.len(),
    {
        let ghost a0 = keys(a@);
        let ghost b0 = keys(b@);
        let ghost d0 = keys(down@);
        let from_b: bool = a.len() == 0 || (b.len() > 0 && a[a.len() - 1].le(&b[b.len() - 1]));
        let next: Option<T> = if from_b {
            b.pop()
        } else {
            a.pop()
        };
        if let Some(x) = next {
            let ghost k = x.key();
            down.push(x);
            proof {
                assert(keys(down@) =~= d0.push(k));
                if from_b {
                    assert(b0 =~= keys(b@).push(k));
                    lemma_move_last(keys(b@), k, a0, d0, leq);
                } else {
                    assert(a0 =~= keys(a@).push(k));
                    lemma_move_last(keys(a@), k, b0, d0, leq);
                }
                assert(keys(a@).to_multiset().add(keys(b@).to_multiset()).add(
                    keys(down@).to_multiset(),
                ) =~= whole);
            }
        }
    }
    let ghost d1 = keys(down@);
    let mut r: Vec<T> = Vec::new();
    assert(keys(r@) =~= Seq::empty());
    assert(d1.reverse().take(0) =~= Seq::empty());
    assert(d1.take(d1.len() as int) =~= d1);
    while down.len() > 0
        invariant
            down@.len() + r@.len() == d1.len(),
            keys(down@) == d1.take(down@.len() as int),
            keys(r@) == d1.reverse().take(r@.len() as int),
        decreases down@.len(),
    {
        let ghost n = r@.len() as int;
        let ghost m = down@.len() as int;
        let ghost r0 = keys(r@);
        let ghost down0 = keys(down@);
        if let Some(x) = down.pop() {
            let ghost k = x.key();
            r.push(x);
            proof {
                assert(keys(r@) =~= r0.push(k));
                assert(keys(down@) =~= down0.take(m - 1));
                assert(k == down0[m - 1]);
                assert(d1.reverse()[n] == d1[m - 1]);
                assert(d1.reverse().take(n + 1) =~= d1.reverse().take(n).push(k));
                assert(down0.take(m - 1) =~= d1.take(m - 1));
            }
        }
    }
    proof {
        broadcast use vstd::seq_lib::group_to_multiset_ensures;

        assert(d1.reverse().take(r@.len() as int) =~= d1.reverse());
        d1.lemma_reverse_to_multiset();
        assert(keys(a@) =~= Seq::empty());
        assert(keys(b@) =~= Seq::empty());
        assert(d1.to_multiset() =~= whole);
    }
    r
}

/// Sorts a list in ascending order of its keys.
pub fn sort<T: Ranked>(v: Vec<T>) -> (r: Vec<T>)
    ensures
        keys(r@) == sorted_keys(v@),
        r@.len() == v@.len(),
    decreases v@.len(),
{
    let ghost v0 = v@;
    let ghost leq = T::order();
    let mut left: Vec<T> = v;
    proof {
        T::order_is_total();
        keys(v0).lemma_sort_by_ensures(leq);
    }
    let r: Vec<T> = if left.len() <= 1 {
        left
    } else {
        let mid: usize = left.len() / 2;
        let right: Vec<T> = left.split_off(mid);
        let ghost l0 = keys(left@);
        let ghost r0 = keys(right@);
        proof {
            assert(keys(v0) =~= l0 + r0);
            vstd::seq_lib::lemma_multiset_commutative(l0, r0);
            l0.lemma_sort_by_ensures(leq);
            r0.lemma_sort_by_ensures(leq);
        }
        let left: Vec<T> = sort(left);
        let right: Vec<T> = sort(right);
        merge(left, right)
    };
    proof {
        vstd::seq_lib::lemma_sorted_unique(keys(r@), sorted_keys(v0), leq);
        keys(r@).to_multiset_ensures();
        sorted_keys(v0).to_multiset_ensures();
        keys(v0).to_multiset_ensures();
    }
    r
}

} // verus!
