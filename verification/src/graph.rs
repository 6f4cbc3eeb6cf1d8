//! Searches over the undirected graph that a list of id pairs spans: shortest
//! path, bounded enumeration of the simple paths, connected components.
use vstd::prelude::*;

use std::collections::{HashMap, HashSet, VecDeque};

verus! {

broadcast use vstd::std_specs::hash::group_hash_axioms;

/// `a` and `b` are the two ends of a listed pair, in either direction.
pub open spec fn adjacent(pairs: Seq<(i64, i64)>, a: i64, b: i64) -> bool {
    pairs.contains((a, b)) || pairs.contains((b, a))
}

/// `p` is not empty and each of its steps runs between adjacent ids.
pub open spec fn is_walk(pairs: Seq<(i64, i64)>, p: Seq<i64>) -> bool {
    &&& p.len() > 0
    &&& forall|i: int| 0 <= i < p.len() - 1 ==> adjacent(pairs, #[trigger] p[i], p[i + 1])
}

/// `p` is a walk that starts at `a` and ends at `b`.
pub open spec fn walk_between(pairs: Seq<(i64, i64)>, a: i64, b: i64, p: Seq<i64>) -> bool {
    is_walk(pairs, p) && p.first() == a && p.last() == b
}

/// `p` is a walk from `a` to `b`, and none is shorter.
pub open spec fn is_shortest_path(pairs: Seq<(i64, i64)>, a: i64, b: i64, p: Seq<i64>) -> bool {
    &&& walk_between(pairs, a, b, p)
    &&& forall|q: Seq<i64>| #[trigger] walk_between(pairs, a, b, q) ==> p.len() <= q.len()
}

/// The ends that lie opposite to `n`: one for each pair, in order, and two for a
/// pair from `n` to itself.
pub open spec fn ends(pairs: Seq<(i64, i64)>, n: i64) -> Seq<i64>
    decreases pairs.len(),
{
    if pairs.len() == 0 {
        Seq::empty()
    } else {
        let (a, b) = pairs.last();
        let before = ends(pairs.drop_last(), n);
        let out = if a == n { before.push(b) } else { before };
        if b == n { out.push(a) } else { out }
    }
}

/// The list with the id behind it, unless it is in it.
pub open spec fn with_id(list: Seq<i64>, id: i64) -> Seq<i64> {
    if list.contains(id) {
        list
    } else {
        list.push(id)
    }
}

/// The neighbours of `n`: the adjacent ids, each once, in the order in which the
/// pairs first bring them.
pub open spec fn neighbors(pairs: Seq<(i64, i64)>, n: i64) -> Seq<i64>
    decreases pairs.len(),
{
    if pairs.len() == 0 {
        Seq::empty()
    } else {
        let (a, b) = pairs.last();
        let before = neighbors(pairs.drop_last(), n);
        let out = if a == n {
            with_id(before, b)
        } else {
            before
        };
        if b == n {
            with_id(out, a)
        } else {
            out
        }
    }
}

/// The neighbours of `n` that the enumeration follows: its first `cap` ones.
pub open spec fn capped(pairs: Seq<(i64, i64)>, cap: nat, n: i64) -> Seq<i64> {
    first_of(neighbors(pairs, n), cap)
}

/// The neighbours are the adjacent ids, each once.
pub proof fn lemma_neighbors(pairs: Seq<(i64, i64)>, n: i64)
    ensures
        forall|m: i64| #[trigger] neighbors(pairs, n).contains(m) <==> adjacent(pairs, n, m),
        neighbors(pairs, n).no_duplicates(),
    decreases pairs.len(),
{
    if pairs.len() > 0 {
        let rest = pairs.drop_last();
        let (a, b) = pairs.last();
        lemma_neighbors(rest, n);
        let before = neighbors(rest, n);
        let out = if a == n {
            with_id(before, b)
        } else {
            before
        };
        lemma_with_id(before, b);
        lemma_with_id(out, a);
        assert(pairs =~= rest.push((a, b)));
        broadcast use vstd::seq_lib::lemma_seq_contains_after_push;

        assert forall|m: i64| #[trigger] neighbors(pairs, n).contains(m) <==> adjacent(
            pairs,
            n,
            m,
        ) by {
            assert(before.contains(m) <==> adjacent(rest, n, m));
            assert(pairs.contains((n, m)) <==> rest.contains((n, m)) || (a, b) == (n, m));
            assert(pairs.contains((m, n)) <==> rest.contains((m, n)) || (a, b) == (m, n));
        }
    }
}

/// What a list holds once an id is in it.
proof fn lemma_with_id(list: Seq<i64>, id: i64)
    requires
        list.no_duplicates(),
    ensures
        with_id(list, id).no_duplicates(),
        forall|m: i64| #[trigger]
            with_id(list, id).contains(m) <==> list.contains(m) || m == id,
{
    broadcast use vstd::seq_lib::lemma_seq_contains_after_push;

    if !list.contains(id) {
        let more = list.push(id);
        assert forall|i: int, j: int| 0 <= i < more.len() && 0 <= j < more.len() && i
            != j implies more[i] != more[j] by {
            if i == list.len() {
                assert(list[j] != id) by {
                    if list[j] == id {
                        assert(list.contains(id));
                    }
                }
            } else if j == list.len() {
                assert(list[i] != id) by {
                    if list[i] == id {
                        assert(list.contains(id));
                    }
                }
            }
        }
    }
}

/// Adding to the first `cap` ids only while there is room gives the first `cap`
/// ids of the longer list.
proof fn lemma_with_id_capped(list: Seq<i64>, id: i64, cap: nat)
    ensures
        first_of(with_id(list, id), cap) == (if first_of(list, cap).len() < cap && !first_of(
            list,
            cap,
        ).contains(id) {
            first_of(list, cap).push(id)
        } else {
            first_of(list, cap)
        }),
{
    if list.len() >= cap {
        assert(first_of(with_id(list, id), cap) =~= first_of(list, cap));
    }
}

/// Whether the id is in the list.
fn listed(list: &Vec<i64>, id: i64) -> (r: bool)
    ensures
        r == list@.contains(id),
{
    let mut i: usize = 0;
    while i < list.len()
        invariant
            i <= list@.len(),
            forall|k: int| 0 <= k < i ==> list@[k] != id,
        decreases list@.len() - i,
    {
        if list[i] == id {
            return true;
        }
        i = i + 1;
    }
    false
}

/// All ids that occur in a pair.
pub open spec fn endpoints(pairs: Seq<(i64, i64)>) -> Set<i64> {
    pairs.map_values(|p: (i64, i64)| p.0).to_set() + pairs.map_values(|p: (i64, i64)| p.1).to_set()
}

/// The opposite ends are the adjacent ids.
pub proof fn lemma_ends(pairs: Seq<(i64, i64)>, n: i64, m: i64)
    ensures
        ends(pairs, n).contains(m) <==> adjacent(pairs, n, m),
    decreases pairs.len(),
{
    if pairs.len() > 0 {
        let rest = pairs.drop_last();
        let (a, b) = pairs.last();
        lemma_ends(rest, n, m);
        assert(pairs =~= rest.push((a, b)));
        broadcast use vstd::seq_lib::lemma_seq_contains_after_push;
        assert(pairs.contains((n, m)) <==> rest.contains((n, m)) || (a, b) == (n, m));
        assert(pairs.contains((m, n)) <==> rest.contains((m, n)) || (a, b) == (m, n));
    }
}

proof fn lemma_endpoints(pairs: Seq<(i64, i64)>, a: i64, b: i64)
    requires
        adjacent(pairs, a, b),
    ensures
        endpoints(pairs).contains(a),
        endpoints(pairs).contains(b),
{
    let firsts = pairs.map_values(|p: (i64, i64)| p.0);
    let seconds = pairs.map_values(|p: (i64, i64)| p.1);
    if pairs.contains((a, b)) {
        let i = choose|i: int| 0 <= i < pairs.len() && pairs[i] == (a, b);
        assert(firsts[i] == a && seconds[i] == b);
    } else {
        let i = choose|i: int| 0 <= i < pairs.len() && pairs[i] == (b, a);
        assert(firsts[i] == b && seconds[i] == a);
    }
}

proof fn lemma_endpoints_finite(pairs: Seq<(i64, i64)>)
    ensures
        endpoints(pairs).finite(),
{
    broadcast use vstd::seq_lib::seq_to_set_is_finite;
}

/// An adjacency table: for each id the list of ids that it leads to.
pub struct Adjacency {
    table: HashMap<i64, Vec<i64>>,
}

impl Adjacency {
    /// The ids that the table holds for `n`, in order.
    pub closed spec fn list(&self, n: i64) -> Seq<i64> {
        if self.table@.contains_key(n) {
            self.table@[n]@
        } else {
            Seq::empty()
        }
    }

    /// The lists of the table.
    pub open spec fn lists(&self) -> spec_fn(i64) -> Seq<i64> {
        |n: i64| self.list(n)
    }

    /// The table holds exactly the opposite ends of `pairs`.
    pub open spec fn of_pairs(&self, pairs: Seq<(i64, i64)>) -> bool {
        forall|n: i64| #[trigger] self.list(n) == ends(pairs, n)
    }

    /// A table without lists.
    pub fn new() -> (adj: Adjacency)
        ensures
            forall|n: i64| #[trigger] adj.list(n) == Seq::<i64>::empty(),
    {
        Adjacency { table: HashMap::new() }
    }

    /// Replaces the list of `n`.
    pub fn put(&mut self, n: i64, list: Vec<i64>)
        ensures
            forall|k: i64| #[trigger]
                final(self).list(k) == (if k == n {
                    list@
                } else {
                    old(self).list(k)
                }),
    {
        self.table.insert(n, list);
    }

    fn add_neighbor(&mut self, n: i64, m: i64)
        ensures
            forall|k: i64| #[trigger]
                final(self).list(k) == (if k == n {
                    old(self).list(k).push(m)
                } else {
                    old(self).list(k)
                }),
    {
        let mut list: Vec<i64> = match self.table.remove(&n) {
            Some(list) => list,
            None => Vec::new(),
        };
        list.push(m);
        self.table.insert(n, list);
        assert(self.list(n) =~= old(self).list(n).push(m));
    }

    /// Lists `m` under `n`, unless it is listed there or the list is full.
    fn add_distinct(&mut self, n: i64, m: i64, cap: usize)
        ensures
            forall|k: i64| #[trigger]
                final(self).list(k) == (if k == n && old(self).list(n).len() < cap && !old(
                    self,
                ).list(n).contains(m) {
                    old(self).list(k).push(m)
                } else {
                    old(self).list(k)
                }),
    {
        let mut list: Vec<i64> = match self.table.remove(&n) {
            Some(list) => list,
            None => Vec::new(),
        };
        assert(list@ == old(self).list(n));
        if list.len() < cap && !listed(&list, m) {
            list.push(m);
        }
        self.table.insert(n, list);
    }

    /// Builds the table of the first `cap` neighbours of each id.
    pub fn build_distinct(pairs: &Vec<(i64, i64)>, cap: usize) -> (adj: Adjacency)
        ensures
            forall|n: i64| #[trigger] adj.list(n) == capped(pairs@, cap as nat, n),
    {
        let mut adj = Adjacency::new();
        let mut i: usize = 0;
        proof {
            assert(pairs@.take(0) =~= Seq::empty());
            assert forall|n: i64| #[trigger] adj.list(n) == capped(
                pairs@.take(0),
                cap as nat,
                n,
            ) by {}
        }
        while i < pairs.len()
            invariant
                i <= pairs.len(),
                forall|n: i64| #[trigger]
                    adj.list(n) == capped(pairs@.take(i as int), cap as nat, n),
            decreases pairs.len() - i,
        {
            let (a, b) = pairs[i];
            let ghost before = adj;
            adj.add_distinct(a, b, cap);
            adj.add_distinct(b, a, cap);
            proof {
                let done = pairs@.take(i as int);
                let next = pairs@.take(i + 1);
                assert(next.drop_last() =~= done);
                assert forall|n: i64| #[trigger] adj.list(n) == capped(next, cap as nat, n) by {
                    let l0 = neighbors(done, n);
                    assert(before.list(n) == first_of(l0, cap as nat));
                    let l1 = if a == n {
                        with_id(l0, b)
                    } else {
                        l0
                    };
                    lemma_with_id_capped(l0, b, cap as nat);
                    lemma_with_id_capped(l1, a, cap as nat);
                }
            }
            i = i + 1;
        }
        assert(pairs@.take(i as int) =~= pairs@);
        adj
    }

    /// Builds the table: every pair lists each of its ends under the other.
    pub fn build(pairs: &Vec<(i64, i64)>) -> (adj: Adjacency)
        ensures
            adj.of_pairs(pairs@),
    {
        let mut adj = Adjacency::new();
        let mut i: usize = 0;
        assert(pairs@.take(0) =~= Seq::empty());
        assert(adj.of_pairs(pairs@.take(0))) by {
            assert forall|n: i64| #[trigger] adj.list(n) == ends(pairs@.take(0), n) by {}
        }
        while i < pairs.len()
            invariant
                i <= pairs.len(),
                adj.of_pairs(pairs@.take(i as int)),
            decreases pairs.len() - i,
        {
            let (a, b) = pairs[i];
            let ghost before = adj;
            adj.add_neighbor(a, b);
            adj.add_neighbor(b, a);
            proof {
                let next = pairs@.take(i + 1);
                assert(next.drop_last() =~= pairs@.take(i as int));
                assert forall|n: i64| #[trigger] adj.list(n) == ends(next, n) by {
                    assert(before.list(n) == ends(pairs@.take(i as int), n));
                }
            }
            i = i + 1;
        }
        assert(pairs@.take(i as int) =~= pairs@);
        adj
    }

    /// The list of `n`, or `None` where the table has none for it.
    pub fn get(&self, n: i64) -> (list: Option<&Vec<i64>>)
        ensures
            match list {
                Some(l) => l@ == self.list(n),
                None => self.list(n).len() == 0,
            },
    {
        self.table.get(&n)
    }
}

/// A breadth-first tree rooted at `from`: `pred` leads every reached id one step
/// towards the root, `dist` counts the steps.
spec fn bfs_tree(
    pairs: Seq<(i64, i64)>,
    from: i64,
    pred: Map<i64, i64>,
    dist: Map<i64, nat>,
) -> bool {
    &&& pred.dom() == dist.dom()
    &&& dist.contains_key(from)
    &&& dist[from] == 0
    &&& forall|v: i64| #[trigger]
        dist.contains_key(v) && v != from ==> {
            &&& dist.contains_key(pred[v])
            &&& adjacent(pairs, pred[v], v)
            &&& dist[v] == dist[pred[v]] + 1
        }
}

/// Every reached id outside `open` has all its neighbours reached, at most one
/// step further from the root.
spec fn expanded(pairs: Seq<(i64, i64)>, dist: Map<i64, nat>, open: Set<i64>) -> bool {
    forall|v: i64, w: i64|
        dist.contains_key(v) && !open.contains(v) && #[trigger] adjacent(pairs, v, w)
            ==> dist.contains_key(w) && dist[w] <= dist[v] + 1
}

/// A walk from the root that is no longer than the nearest id still open ends
/// at a reached id.
proof fn lemma_levels(
    pairs: Seq<(i64, i64)>,
    from: i64,
    dist: Map<i64, nat>,
    open: Set<i64>,
    d: nat,
    q: Seq<i64>,
)
    requires
        dist.contains_key(from),
        dist[from] == 0,
        expanded(pairs, dist, open),
        forall|v: i64| #[trigger] open.contains(v) && dist.contains_key(v) ==> dist[v] >= d,
        is_walk(pairs, q),
        q.first() == from,
        q.len() - 1 <= d,
    ensures
        dist.contains_key(q.last()),
        dist[q.last()] <= q.len() - 1,
    decreases q.len(),
{
    if q.len() > 1 {
        let r = q.drop_last();
        assert(is_walk(pairs, r)) by {
            assert forall|i: int| 0 <= i < r.len() - 1 implies adjacent(
                pairs,
                #[trigger] r[i],
                r[i + 1],
            ) by {
                assert(adjacent(pairs, q[i], q[i + 1]));
            }
        }
        lemma_levels(pairs, from, dist, open, d, r);
        let k = q.len() - 2;
        assert(q[k] == r.last());
        assert(adjacent(pairs, q[k], q[k + 1]));
    }
}

/// Follows the predecessors from `to` back to the root and returns the way there.
fn trace_back(
    pred: &HashMap<i64, i64>,
    from: i64,
    to: i64,
    Ghost(pairs): Ghost<Seq<(i64, i64)>>,
    Ghost(dist): Ghost<Map<i64, nat>>,
) -> (path: Vec<i64>)
    requires
        bfs_tree(pairs, from, pred@, dist),
        dist.contains_key(to),
    ensures
        walk_between(pairs, from, to, path@),
        path@.len() == dist[to] + 1,
{
    let mut back: Vec<i64> = Vec::new();
    let mut cur: i64 = to;
    back.push(cur);
    while cur != from
        invariant
            bfs_tree(pairs, from, pred@, dist),
            dist.contains_key(cur),
            back@.len() > 0,
            back@[0] == to,
            back@.last() == cur,
            back@.len() + dist[cur] == dist[to] + 1,
            forall|i: int|
                0 <= i < back@.len() - 1 ==> adjacent(pairs, back@[i + 1], #[trigger] back@[i]),
        decreases dist[cur],
    {
        let ghost last = back@.len() - 1;
        assert(pred@.contains_key(cur));
        match pred.get(&cur) {
            Some(p) => {
                cur = *p;
                back.push(cur);
            },
            None => {
                assert(false);
            },
        }
        assert(adjacent(pairs, back@[last + 1], back@[last]));
    }
    assert(dist[from] == 0);
    let mut path: Vec<i64> = Vec::new();
    let mut k: usize = back.len();
    while k > 0
        invariant
            k <= back@.len(),
            path@.len() == back@.len() - k,
            forall|i: int| 0 <= i < path@.len() ==> #[trigger] path@[i] == back@[back@.len() - 1 - i],
        decreases k,
    {
        k = k - 1;
        path.push(back[k]);
    }
    proof {
        let n = back@.len() as int;
        assert forall|i: int| 0 <= i < path@.len() - 1 implies adjacent(
            pairs,
            #[trigger] path@[i],
            path@[i + 1],
        ) by {
            assert(path@[i + 1] == back@[n - 2 - i]);
            assert(adjacent(pairs, back@[(n - 2 - i) + 1], back@[n - 2 - i]));
        }
        assert(path@[0] == back@[n - 1]);
        assert(path@[n - 1] == back@[0]);
    }
    path
}

/// How many ids of `all` are not reached yet.
spec fn left_over(all: Set<i64>, dist: Map<i64, nat>) -> nat {
    all.difference(dist.dom()).len()
}

/// Breadth-first search from `from` to `to`; an empty list where no walk joins them.
pub fn shortest_path(pairs: &Vec<(i64, i64)>, from: i64, to: i64) -> (path: Vec<i64>)
    ensures
        path@.len() == 0 <==> forall|q: Seq<i64>| !walk_between(pairs@, from, to, q),
        path@.len() > 0 ==> is_shortest_path(pairs@, from, to, path@),
{
    if from == to {
        let path: Vec<i64> = vec![from];
        assert(walk_between(pairs@, from, to, path@));
        return path;
    }
    let adj = Adjacency::build(pairs);
    let ghost all = endpoints(pairs@).insert(from);
    proof {
        lemma_endpoints_finite(pairs@);
    }
    let mut queue: VecDeque<i64> = VecDeque::new();
    let mut pred: HashMap<i64, i64> = HashMap::new();
    queue.push_back(from);
    pred.insert(from, from);
    let ghost mut dist: Map<i64, nat> = Map::empty().insert(from, 0nat);
    assert(pred@.dom() =~= dist.dom());
    assert(queue@[0] == from);
    while queue.len() > 0
        invariant
            from != to,
            adj.of_pairs(pairs@),
            all == endpoints(pairs@).insert(from),
            all.finite(),
            bfs_tree(pairs@, from, pred@, dist),
            dist.dom().subset_of(all),
            !dist.contains_key(to),
            forall|i: int| 0 <= i < queue@.len() ==> dist.contains_key(#[trigger] queue@[i]),
            forall|i: int, j: int|
                0 <= i <= j < queue@.len() ==> dist[#[trigger] queue@[i]] <= dist[#[trigger] queue@[j]],
            queue@.len() > 0 ==> forall|v: i64| #[trigger]
                dist.contains_key(v) ==> dist[v] <= dist[queue@[0]] + 1,
            expanded(pairs@, dist, queue@.to_set()),
        decreases left_over(all, dist), queue@.len(),
    {
        let ghost queue0 = queue@;
        let ghost dist0 = dist;
        let current: i64 = match queue.pop_front() {
            Some(n) => n,
            None => from,
        };
        let ghost rest = queue@;
        let ghost d = dist[current];
        assert(current == queue0[0]);
        assert forall|i: int| 0 <= i < rest.len() implies rest[i] == queue0[i + 1] by {}
        assert(expanded(pairs@, dist, queue@.to_set().insert(current))) by {
            assert forall|v: i64| queue0.to_set().contains(v) implies queue@.to_set().insert(
                current,
            ).contains(v) by {
                let i = choose|i: int| 0 <= i < queue0.len() && queue0[i] == v;
                if i > 0 {
                    assert(rest[i - 1] == v);
                }
            }
        }
        if let Some(list) = adj.get(current) {
            let mut k: usize = 0;
            while k < list.len()
                invariant
                    from != to,
                    list@ == ends(pairs@, current),
                    k <= list@.len(),
                    all == endpoints(pairs@).insert(from),
                    all.finite(),
                    bfs_tree(pairs@, from, pred@, dist),
                    dist.dom().subset_of(all),
                    !dist.contains_key(to),
                    dist.contains_key(current),
                    dist[current] == d,
                    forall|i: int| 0 <= i < queue@.len() ==> dist.contains_key(#[trigger] queue@[i]),
                    forall|i: int| 0 <= i < queue@.len() ==> dist[#[trigger] queue@[i]] >= d,
                    forall|i: int, j: int|
                        0 <= i <= j < queue@.len() ==> dist[#[trigger] queue@[i]]
                            <= dist[#[trigger] queue@[j]],
                    forall|v: i64| #[trigger] dist.contains_key(v) ==> dist[v] <= d + 1,
                    expanded(pairs@, dist, queue@.to_set().insert(current)),
                    forall|j: int| 0 <= j < k ==> dist.contains_key(#[trigger] list@[j]),
                    (dist == dist0 && queue@ == rest) || left_over(all, dist) < left_over(
                        all,
                        dist0,
                    ),
                decreases list@.len() - k,
            {
                let neighbor: i64 = list[k];
                if !pred.contains_key(&neighbor) {
                    let ghost queue1 = queue@;
                    let ghost dist1 = dist;
                    proof {
                        lemma_ends(pairs@, current, neighbor);
                        assert(list@.contains(neighbor));
                        lemma_endpoints(pairs@, current, neighbor);
                        assert(!dist.contains_key(neighbor));
                    }
                    pred.insert(neighbor, current);
                    proof {
                        dist = dist.insert(neighbor, d + 1);
                        assert(pred@.dom() =~= dist.dom());
                        assert(all.difference(dist.dom()) =~= all.difference(dist1.dom()).remove(
                            neighbor,
                        ));
                        assert(bfs_tree(pairs@, from, pred@, dist));
                    }
                    if neighbor == to {
                        let path = trace_back(&pred, from, to, Ghost(pairs@), Ghost(dist));
                        proof {
                            assert forall|q: Seq<i64>| #[trigger]
                                walk_between(pairs@, from, to, q) implies path@.len() <= q.len() by {
                                if q.len() < d + 2 {
                                    let open = queue1.to_set().insert(current);
                                    assert forall|v: i64| #[trigger]
                                        open.contains(v) && dist1.contains_key(v) implies dist1[v]
                                        >= d by {
                                        if v != current {
                                            let i = choose|i: int|
                                                0 <= i < queue1.len() && queue1[i] == v;
                                            assert(dist1[queue1[i]] >= d);
                                        }
                                    }
                                    lemma_levels(pairs@, from, dist1, open, d, q);
                                }
                            }
                            assert(walk_between(pairs@, from, to, path@));
                        }
                        return path;
                    }
                    queue.push_back(neighbor);
                    proof {
                        assert(queue@ =~= queue1.push(neighbor));
                        assert(queue@[queue1.len() as int] == neighbor);
                        let open1 = queue1.to_set().insert(current);
                        let open = queue@.to_set().insert(current);
                        assert forall|v: i64| open1.contains(v) implies open.contains(v) by {
                            if v != current {
                                let i = choose|i: int| 0 <= i < queue1.len() && queue1[i] == v;
                                assert(queue@[i] == v);
                            }
                        }
                        assert(open.contains(neighbor));
                        assert(expanded(pairs@, dist, open));
                    }
                }
                k = k + 1;
            }
        }
        proof {
            assert forall|v: i64, w: i64|
                dist.contains_key(v) && !queue@.to_set().contains(v) && #[trigger] adjacent(
                    pairs@,
                    v,
                    w,
                ) implies dist.contains_key(w) && dist[w] <= dist[v] + 1 by {
                if v == current {
                    lemma_ends(pairs@, current, w);
                    let j = choose|j: int|
                        0 <= j < ends(pairs@, current).len() && ends(
                            pairs@,
                            current,
                        )[j] == w;
                    assert(adj.list(current) == ends(pairs@, current));
                    assert(dist.contains_key(w));
                } else {
                    assert(!queue@.to_set().insert(current).contains(v));
                }
            }
        }
    }
    proof {
        assert forall|q: Seq<i64>| !walk_between(pairs@, from, to, q) by {
            if walk_between(pairs@, from, to, q) {
                assert(queue@.to_set() =~= Set::empty());
                lemma_levels(pairs@, from, dist, queue@.to_set(), q.len(), q);
            }
        }
    }
    Vec::new()
}

// ── Enumeration of simple paths ──────────────────────────────────────────

/// The first `n` elements of `s`, or all of them where there are fewer.
pub open spec fn first_of<T>(s: Seq<T>, n: nat) -> Seq<T> {
    if s.len() <= n {
        s
    } else {
        s.take(n as int)
    }
}

/// All ways, in depth-first order, to prolong `path`, which stands at `current`, to
/// a path that ends at `target` and has at most `max_len` ids: each step goes from
/// an id to one of its list, in the order of the list, and to none that was visited.
pub open spec fn prolongations(
    next: spec_fn(i64) -> Seq<i64>,
    visited: Set<i64>,
    path: Seq<i64>,
    current: i64,
    target: i64,
    max_len: nat,
) -> Seq<Seq<i64>>
    decreases max_len + 1 - path.len(), 1int, 0int,
{
    if path.len() > max_len {
        Seq::empty()
    } else if current == target {
        seq![path]
    } else {
        prolongations_over(next, visited, path, next(current), target, max_len)
    }
}

/// The prolongations of `path` whose next id is one of `nexts`, in their order.
pub open spec fn prolongations_over(
    next: spec_fn(i64) -> Seq<i64>,
    visited: Set<i64>,
    path: Seq<i64>,
    nexts: Seq<i64>,
    target: i64,
    max_len: nat,
) -> Seq<Seq<i64>>
    decreases max_len + 1 - path.len(), 0int, nexts.len(),
{
    if nexts.len() == 0 || path.len() > max_len {
        Seq::empty()
    } else {
        let n = nexts.last();
        let before = prolongations_over(next, visited, path, nexts.drop_last(), target, max_len);
        if visited.contains(n) {
            before
        } else {
            before + prolongations(next, visited.insert(n), path.push(n), n, target, max_len)
        }
    }
}

/// `p` begins with `path` and goes on to `target`, which it does not meet before:
/// each step goes to an id of the list of the one before it, to none that was
/// visited, and to none twice.
pub open spec fn is_prolongation(
    next: spec_fn(i64) -> Seq<i64>,
    visited: Set<i64>,
    path: Seq<i64>,
    target: i64,
    max_len: nat,
    p: Seq<i64>,
) -> bool {
    let n = path.len() as int;
    &&& n <= p.len() <= max_len
    &&& forall|i: int| 0 <= i < n ==> #[trigger] p[i] == path[i]
    &&& p.last() == target
    &&& forall|i: int| n - 1 <= i < p.len() - 1 ==> #[trigger] p[i] != target
    &&& forall|i: int| n - 1 <= i < p.len() - 1 ==> next(#[trigger] p[i]).contains(p[i + 1])
    &&& forall|i: int| n <= i < p.len() ==> !visited.contains(#[trigger] p[i])
    &&& forall|i: int, j: int| n <= i < j < p.len() ==> #[trigger] p[i] != #[trigger] p[j]
}

proof fn lemma_sound(
    next: spec_fn(i64) -> Seq<i64>,
    visited: Set<i64>,
    path: Seq<i64>,
    target: i64,
    max_len: nat,
    p: Seq<i64>,
)
    requires
        0 < path.len(),
        prolongations(next, visited, path, path.last(), target, max_len).contains(p),
    ensures
        is_prolongation(next, visited, path, target, max_len, p),
    decreases max_len + 1 - path.len(), 1int, 0int,
{
    if path.last() != target {
        lemma_over_sound(next, visited, path, next(path.last()), target, max_len, p);
    } else {
        assert(p =~= path);
    }
}

proof fn lemma_over_sound(
    next: spec_fn(i64) -> Seq<i64>,
    visited: Set<i64>,
    path: Seq<i64>,
    nexts: Seq<i64>,
    target: i64,
    max_len: nat,
    p: Seq<i64>,
)
    requires
        0 < path.len(),
        path.last() != target,
        prolongations_over(next, visited, path, nexts, target, max_len).contains(p),
        forall|n: i64| #[trigger] nexts.contains(n) ==> next(path.last()).contains(n),
    ensures
        is_prolongation(next, visited, path, target, max_len, p),
        p.len() > path.len(),
        nexts.contains(p[path.len() as int]),
    decreases max_len + 1 - path.len(), 0int, nexts.len(),
{
    let k = path.len() as int;
    let n = nexts.last();
    let less = nexts.drop_last();
    let before = prolongations_over(next, visited, path, less, target, max_len);
    assert forall|m: i64| #[trigger] less.contains(m) implies nexts.contains(m) by {
        let i = choose|i: int| 0 <= i < less.len() && less[i] == m;
        assert(nexts[i] == m);
    }
    if before.contains(p) {
        lemma_over_sound(next, visited, path, less, target, max_len, p);
    } else {
        assert(!visited.contains(n));
        let longer = path.push(n);
        let more = prolongations(next, visited.insert(n), longer, n, target, max_len);
        let i = choose|i: int| 0 <= i < (before + more).len() && (before + more)[i] == p;
        assert(i >= before.len()) by {
            if i < before.len() {
                assert(before[i] == p);
            }
        }
        assert(more[i - before.len()] == p);
        lemma_sound(next, visited.insert(n), longer, target, max_len, p);
        assert(nexts[nexts.len() - 1] == n);
        assert(nexts.contains(n));
        assert(p[k] == longer[k]);
        assert(p[k - 1] == longer[k - 1]);
        assert forall|i: int| 0 <= i < k implies #[trigger] p[i] == path[i] by {
            assert(p[i] == longer[i]);
        }
        assert forall|i: int| k - 1 <= i < p.len() - 1 implies next(#[trigger] p[i]).contains(
            p[i + 1],
        ) by {}
        assert forall|i: int, j: int| k <= i < j < p.len() implies #[trigger] p[i]
            != #[trigger] p[j] by {
            if i == k {
                assert(!visited.insert(n).contains(p[j]));
            }
        }
    }
}

proof fn lemma_complete(
    next: spec_fn(i64) -> Seq<i64>,
    visited: Set<i64>,
    path: Seq<i64>,
    target: i64,
    max_len: nat,
    p: Seq<i64>,
)
    requires
        0 < path.len(),
        is_prolongation(next, visited, path, target, max_len, p),
    ensures
        prolongations(next, visited, path, path.last(), target, max_len).contains(p),
    decreases max_len + 1 - path.len(), 1int, 0int,
{
    let all = prolongations(next, visited, path, path.last(), target, max_len);
    let k = path.len() as int;
    assert(p[k - 1] == path[k - 1]);
    if path.last() == target {
        assert(p =~= path);
        assert(all[0] == p);
    } else {
        let nexts = next(path.last());
        assert(next(p[k - 1]).contains(p[k]));
        let j = choose|j: int| 0 <= j < nexts.len() && nexts[j] == p[k];
        lemma_over_complete(next, visited, path, nexts, target, max_len, p, j);
    }
}

proof fn lemma_over_complete(
    next: spec_fn(i64) -> Seq<i64>,
    visited: Set<i64>,
    path: Seq<i64>,
    nexts: Seq<i64>,
    target: i64,
    max_len: nat,
    p: Seq<i64>,
    j: int,
)
    requires
        0 < path.len() < p.len(),
        0 <= j < nexts.len(),
        nexts[j] == p[path.len() as int],
        is_prolongation(next, visited, path, target, max_len, p),
    ensures
        prolongations_over(next, visited, path, nexts, target, max_len).contains(p),
    decreases max_len + 1 - path.len(), 0int, nexts.len(),
{
    let n = nexts.last();
    let before = prolongations_over(next, visited, path, nexts.drop_last(), target, max_len);
    let longer = path.push(n);
    let more = prolongations(next, visited.insert(n), longer, n, target, max_len);
    let k = path.len() as int;
    if j < nexts.len() - 1 {
        lemma_over_complete(next, visited, path, nexts.drop_last(), target, max_len, p, j);
        let i = choose|i: int| 0 <= i < before.len() && before[i] == p;
        if !visited.contains(n) {
            assert((before + more)[i] == p);
        }
    } else {
        assert(!visited.contains(p[k]));
        assert forall|i: int| k + 1 <= i < p.len() implies !visited.insert(n).contains(
            #[trigger] p[i],
        ) by {
            assert(p[k] != p[i]);
        }
        assert(is_prolongation(next, visited.insert(n), longer, target, max_len, p));
        lemma_complete(next, visited.insert(n), longer, target, max_len, p);
        let i = choose|i: int| 0 <= i < more.len() && more[i] == p;
        assert((before + more)[before.len() + i] == p);
    }
}

/// The prolongations of a path are listed, none is missing and none is wrong.
pub proof fn law_prolongations_are_exact(
    next: spec_fn(i64) -> Seq<i64>,
    visited: Set<i64>,
    path: Seq<i64>,
    target: i64,
    max_len: nat,
    p: Seq<i64>,
)
    requires
        0 < path.len(),
    ensures
        prolongations(next, visited, path, path.last(), target, max_len).contains(p)
            <==> is_prolongation(next, visited, path, target, max_len, p),
{
    if prolongations(next, visited, path, path.last(), target, max_len).contains(p) {
        lemma_sound(next, visited, path, target, max_len, p);
    }
    if is_prolongation(next, visited, path, target, max_len, p) {
        lemma_complete(next, visited, path, target, max_len, p);
    }
}

/// Where no list names an id twice, no prolongation is listed twice.
pub proof fn law_prolongations_are_distinct(
    next: spec_fn(i64) -> Seq<i64>,
    visited: Set<i64>,
    path: Seq<i64>,
    target: i64,
    max_len: nat,
)
    requires
        0 < path.len(),
        forall|n: i64| (#[trigger] next(n)).no_duplicates(),
    ensures
        prolongations(next, visited, path, path.last(), target, max_len).no_duplicates(),
    decreases max_len + 1 - path.len(), 1int, 0int,
{
    if path.len() <= max_len && path.last() != target {
        lemma_over_distinct(next, visited, path, next(path.last()), target, max_len);
    }
}

proof fn lemma_over_distinct(
    next: spec_fn(i64) -> Seq<i64>,
    visited: Set<i64>,
    path: Seq<i64>,
    nexts: Seq<i64>,
    target: i64,
    max_len: nat,
)
    requires
        0 < path.len(),
        path.last() != target,
        forall|n: i64| (#[trigger] next(n)).no_duplicates(),
        nexts.no_duplicates(),
        forall|n: i64| #[trigger] nexts.contains(n) ==> next(path.last()).contains(n),
    ensures
        prolongations_over(next, visited, path, nexts, target, max_len).no_duplicates(),
    decreases max_len + 1 - path.len(), 0int, nexts.len(),
{
    if nexts.len() > 0 && path.len() <= max_len {
        let k = path.len() as int;
        let n = nexts.last();
        let less = nexts.drop_last();
        assert forall|m: i64| #[trigger] less.contains(m) implies nexts.contains(m) by {
            let i = choose|i: int| 0 <= i < less.len() && less[i] == m;
            assert(nexts[i] == m);
        }
        let before = prolongations_over(next, visited, path, less, target, max_len);
        lemma_over_distinct(next, visited, path, less, target, max_len);
        if !visited.contains(n) {
            let longer = path.push(n);
            let more = prolongations(next, visited.insert(n), longer, n, target, max_len);
            law_prolongations_are_distinct(next, visited.insert(n), longer, target, max_len);
            let all = before + more;
            assert forall|i: int, j: int| 0 <= i < before.len() <= j < all.len() implies all[i]
                != all[j] by {
                let (p, q) = (before[i], more[j - before.len()]);
                assert(before.contains(p));
                assert(more.contains(q));
                lemma_over_sound(next, visited, path, less, target, max_len, p);
                lemma_sound(next, visited.insert(n), longer, target, max_len, q);
                assert(q[k] == longer[k]);
                if p == q {
                    let m = choose|m: int| 0 <= m < less.len() && less[m] == n;
                    assert(nexts[m] == nexts[nexts.len() - 1]);
                }
            }
            assert forall|i: int, j: int| 0 <= i < all.len() && 0 <= j < all.len() && i
                != j implies all[i] != all[j] by {
                if i < before.len() && j < before.len() {
                    assert(before[i] != before[j]);
                } else if i >= before.len() && j >= before.len() {
                    assert(more[i - before.len()] != more[j - before.len()]);
                } else if i < before.len() {
                    assert(all[i] != all[j]);
                } else {
                    assert(all[j] != all[i]);
                }
            }
        }
    }
}

/// All simple paths, in depth-first order, from `from` to `to` over the first `cap`
/// neighbours of each id, of at most `max_len` ids.
pub open spec fn paths_from(
    pairs: Seq<(i64, i64)>,
    cap: nat,
    from: i64,
    to: i64,
    max_len: nat,
) -> Seq<Seq<i64>> {
    prolongations(
        |n: i64| capped(pairs, cap, n),
        set![from],
        seq![from],
        from,
        to,
        max_len,
    )
}

/// `p` runs from `from` to `to` over followed neighbours, repeats no id and has
/// at most `max_len` ids.
pub open spec fn is_simple_path(
    pairs: Seq<(i64, i64)>,
    cap: nat,
    from: i64,
    to: i64,
    max_len: nat,
    p: Seq<i64>,
) -> bool {
    &&& 0 < p.len() <= max_len
    &&& p.first() == from
    &&& p.last() == to
    &&& p.no_duplicates()
    &&& forall|i: int|
        0 <= i < p.len() - 1 ==> capped(pairs, cap, #[trigger] p[i]).contains(p[i + 1])
}

/// In the list the one stands before the other.
pub open spec fn stands_before(list: Seq<i64>, x: i64, y: i64) -> bool {
    exists|a: int, b: int|
        0 <= a < b < list.len() && #[trigger] list[a] == x && #[trigger] list[b] == y
}

/// At the first place where the paths part, the first one goes on to an id that stands
/// before that of the second one in the list of the id at which they part.
pub open spec fn parts_first(next: spec_fn(i64) -> Seq<i64>, p: Seq<i64>, q: Seq<i64>) -> bool {
    exists|k: int|
        0 < k < p.len() && k < q.len() && p.take(k) == q.take(k) && stands_before(
            next(p[k - 1]),
            #[trigger] p[k],
            q[k],
        )
}

/// Prolongations come depth first: of two of them that comes first which goes on to the
/// id that stands first in the list where they part.
pub proof fn law_prolongations_come_depth_first(
    next: spec_fn(i64) -> Seq<i64>,
    visited: Set<i64>,
    path: Seq<i64>,
    target: i64,
    max_len: nat,
    i: int,
    j: int,
)
    requires
        0 < path.len(),
        0 <= i < j < prolongations(next, visited, path, path.last(), target, max_len).len(),
    ensures
        parts_first(
            next,
            prolongations(next, visited, path, path.last(), target, max_len)[i],
            prolongations(next, visited, path, path.last(), target, max_len)[j],
        ),
    decreases max_len + 1 - path.len(), 1int, 0int,
{
    let all = next(path.last());
    assert(all.take(all.len() as int) =~= all);
    lemma_over_in_order(next, visited, path, all.len() as int, target, max_len, i, j);
}

proof fn lemma_over_in_order(
    next: spec_fn(i64) -> Seq<i64>,
    visited: Set<i64>,
    path: Seq<i64>,
    m: int,
    target: i64,
    max_len: nat,
    i: int,
    j: int,
)
    requires
        0 < path.len(),
        path.last() != target,
        0 <= m <= next(path.last()).len(),
        0 <= i < j < prolongations_over(
            next,
            visited,
            path,
            next(path.last()).take(m),
            target,
            max_len,
        ).len(),
    ensures
        ({
            let all = prolongations_over(
                next,
                visited,
                path,
                next(path.last()).take(m),
                target,
                max_len,
            );
            parts_first(next, all[i], all[j])
        }),
    decreases max_len + 1 - path.len(), 0int, m,
{
    let list = next(path.last());
    let nexts = list.take(m);
    let n = nexts.last();
    let less = nexts.drop_last();
    assert(less =~= list.take(m - 1));
    let before = prolongations_over(next, visited, path, less, target, max_len);
    let all = prolongations_over(next, visited, path, nexts, target, max_len);
    if j < before.len() {
        lemma_over_in_order(next, visited, path, m - 1, target, max_len, i, j);
    } else {
        let longer = path.push(n);
        let more = prolongations(next, visited.insert(n), longer, n, target, max_len);
        assert(all == before + more);
        if i >= before.len() {
            law_prolongations_come_depth_first(
                next,
                visited.insert(n),
                longer,
                target,
                max_len,
                i - before.len(),
                j - before.len(),
            );
        } else {
            let (p, q) = (before[i], more[j - before.len()]);
            let k = path.len() as int;
            assert(before.contains(p));
            assert(more.contains(q));
            assert forall|x: i64| #[trigger] less.contains(x) implies list.contains(x) by {
                let a = choose|a: int| 0 <= a < less.len() && less[a] == x;
                assert(list[a] == x);
            }
            lemma_over_sound(next, visited, path, less, target, max_len, p);
            lemma_sound(next, visited.insert(n), longer, target, max_len, q);
            assert(q[k] == longer[k]);
            assert forall|x: int| 0 <= x < k implies #[trigger] p.take(k)[x] == q.take(k)[x] by {
                assert(p[x] == path[x]);
                assert(q[x] == longer[x]);
            }
            assert(p.take(k) =~= q.take(k));
            assert(p[k - 1] == path[k - 1]);
            let a = choose|a: int| 0 <= a < less.len() && less[a] == p[k];
            assert(list[a] == p[k]);
            assert(list[m - 1] == q[k]);
            assert(stands_before(next(p[k - 1]), p[k], q[k]));
        }
    }
}

/// Paths are enumerated depth first, in the order of the neighbours.
pub proof fn law_enumeration_is_depth_first(
    pairs: Seq<(i64, i64)>,
    cap: nat,
    from: i64,
    to: i64,
    max_len: nat,
    i: int,
    j: int,
)
    requires
        0 <= i < j < paths_from(pairs, cap, from, to, max_len).len(),
    ensures
        ({
            let (p, q) = (
                paths_from(pairs, cap, from, to, max_len)[i],
                paths_from(pairs, cap, from, to, max_len)[j],
            );
            exists|k: int|
                0 < k < p.len() && k < q.len() && p.take(k) == q.take(k) && stands_before(
                    neighbors(pairs, p[k - 1]),
                    #[trigger] p[k],
                    q[k],
                )
        }),
{
    let next = |n: i64| capped(pairs, cap, n);
    law_prolongations_come_depth_first(next, set![from], seq![from], to, max_len, i, j);
    let all = paths_from(pairs, cap, from, to, max_len);
    let (p, q) = (all[i], all[j]);
    let k = choose|k: int|
        0 < k < p.len() && k < q.len() && p.take(k) == q.take(k) && stands_before(
            next(p[k - 1]),
            #[trigger] p[k],
            q[k],
        );
    let list = next(p[k - 1]);
    let (a, b) = choose|a: int, b: int|
        0 <= a < b < list.len() && #[trigger] list[a] == p[k] && #[trigger] list[b] == q[k];
    law_followed_neighbors(pairs, cap, p[k - 1]);
    assert(neighbors(pairs, p[k - 1])[a] == p[k]);
    assert(neighbors(pairs, p[k - 1])[b] == q[k]);
}

/// An enumerated path runs from the one id to the other along pairs, meets no id twice,
/// and has no more ids than allowed.
pub proof fn law_enumerated_path_is_simple(
    pairs: Seq<(i64, i64)>,
    cap: nat,
    from: i64,
    to: i64,
    max_len: nat,
    p: Seq<i64>,
)
    requires
        paths_from(pairs, cap, from, to, max_len).contains(p),
    ensures
        0 < p.len() <= max_len,
        p.first() == from,
        p.last() == to,
        p.no_duplicates(),
        goes_along(pairs, p),
{
    law_enumeration_is_exact(pairs, cap, from, to, max_len, p);
    law_simple_path_is_walk(pairs, cap, from, to, max_len, p);
    lemma_walk_goes_along(pairs, p);
}

/// The ids are different and each of them is adjacent to `n`.
pub open spec fn are_adjacent(pairs: Seq<(i64, i64)>, n: i64, ids: Seq<i64>) -> bool {
    &&& ids.no_duplicates()
    &&& forall|k: int| 0 <= k < ids.len() ==> adjacent(pairs, n, #[trigger] ids[k])
}

/// Two ids are adjacent exactly when one of the pairs has them as its ends.
pub proof fn law_adjacent_ids_are_the_ends_of_a_pair(pairs: Seq<(i64, i64)>, a: i64, b: i64)
    ensures
        adjacent(pairs, a, b) <==> exists|i: int|
            0 <= i < pairs.len() && (#[trigger] pairs[i] == (a, b) || pairs[i] == (b, a)),
        adjacent(pairs, a, b) == adjacent(pairs, b, a),
{
}

/// What a list is cut to: its first `n` elements, and all of them where it has no
/// more.
pub proof fn law_first_of_is_a_prefix<T>(s: Seq<T>, n: nat)
    ensures
        first_of(s, n).len() == (if s.len() < n {
            s.len()
        } else {
            n
        }),
        forall|i: int| 0 <= i < first_of(s, n).len() ==> #[trigger] first_of(s, n)[i] == s[i],
{
}

/// The neighbours come in the order of the pairs: one more pair adds the end opposite
/// to `n` behind them, unless it is among them, and any other pair adds nothing.
pub proof fn law_neighbors_grow_with_the_pairs(pairs: Seq<(i64, i64)>, a: i64, b: i64, n: i64)
    ensures
        pairs.len() == 0 ==> neighbors(pairs, n).len() == 0,
        ({
            let before = neighbors(pairs, n);
            let after = neighbors(pairs.push((a, b)), n);
            &&& a != n && b != n ==> after == before
            &&& a == n && before.contains(b) ==> after == before
            &&& b == n && before.contains(a) ==> after == before
            &&& a == n && !before.contains(b) ==> after == before.push(b)
            &&& b == n && !before.contains(a) ==> after == before.push(a)
        }),
{
    assert(pairs.push((a, b)).drop_last() =~= pairs);
    let before = neighbors(pairs, n);
    assert(before.push(a).contains(a)) by {
        assert(before.push(a)[before.len() as int] == a);
    }
}

/// The enumeration follows the first `cap` neighbours, and all of them where there
/// are no more.
pub proof fn law_followed_neighbors(pairs: Seq<(i64, i64)>, cap: nat, n: i64)
    ensures
        capped(pairs, cap, n).len() == (if neighbors(pairs, n).len() < cap {
            neighbors(pairs, n).len()
        } else {
            cap
        }),
        forall|i: int|
            0 <= i < capped(pairs, cap, n).len() ==> #[trigger] capped(pairs, cap, n)[i]
                == neighbors(pairs, n)[i],
        forall|m: i64| #[trigger] neighbors(pairs, n).contains(m) <==> adjacent(pairs, n, m),
        neighbors(pairs, n).no_duplicates(),
{
    lemma_neighbors(pairs, n);
}

/// No path is missing where the neighbourhoods are small: every walk from `from` to
/// `to` with at most `max_len` ids, none of them twice, each with at most `cap`
/// adjacent ids, is enumerated.
pub proof fn law_short_lists_are_followed(
    pairs: Seq<(i64, i64)>,
    cap: nat,
    from: i64,
    to: i64,
    max_len: nat,
    p: Seq<i64>,
)
    requires
        0 < p.len() <= max_len,
        p.first() == from,
        p.last() == to,
        p.no_duplicates(),
        forall|i: int| 0 <= i < p.len() - 1 ==> adjacent(pairs, #[trigger] p[i], p[i + 1]),
        forall|k: int, ids: Seq<i64>|
            0 <= k < p.len() && #[trigger] are_adjacent(pairs, #[trigger] p[k], ids) ==> ids.len()
                <= cap,
    ensures
        paths_from(pairs, cap, from, to, max_len).contains(p),
{
    assert forall|i: int| 0 <= i < p.len() - 1 implies capped(
        pairs,
        cap,
        #[trigger] p[i],
    ).contains(p[i + 1]) by {
        law_followed_neighbors(pairs, cap, p[i]);
        let all = neighbors(pairs, p[i]);
        assert forall|k: int| 0 <= k < all.len() implies adjacent(
            pairs,
            p[i],
            #[trigger] all[k],
        ) by {
            assert(all.contains(all[k]));
        }
        assert(are_adjacent(pairs, p[i], all));
        assert(capped(pairs, cap, p[i]) =~= all);
        assert(adjacent(pairs, p[i], p[i + 1]));
    }
    assert(is_simple_path(pairs, cap, from, to, max_len, p));
    law_enumeration_is_exact(pairs, cap, from, to, max_len, p);
}

/// The id lists that `v` holds.
pub open spec fn lists_of(v: Seq<Vec<i64>>) -> Seq<Seq<i64>> {
    v.map_values(|p: Vec<i64>| p@)
}

/// The enumeration from `from` to `to` holds exactly the simple paths between
/// them over followed neighbours: none is missing and none is wrong.
pub proof fn law_enumeration_is_exact(
    pairs: Seq<(i64, i64)>,
    cap: nat,
    from: i64,
    to: i64,
    max_len: nat,
    p: Seq<i64>,
)
    ensures
        paths_from(pairs, cap, from, to, max_len).contains(p) <==> is_simple_path(
            pairs,
            cap,
            from,
            to,
            max_len,
            p,
        ),
{
    let next = |n: i64| capped(pairs, cap, n);
    let start = seq![from];
    let visited = set![from];
    law_prolongations_are_exact(next, visited, start, to, max_len, p);
    if is_prolongation(next, visited, start, to, max_len, p) {
        assert(p[0] == start[0]);
        assert forall|i: int, j: int| 0 <= i < p.len() && 0 <= j < p.len() && i
            != j implies p[i] != p[j] by {
            if i == 0 {
                assert(!visited.contains(p[j]));
            } else if j == 0 {
                assert(!visited.contains(p[i]));
            } else if i < j {
                assert(p[i] != p[j]);
            } else {
                assert(p[j] != p[i]);
            }
        }
        assert forall|i: int| 0 <= i < p.len() - 1 implies capped(
            pairs,
            cap,
            #[trigger] p[i],
        ).contains(p[i + 1]) by {
            assert(next(p[i]).contains(p[i + 1]));
        }
    }
    if is_simple_path(pairs, cap, from, to, max_len, p) {
        assert forall|i: int| 0 <= i < p.len() - 1 implies #[trigger] p[i] != to by {
            assert(p[i] != p[p.len() - 1]);
        }
        assert forall|i: int| 1 <= i < p.len() implies !visited.contains(#[trigger] p[i]) by {
            assert(p[0] != p[i]);
        }
        assert(is_prolongation(next, visited, start, to, max_len, p));
    }
}

/// The enumeration lists each path once, however many pairs join two ids.
pub proof fn law_enumeration_repeats_nothing(
    pairs: Seq<(i64, i64)>,
    cap: nat,
    from: i64,
    to: i64,
    max_len: nat,
)
    ensures
        paths_from(pairs, cap, from, to, max_len).no_duplicates(),
{
    let next = |n: i64| capped(pairs, cap, n);
    assert forall|n: i64| (#[trigger] next(n)).no_duplicates() by {
        lemma_neighbors(pairs, n);
    }
    law_prolongations_are_distinct(next, set![from], seq![from], to, max_len);
}

/// A simple path over followed neighbours is a walk of the graph.
pub proof fn law_simple_path_is_walk(
    pairs: Seq<(i64, i64)>,
    cap: nat,
    from: i64,
    to: i64,
    max_len: nat,
    p: Seq<i64>,
)
    requires
        is_simple_path(pairs, cap, from, to, max_len, p),
    ensures
        walk_between(pairs, from, to, p),
{
    assert forall|i: int| 0 <= i < p.len() - 1 implies adjacent(pairs, #[trigger] p[i], p[i + 1]) by {
        let c = capped(pairs, cap, p[i]);
        let j = choose|j: int| 0 <= j < c.len() && c[j] == p[i + 1];
        assert(neighbors(pairs, p[i])[j] == p[i + 1]);
        assert(neighbors(pairs, p[i]).contains(p[i + 1]));
        lemma_neighbors(pairs, p[i]);
    }
}

fn copy_ids(ids: &Vec<i64>) -> (copy: Vec<i64>)
    ensures
        copy@ == ids@,
{
    let mut copy: Vec<i64> = Vec::new();
    let mut i: usize = 0;
    while i < ids.len()
        invariant
            i <= ids@.len(),
            copy@ == ids@.take(i as int),
        decreases ids@.len() - i,
    {
        copy.push(ids[i]);
        i = i + 1;
    }
    assert(ids@.take(i as int) =~= ids@);
    copy
}

/// How many more there may be where there are `n` and may be `max`.
pub open spec fn room(n: nat, max: nat) -> nat {
    if n < max {
        (max - n) as nat
    } else {
        0
    }
}

/// Taking from two lists one after the other, as far as there is room.
proof fn lemma_take_on<T>(found: Seq<T>, a: Seq<T>, b: Seq<T>, max: nat)
    ensures
        ({
            let r = found + first_of(a, room(found.len(), max));
            r + first_of(b, room(r.len(), max)) == found + first_of(
                a + b,
                room(found.len(), max),
            )
        }),
{
    let n = room(found.len(), max);
    let r = found + first_of(a, n);
    assert(r + first_of(b, room(r.len(), max)) =~= found + first_of(a + b, n));
}

/// Depth-first search that appends the prolongations of `path` to `results` as long
/// as there are fewer than `max_paths`; `path` and `visited` come back as they were.
pub fn dfs_all_paths(
    adj: &Adjacency,
    current: i64,
    target: i64,
    max_depth: usize,
    max_paths: usize,
    path: &mut Vec<i64>,
    visited: &mut HashSet<i64>,
    results: &mut Vec<Vec<i64>>,
)
    ensures
        final(path)@ == old(path)@,
        final(visited)@ == old(visited)@,
        lists_of(final(results)@) == lists_of(old(results)@) + first_of(
            prolongations(
                adj.lists(),
                old(visited)@,
                old(path)@,
                current,
                target,
                max_depth as nat,
            ),
            room(old(results)@.len(), max_paths as nat),
        ),
    decreases max_depth + 1 - old(path)@.len(),
{
    let ghost path0 = path@;
    let ghost seen = visited@;
    let ghost found0 = lists_of(results@);
    let ghost next = adj.lists();
    let ghost (len, max) = (max_depth as nat, max_paths as nat);
    let ghost more = prolongations(next, seen, path0, current, target, len);
    assert(found0.len() == results@.len());
    if results.len() >= max_paths || path.len() > max_depth {
        assert(found0 + first_of(more, room(found0.len(), max)) =~= found0);
        return;
    }
    if current == target {
        results.push(copy_ids(path));
        assert(lists_of(results@) =~= found0 + seq![path0]);
        return;
    }
    if let Some(list) = adj.get(current) {
        let ghost nexts = next(current);
        proof {
            assert(nexts == list@);
            assert(nexts.take(0) =~= Seq::empty());
            assert(found0 + first_of(
                prolongations_over(next, seen, path0, nexts.take(0), target, len),
                room(found0.len(), max),
            ) =~= found0);
        }
        let mut k: usize = 0;
        while k < list.len()
            invariant
                next == adj.lists(),
                len == max_depth,
                max == max_paths,
                path0 == old(path)@,
                path0.len() <= max_depth,
                path@ == path0,
                visited@ == seen,
                nexts == list@,
                k <= list@.len(),
                lists_of(results@) == found0 + first_of(
                    prolongations_over(next, seen, path0, nexts.take(k as int), target, len),
                    room(found0.len(), max),
                ),
            decreases list@.len() - k,
        {
            let neighbor: i64 = list[k];
            let ghost so_far = prolongations_over(
                next,
                seen,
                path0,
                nexts.take(k as int),
                target,
                len,
            );
            proof {
                assert(nexts.take(k + 1).drop_last() =~= nexts.take(k as int));
                assert(nexts.take(k + 1).last() == neighbor);
                assert(lists_of(results@).len() == results@.len());
            }
            if !visited.contains(&neighbor) {
                visited.insert(neighbor);
                path.push(neighbor);
                dfs_all_paths(
                    adj,
                    neighbor,
                    target,
                    max_depth,
                    max_paths,
                    path,
                    visited,
                    results,
                );
                path.pop();
                visited.remove(&neighbor);
                proof {
                    assert(path@ =~= path0);
                    assert(visited@ =~= seen);
                    let deeper = prolongations(
                        next,
                        seen.insert(neighbor),
                        path0.push(neighbor),
                        neighbor,
                        target,
                        len,
                    );
                    lemma_take_on(found0, so_far, deeper, max);
                }
            }
            k = k + 1;
        }
        assert(nexts.take(k as int) =~= nexts);
    } else {
        proof {
            assert(next(current) =~= Seq::empty());
            assert(found0 + first_of(more, room(found0.len(), max)) =~= found0);
        }
    }
}

/// The first `max_paths` simple paths from `from` to `to` in depth-first order,
/// each of at most `max_depth` ids, over the first `cap` neighbours of each id. No
/// path comes twice.
pub fn all_paths(
    pairs: &Vec<(i64, i64)>,
    cap: usize,
    from: i64,
    to: i64,
    max_depth: usize,
    max_paths: usize,
) -> (paths: Vec<Vec<i64>>)
    ensures
        lists_of(paths@) == first_of(
            paths_from(pairs@, cap as nat, from, to, max_depth as nat),
            max_paths as nat,
        ),
        lists_of(paths@).no_duplicates(),
{
    let adj = Adjacency::build_distinct(pairs, cap);
    let mut path: Vec<i64> = vec![from];
    let mut visited: HashSet<i64> = HashSet::new();
    visited.insert(from);
    let mut results: Vec<Vec<i64>> = Vec::new();
    assert(path@ =~= seq![from]);
    assert(visited@ =~= set![from]);
    dfs_all_paths(
        &adj,
        from,
        to,
        max_depth,
        max_paths,
        &mut path,
        &mut visited,
        &mut results,
    );
    proof {
        let next = |n: i64| capped(pairs@, cap as nat, n);
        assert(adj.lists() =~= next);
        let found = paths_from(pairs@, cap as nat, from, to, max_depth as nat);
        let first = first_of(found, max_paths as nat);
        assert(lists_of(Seq::<Vec<i64>>::empty()) + first =~= first);
        law_enumeration_repeats_nothing(pairs@, cap as nat, from, to, max_depth as nat);
    }
    results
}

// ── Connected components ─────────────────────────────────────────────────

/// Some walk joins `a` and `b`.
pub open spec fn connected(pairs: Seq<(i64, i64)>, a: i64, b: i64) -> bool {
    exists|p: Seq<i64>| walk_between(pairs, a, b, p)
}

/// All ids that a walk joins to `a`, `a` itself among them.
pub open spec fn component(pairs: Seq<(i64, i64)>, a: i64) -> Set<i64> {
    Set::new(|b: i64| connected(pairs, a, b))
}

/// The components that the ids of `ids` lie in.
pub open spec fn components(pairs: Seq<(i64, i64)>, ids: Seq<i64>) -> Set<Set<i64>> {
    ids.map_values(|a: i64| component(pairs, a)).to_set()
}

/// The components that the ids of `ids` lie in, each once, in the order in which the
/// ids first meet them.
pub open spec fn met(pairs: Seq<(i64, i64)>, ids: Seq<i64>) -> Seq<Set<i64>>
    decreases ids.len(),
{
    if ids.len() == 0 {
        Seq::empty()
    } else {
        let before = met(pairs, ids.drop_last());
        let part = component(pairs, ids.last());
        if before.contains(part) {
            before
        } else {
            before.push(part)
        }
    }
}

/// `parts` lists each component of `ids` once, and `sizes` how many ids each has.
pub open spec fn sizes_listed(
    pairs: Seq<(i64, i64)>,
    ids: Seq<i64>,
    parts: Seq<Set<i64>>,
    sizes: Seq<usize>,
) -> bool {
    &&& parts.no_duplicates()
    &&& parts.to_set() == components(pairs, ids)
    &&& parts.len() == sizes.len()
    &&& forall|i: int| 0 <= i < parts.len() ==> (#[trigger] parts[i]).finite() && parts[i].len() == sizes[i]
}

/// No pair leads out of `s`.
spec fn is_closed(pairs: Seq<(i64, i64)>, s: Set<i64>) -> bool {
    forall|v: i64, w: i64| s.contains(v) && #[trigger] adjacent(pairs, v, w) ==> s.contains(w)
}

/// A component holds the ids that a walk joins to its own.
pub proof fn law_component_is_what_walks_reach(pairs: Seq<(i64, i64)>, a: i64, b: i64)
    ensures
        component(pairs, a).contains(b) <==> exists|p: Seq<i64>|
            p.len() > 0 && p.first() == a && p.last() == b && #[trigger] goes_along(pairs, p),
        connected(pairs, a, b) <==> component(pairs, a).contains(b),
{
    if connected(pairs, a, b) {
        let p = choose|p: Seq<i64>| walk_between(pairs, a, b, p);
        lemma_walk_goes_along(pairs, p);
    }
    if exists|p: Seq<i64>|
        p.len() > 0 && p.first() == a && p.last() == b && #[trigger] goes_along(pairs, p) {
        let p = choose|p: Seq<i64>|
            p.len() > 0 && p.first() == a && p.last() == b && #[trigger] goes_along(pairs, p);
        lemma_along_is_walk(pairs, p);
        assert(walk_between(pairs, a, b, p));
    }
}

/// Each step of `p` is a pair, in the one direction or the other.
pub open spec fn goes_along(pairs: Seq<(i64, i64)>, p: Seq<i64>) -> bool {
    forall|i: int|
        0 <= i < p.len() - 1 ==> pairs.contains((#[trigger] p[i], p[i + 1])) || pairs.contains(
            (p[i + 1], p[i]),
        )
}

/// A shortest path runs along pairs from the one id to the other.
pub proof fn law_shortest_path_runs_along_pairs(
    pairs: Seq<(i64, i64)>,
    a: i64,
    b: i64,
    p: Seq<i64>,
)
    requires
        is_shortest_path(pairs, a, b, p),
    ensures
        p.len() > 0,
        p.first() == a,
        p.last() == b,
        goes_along(pairs, p),
{
    lemma_walk_goes_along(pairs, p);
}

/// Nothing that runs along pairs between the same ids is shorter than a shortest path.
pub proof fn law_shortest_path_is_shortest(
    pairs: Seq<(i64, i64)>,
    a: i64,
    b: i64,
    p: Seq<i64>,
    q: Seq<i64>,
)
    requires
        is_shortest_path(pairs, a, b, p),
        q.len() > 0,
        q.first() == a,
        q.last() == b,
        goes_along(pairs, q),
    ensures
        p.len() <= q.len(),
{
    lemma_along_is_walk(pairs, q);
    assert(walk_between(pairs, a, b, q));
}

proof fn lemma_walk_goes_along(pairs: Seq<(i64, i64)>, p: Seq<i64>)
    requires
        is_walk(pairs, p),
    ensures
        goes_along(pairs, p),
{
    assert forall|i: int| 0 <= i < p.len() - 1 implies pairs.contains(
        (#[trigger] p[i], p[i + 1]),
    ) || pairs.contains((p[i + 1], p[i])) by {
        assert(adjacent(pairs, p[i], p[i + 1]));
    }
}

proof fn lemma_along_is_walk(pairs: Seq<(i64, i64)>, p: Seq<i64>)
    requires
        p.len() > 0,
        goes_along(pairs, p),
    ensures
        is_walk(pairs, p),
{
    assert forall|i: int| 0 <= i < p.len() - 1 implies adjacent(
        pairs,
        #[trigger] p[i],
        p[i + 1],
    ) by {
        assert(pairs.contains((p[i], p[i + 1])) || pairs.contains((p[i + 1], p[i])));
    }
}

/// A walk joins one of `chosen` to the id.
pub open spec fn meets_one(pairs: Seq<(i64, i64)>, chosen: Seq<i64>, id: i64) -> bool {
    exists|i: int| 0 <= i < chosen.len() && connected(pairs, #[trigger] chosen[i], id)
}

/// There are as many components as ids that can be chosen so that none is joined to
/// another and each id is joined to one of them.
pub proof fn law_components_are_counted(
    pairs: Seq<(i64, i64)>,
    ids: Seq<i64>,
    parts: Seq<Set<i64>>,
    sizes: Seq<usize>,
    chosen: Seq<i64>,
)
    requires
        sizes_listed(pairs, ids, parts, sizes),
        forall|i: int| 0 <= i < chosen.len() ==> ids.contains(#[trigger] chosen[i]),
        forall|i: int, j: int|
            0 <= i < j < chosen.len() ==> !connected(
                pairs,
                #[trigger] chosen[i],
                #[trigger] chosen[j],
            ),
        forall|k: int| 0 <= k < ids.len() ==> meets_one(pairs, chosen, #[trigger] ids[k]),
    ensures
        parts.len() == chosen.len(),
        sizes.len() == chosen.len(),
{
    let f = |a: i64| component(pairs, a);
    let q = chosen.map_values(f);
    let all = ids.map_values(f);
    assert forall|i: int, j: int| 0 <= i < q.len() && 0 <= j < q.len() && i != j implies q[i]
        != q[j] by {
        let (x, y) = if i < j {
            (i, j)
        } else {
            (j, i)
        };
        assert(!connected(pairs, chosen[x], chosen[y]));
        law_component_reflexive(pairs, chosen[y]);
        assert(component(pairs, chosen[y]).contains(chosen[y]));
        assert(!component(pairs, chosen[x]).contains(chosen[y]));
    }
    assert forall|c: Set<i64>| q.to_set().contains(c) <==> components(pairs, ids).contains(c) by {
        if q.contains(c) {
            let i = choose|i: int| 0 <= i < q.len() && q[i] == c;
            assert(ids.contains(chosen[i]));
            let k = choose|k: int| 0 <= k < ids.len() && ids[k] == chosen[i];
            assert(all[k] == c);
        }
        if all.contains(c) {
            let k = choose|k: int| 0 <= k < all.len() && all[k] == c;
            assert(meets_one(pairs, chosen, ids[k]));
            let i = choose|i: int|
                0 <= i < chosen.len() && connected(pairs, #[trigger] chosen[i], ids[k]);
            law_components_partition(pairs, chosen[i], ids[k]);
            law_component_reflexive(pairs, ids[k]);
            assert(component(pairs, chosen[i]).contains(ids[k]));
            assert(component(pairs, ids[k]).contains(ids[k]));
            assert(component(pairs, chosen[i]) == component(pairs, ids[k]));
            assert(q[i] == c);
        }
    }
    assert(q.to_set() =~= components(pairs, ids));
    q.unique_seq_to_set();
    parts.unique_seq_to_set();
}

/// The sizes are those of the components: as many different ids as are joined to an id
/// fit into one of them, and each is the size of the component of some id.
pub proof fn law_component_sizes_are_exact(
    pairs: Seq<(i64, i64)>,
    ids: Seq<i64>,
    parts: Seq<Set<i64>>,
    sizes: Seq<usize>,
    a: i64,
    group: Seq<i64>,
)
    requires
        sizes_listed(pairs, ids, parts, sizes),
        ids.contains(a),
        group.no_duplicates(),
    ensures
        (forall|k: int| 0 <= k < group.len() ==> connected(pairs, a, #[trigger] group[k]))
            ==> exists|i: int| 0 <= i < sizes.len() && group.len() <= #[trigger] sizes[i],
        (forall|b: i64| connected(pairs, a, b) <==> #[trigger] group.contains(b))
            ==> exists|i: int| 0 <= i < sizes.len() && group.len() == #[trigger] sizes[i],
        forall|i: int|
            0 <= i < sizes.len() ==> exists|k: int|
                0 <= k < ids.len() && component(pairs, #[trigger] ids[k]).len()
                    == #[trigger] sizes[i],
{
    let all = ids.map_values(|x: i64| component(pairs, x));
    let k = choose|k: int| 0 <= k < ids.len() && ids[k] == a;
    assert(all[k] == component(pairs, a));
    assert(parts.to_set().contains(component(pairs, a)));
    let i = choose|i: int| 0 <= i < parts.len() && parts[i] == component(pairs, a);
    assert(parts[i].finite() && parts[i].len() == sizes[i]);
    group.unique_seq_to_set();
    if forall|k: int| 0 <= k < group.len() ==> connected(pairs, a, #[trigger] group[k]) {
        assert(group.to_set().subset_of(parts[i]));
        vstd::set_lib::lemma_len_subset(group.to_set(), parts[i]);
        assert(group.len() <= sizes[i]);
    }
    if forall|b: i64| connected(pairs, a, b) <==> #[trigger] group.contains(b) {
        assert(group.to_set() =~= parts[i]);
        assert(group.len() == sizes[i]);
    }
    assert forall|i: int| 0 <= i < sizes.len() implies exists|k: int|
        0 <= k < ids.len() && component(pairs, #[trigger] ids[k]).len() == #[trigger] sizes[i] by {
        assert(parts[i].len() == sizes[i]);
        assert(parts.to_set().contains(parts[i]));
        assert(all.contains(parts[i]));
        let k = choose|k: int| 0 <= k < all.len() && all[k] == parts[i];
        assert(component(pairs, ids[k]).len() == sizes[i]);
    }
}

/// The components come in the order in which the ids meet them: one more id adds what
/// is joined to it, unless an earlier one is joined to it.
pub proof fn law_components_come_as_they_are_met(pairs: Seq<(i64, i64)>, ids: Seq<i64>, a: i64)
    ensures
        ids.len() == 0 ==> met(pairs, ids).len() == 0,
        (exists|k: int| 0 <= k < ids.len() && connected(pairs, #[trigger] ids[k], a)) ==> met(
            pairs,
            ids.push(a),
        ) == met(pairs, ids),
        (forall|k: int| 0 <= k < ids.len() ==> !connected(pairs, #[trigger] ids[k], a)) ==> ({
            let after = met(pairs, ids.push(a));
            &&& after.len() == met(pairs, ids).len() + 1
            &&& after.drop_last() == met(pairs, ids)
            &&& forall|b: i64| #[trigger] after.last().contains(b) <==> connected(pairs, a, b)
        }),
{
    let before = met(pairs, ids);
    let part = component(pairs, a);
    assert(ids.push(a).drop_last() =~= ids);
    lemma_met_holds(pairs, ids, part);
    law_component_reflexive(pairs, a);
    if exists|k: int| 0 <= k < ids.len() && connected(pairs, #[trigger] ids[k], a) {
        let k = choose|k: int| 0 <= k < ids.len() && connected(pairs, #[trigger] ids[k], a);
        law_components_partition(pairs, ids[k], a);
        assert(component(pairs, ids[k]).contains(a));
        assert(component(pairs, ids[k]) == part);
    }
    if forall|k: int| 0 <= k < ids.len() ==> !connected(pairs, #[trigger] ids[k], a) {
        if before.contains(part) {
            let k = choose|k: int| 0 <= k < ids.len() && component(pairs, #[trigger] ids[k]) == part;
            assert(component(pairs, ids[k]).contains(a));
        }
        assert(before.push(part).drop_last() =~= before);
    }
}

proof fn lemma_met_holds(pairs: Seq<(i64, i64)>, ids: Seq<i64>, part: Set<i64>)
    ensures
        met(pairs, ids).contains(part) <==> exists|k: int|
            0 <= k < ids.len() && component(pairs, #[trigger] ids[k]) == part,
    decreases ids.len(),
{
    if ids.len() > 0 {
        let rest = ids.drop_last();
        let before = met(pairs, rest);
        let last = component(pairs, ids.last());
        lemma_met_holds(pairs, rest, part);
        lemma_met_holds(pairs, rest, last);
        if met(pairs, ids).contains(part) {
            let j = choose|j: int| 0 <= j < met(pairs, ids).len() && met(pairs, ids)[j] == part;
            if j < before.len() {
                assert(before[j] == part);
                let k = choose|k: int|
                    0 <= k < rest.len() && component(pairs, #[trigger] rest[k]) == part;
                assert(component(pairs, ids[k]) == part);
            } else {
                assert(component(pairs, ids[ids.len() - 1]) == part);
            }
        }
        if exists|k: int| 0 <= k < ids.len() && component(pairs, #[trigger] ids[k]) == part {
            let k = choose|k: int| 0 <= k < ids.len() && component(pairs, #[trigger] ids[k]) == part;
            if k < rest.len() {
                assert(component(pairs, rest[k]) == part);
                let j = choose|j: int| 0 <= j < before.len() && before[j] == part;
                assert(met(pairs, ids)[j] == part);
            } else if !before.contains(last) {
                assert(met(pairs, ids)[before.len() as int] == part);
            }
        }
    }
}

/// Every id is in its own component.
pub proof fn law_component_reflexive(pairs: Seq<(i64, i64)>, a: i64)
    ensures
        component(pairs, a).contains(a),
{
    assert(walk_between(pairs, a, a, seq![a]));
}

proof fn lemma_walk_step(pairs: Seq<(i64, i64)>, a: i64, b: i64, c: i64)
    requires
        connected(pairs, a, b),
        adjacent(pairs, b, c),
    ensures
        connected(pairs, a, c),
{
    let p = choose|p: Seq<i64>| walk_between(pairs, a, b, p);
    let q = p.push(c);
    assert forall|i: int| 0 <= i < q.len() - 1 implies adjacent(pairs, #[trigger] q[i], q[i + 1]) by {
        if i < p.len() - 1 {
            assert(adjacent(pairs, p[i], p[i + 1]));
        } else {
            assert(q[i] == p.last());
        }
    }
    assert(walk_between(pairs, a, c, q));
}

/// A closed set that holds the start of a walk holds all of it.
proof fn lemma_closed_keeps_walk(pairs: Seq<(i64, i64)>, s: Set<i64>, p: Seq<i64>, k: int)
    requires
        is_closed(pairs, s),
        is_walk(pairs, p),
        s.contains(p.first()),
        0 <= k < p.len(),
    ensures
        s.contains(p[k]),
    decreases k,
{
    if k > 0 {
        lemma_closed_keeps_walk(pairs, s, p, k - 1);
        assert(adjacent(pairs, p[k - 1], p[k - 1 + 1]));
    }
}

/// Being in one component goes both ways and passes on, so that two components
/// either have no id in common or are the same.
pub proof fn law_components_partition(pairs: Seq<(i64, i64)>, a: i64, b: i64)
    ensures
        component(pairs, a).disjoint(component(pairs, b)) || component(pairs, a) == component(
            pairs,
            b,
        ),
{
    if !component(pairs, a).disjoint(component(pairs, b)) {
        let c = choose|c: i64|
            component(pairs, a).contains(c) && component(pairs, b).contains(c);
        lemma_component_closed(pairs, a);
        lemma_component_closed(pairs, b);
        let pa = choose|p: Seq<i64>| walk_between(pairs, a, c, p);
        let pb = choose|p: Seq<i64>| walk_between(pairs, b, c, p);
        lemma_back_walk(pairs, b, c, pb);
        let cb = choose|p: Seq<i64>| walk_between(pairs, c, b, p);
        lemma_closed_keeps_walk(pairs, component(pairs, a), cb, cb.len() - 1);
        lemma_back_walk(pairs, a, c, pa);
        let ca = choose|p: Seq<i64>| walk_between(pairs, c, a, p);
        lemma_closed_keeps_walk(pairs, component(pairs, b), ca, ca.len() - 1);
        assert forall|x: i64| component(pairs, a).contains(x) implies component(
            pairs,
            b,
        ).contains(x) by {
            let p = choose|p: Seq<i64>| walk_between(pairs, a, x, p);
            lemma_closed_keeps_walk(pairs, component(pairs, b), p, p.len() - 1);
        }
        assert forall|x: i64| component(pairs, b).contains(x) implies component(
            pairs,
            a,
        ).contains(x) by {
            let p = choose|p: Seq<i64>| walk_between(pairs, b, x, p);
            lemma_closed_keeps_walk(pairs, component(pairs, a), p, p.len() - 1);
        }
        assert(component(pairs, a) =~= component(pairs, b));
    }
}

proof fn lemma_component_closed(pairs: Seq<(i64, i64)>, a: i64)
    ensures
        is_closed(pairs, component(pairs, a)),
{
    assert forall|v: i64, w: i64|
        component(pairs, a).contains(v) && #[trigger] adjacent(pairs, v, w) implies component(
        pairs,
        a,
    ).contains(w) by {
        lemma_walk_step(pairs, a, v, w);
    }
}

/// A walk can be gone backwards.
proof fn lemma_back_walk(pairs: Seq<(i64, i64)>, a: i64, b: i64, p: Seq<i64>)
    requires
        walk_between(pairs, a, b, p),
    ensures
        walk_between(pairs, b, a, p.reverse()),
        connected(pairs, b, a),
{
    let q = p.reverse();
    assert forall|i: int| 0 <= i < q.len() - 1 implies adjacent(pairs, #[trigger] q[i], q[i + 1]) by {
        let j = p.len() - 2 - i;
        assert(adjacent(pairs, p[j], p[j + 1]));
    }
}

proof fn lemma_component_bounded(pairs: Seq<(i64, i64)>, a: i64)
    ensures
        component(pairs, a).subset_of(endpoints(pairs).insert(a)),
        component(pairs, a).finite(),
{
    lemma_endpoints_finite(pairs);
    assert forall|b: i64| component(pairs, a).contains(b) implies endpoints(pairs).insert(
        a,
    ).contains(b) by {
        let p = choose|p: Seq<i64>| walk_between(pairs, a, b, p);
        if p.len() > 1 {
            let k = p.len() - 2;
            assert(adjacent(pairs, p[k], p[k + 1]));
            lemma_endpoints(pairs, p[k], p[k + 1]);
        }
    }
    vstd::set_lib::lemma_set_subset_finite(endpoints(pairs).insert(a), component(pairs, a));
}

/// Breadth-first walk over the component of `start`, all of which it adds to `visited`.
fn visit_component(
    adj: &Adjacency,
    start: i64,
    visited: &mut HashSet<i64>,
    Ghost(pairs): Ghost<Seq<(i64, i64)>>,
)
    requires
        adj.of_pairs(pairs),
        is_closed(pairs, old(visited)@),
        !old(visited)@.contains(start),
        old(visited)@.finite(),
    ensures
        final(visited)@ == old(visited)@ + component(pairs, start),
        old(visited)@.disjoint(component(pairs, start)),
        is_closed(pairs, final(visited)@),
        final(visited)@.finite(),
{
    let ghost old_set = visited@;
    let ghost all = endpoints(pairs).insert(start);
    let ghost part = component(pairs, start);
    let mut queue: VecDeque<i64> = VecDeque::new();
    queue.push_back(start);
    visited.insert(start);
    proof {
        lemma_endpoints_finite(pairs);
        law_component_reflexive(pairs, start);
        assert(queue@[0] == start);
    }
    while queue.len() > 0
        invariant
            adj.of_pairs(pairs),
            part == component(pairs, start),
            all == endpoints(pairs).insert(start),
            all.finite(),
            visited@.finite(),
            is_closed(pairs, old_set),
            !old_set.contains(start),
            old_set.subset_of(visited@),
            visited@.contains(start),
            forall|v: i64| #[trigger]
                visited@.contains(v) ==> old_set.contains(v) || (part.contains(v) && all.contains(v)),
            forall|i: int| 0 <= i < queue@.len() ==> visited@.contains(#[trigger] queue@[i]),
            forall|i: int| 0 <= i < queue@.len() ==> !old_set.contains(#[trigger] queue@[i]),
            forall|v: i64, w: i64|
                visited@.contains(v) && !queue@.contains(v) && #[trigger] adjacent(pairs, v, w)
                    ==> visited@.contains(w),
        decreases all.difference(visited@).len(), queue@.len(),
    {
        let ghost queue0 = queue@;
        let ghost visited0 = visited@;
        let current: i64 = match queue.pop_front() {
            Some(n) => n,
            None => start,
        };
        let ghost rest = queue@;
        assert(current == queue0[0]);
        assert forall|i: int| 0 <= i < rest.len() implies rest[i] == queue0[i + 1] by {}
        assert forall|v: i64| queue0.contains(v) && v != current implies rest.contains(v) by {
            let i = choose|i: int| 0 <= i < queue0.len() && queue0[i] == v;
            assert(rest[i - 1] == v);
        }
        assert(visited@.contains(current) && !old_set.contains(current));
        if let Some(list) = adj.get(current) {
            let mut k: usize = 0;
            while k < list.len()
                invariant
                    part == component(pairs, start),
                    all == endpoints(pairs).insert(start),
                    all.finite(),
                    visited@.finite(),
                    is_closed(pairs, old_set),
                    list@ == ends(pairs, current),
                    k <= list@.len(),
                    part.contains(current),
                    !old_set.contains(current),
                    old_set.subset_of(visited@),
                    visited@.contains(start),
                    forall|v: i64| #[trigger]
                        visited@.contains(v) ==> old_set.contains(v) || (part.contains(v)
                            && all.contains(v)),
                    forall|i: int|
                        0 <= i < queue@.len() ==> visited@.contains(#[trigger] queue@[i]),
                    forall|i: int|
                        0 <= i < queue@.len() ==> !old_set.contains(#[trigger] queue@[i]),
                    forall|v: i64, w: i64|
                        visited@.contains(v) && v != current && !queue@.contains(v)
                            && #[trigger] adjacent(pairs, v, w) ==> visited@.contains(w),
                    forall|j: int| 0 <= j < k ==> visited@.contains(#[trigger] list@[j]),
                    (visited@ == visited0 && queue@ == rest) || all.difference(visited@).len()
                        < all.difference(visited0).len(),
                decreases list@.len() - k,
            {
                let n: i64 = list[k];
                if !visited.contains(&n) {
                    let ghost queue1 = queue@;
                    let ghost visited1 = visited@;
                    proof {
                        assert(list@.contains(n));
                        lemma_ends(pairs, current, n);
                        lemma_walk_step(pairs, start, current, n);
                        lemma_endpoints(pairs, current, n);
                    }
                    visited.insert(n);
                    queue.push_back(n);
                    proof {
                        assert(all.difference(visited@) =~= all.difference(visited1).remove(n));
                        assert(queue@ =~= queue1.push(n));
                        assert(queue@[queue1.len() as int] == n);
                        assert forall|v: i64| queue1.contains(v) implies queue@.contains(v) by {
                            let i = choose|i: int| 0 <= i < queue1.len() && queue1[i] == v;
                            assert(queue@[i] == v);
                        }
                        assert(!old_set.contains(n));
                    }
                }
                k = k + 1;
            }
        }
        proof {
            assert forall|v: i64, w: i64|
                visited@.contains(v) && !queue@.contains(v) && #[trigger] adjacent(
                    pairs,
                    v,
                    w,
                ) implies visited@.contains(w) by {
                if v == current {
                    lemma_ends(pairs, current, w);
                    assert(adj.list(current) == ends(pairs, current));
                    let j = choose|j: int|
                        0 <= j < ends(pairs, current).len() && ends(pairs, current)[j]
                            == w;
                    assert(visited@.contains(w));
                }
            }
        }
    }
    proof {
        assert(is_closed(pairs, visited@));
        assert forall|b: i64| part.contains(b) implies visited@.contains(b) && !old_set.contains(
            b,
        ) by {
            let p = choose|p: Seq<i64>| walk_between(pairs, start, b, p);
            lemma_closed_keeps_walk(pairs, visited@, p, p.len() - 1);
            if old_set.contains(b) {
                lemma_back_walk(pairs, start, b, p);
                let q = p.reverse();
                lemma_closed_keeps_walk(pairs, old_set, q, q.len() - 1);
            }
        }
        assert(visited@ =~= old_set + part);
        assert(old_set.disjoint(part));
    }
}

/// How many ids each component has that the ids of `ids` lie in, each component
/// counted once, in the order in which `ids` first meets them.
pub fn component_sizes(pairs: &Vec<(i64, i64)>, ids: &Vec<i64>) -> (sizes: Vec<usize>)
    ensures
        sizes_listed(pairs@, ids@, met(pairs@, ids@), sizes@),
{
    let adj = Adjacency::build(pairs);
    let mut visited: HashSet<i64> = HashSet::new();
    let mut sizes: Vec<usize> = Vec::new();
    let ghost mut parts: Seq<Set<i64>> = Seq::empty();
    let mut i: usize = 0;
    proof {
        assert(visited@ =~= Set::empty());
        assert(parts.to_set() =~= components(pairs@, ids@.take(0)));
    }
    while i < ids.len()
        invariant
            adj.of_pairs(pairs@),
            i <= ids@.len(),
            visited@.finite(),
            is_closed(pairs@, visited@),
            parts == met(pairs@, ids@.take(i as int)),
            sizes_listed(pairs@, ids@.take(i as int), parts, sizes@),
            forall|k: int| 0 <= k < parts.len() ==> (#[trigger] parts[k]).subset_of(visited@),
            forall|v: i64| #[trigger] visited@.contains(v) ==> parts.contains(component(pairs@, v)),
        decreases ids@.len() - i,
    {
        let id: i64 = ids[i];
        let ghost part = component(pairs@, id);
        let ghost before = ids@.take(i as int);
        let ghost after = ids@.take(i + 1);
        let ghost f = |a: i64| component(pairs@, a);
        proof {
            assert(after =~= before.push(id));
            assert(after.drop_last() =~= before);
            assert(after.map_values(f) =~= before.map_values(f).push(part));
            before.map_values(f).lemma_push_to_set_commute(part);
            law_component_reflexive(pairs@, id);
            lemma_component_bounded(pairs@, id);
        }
        if !visited.contains(&id) {
            let start_len: usize = visited.len();
            let ghost visited0 = visited@;
            let ghost parts0 = parts;
            let ghost sizes0 = sizes@;
            visit_component(&adj, id, &mut visited, Ghost(pairs@));
            let end_len: usize = visited.len();
            proof {
                vstd::set_lib::lemma_set_disjoint_lens(visited0, part);
            }
            sizes.push(end_len - start_len);
            proof {
                parts = parts.push(part);
                assert(!parts0.contains(part)) by {
                    if parts0.contains(part) {
                        let k = choose|k: int| 0 <= k < parts0.len() && parts0[k] == part;
                        assert(parts0[k].subset_of(visited0));
                        assert(visited0.contains(id));
                    }
                }
                assert(parts.no_duplicates());
                parts0.lemma_push_to_set_commute(part);
                assert(parts.to_set() == components(pairs@, after));
                assert forall|k: int| 0 <= k < parts.len() implies (#[trigger] parts[k]).finite()
                    && parts[k].len() == sizes@[k] by {
                    if k < parts0.len() {
                        assert(parts[k] == parts0[k]);
                    }
                }
                assert forall|v: i64| #[trigger] visited@.contains(v) implies parts.contains(
                    component(pairs@, v),
                ) by {
                    if visited0.contains(v) {
                        let k = choose|k: int|
                            0 <= k < parts0.len() && parts0[k] == component(pairs@, v);
                        assert(parts[k] == component(pairs@, v));
                    } else {
                        law_component_reflexive(pairs@, v);
                        law_components_partition(pairs@, id, v);
                        assert(parts[parts0.len() as int] == part);
                    }
                }
            }
        } else {
            proof {
                assert(parts.contains(part));
                assert(parts.to_set().contains(part));
                assert(before.map_values(f).to_set().insert(part) =~= before.map_values(f).to_set());
            }
        }
        i = i + 1;
    }
    assert(ids@.take(i as int) =~= ids@);
    sizes
}

} // verus!
