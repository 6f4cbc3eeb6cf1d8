//! Common connections and figures about the graph.
use std::collections::HashSet;

use vstd::prelude::*;
use vstd::relations::*;
use vstd::std_specs::hash::*;
use vstd::string::*;

use super::model::{is_follow, is_follow_of, Tables, UserRowModel};
use super::reads::{logins, sort_texts};
use super::users::row_models;
use super::Db;
use crate::graph::first_of;
use crate::lists::{lemma_filter_holds, lemma_filter_none, lemma_filter_step};
use crate::order::{keys, num_order, sort, sorted_texts, NumKey, Ranked};
use crate::text::{same, views};
use crate::types::{edge_models, DegreeDist, EdgeModel};

verus! {

/// All of the list where the limit is zero, else its first elements.
pub open spec fn limited<T>(s: Seq<T>, limit: nat) -> Seq<T> {
    if limit == 0 {
        s
    } else {
        first_of(s, limit)
    }
}

/// At most `limit` elements of a list; all of them where the limit is zero.
pub fn apply_limit(v: Vec<String>, limit: usize) -> (r: Vec<String>)
    ensures
        views(r@) == limited(views(v@), limit as nat),
{
    let mut r: Vec<String> = v;
    if limit > 0 && r.len() > limit {
        r.truncate(limit);
        assert(views(r@) =~= views(v@).take(limit as int));
    }
    r
}

/// The users that both of two users follow, by login.
pub open spec fn common_following(t: Tables, a: i64, b: i64) -> Seq<Seq<char>> {
    sorted_texts(
        logins(t.users.filter(|r: UserRowModel| t.follows(a, r.id) && t.follows(b, r.id))),
    )
}

/// The users that follow both of two users, by login.
pub open spec fn common_followers(t: Tables, a: i64, b: i64) -> Seq<Seq<char>> {
    sorted_texts(
        logins(t.users.filter(|r: UserRowModel| t.follows(r.id, a) && t.follows(r.id, b))),
    )
}

/// The ids at which the edges that satisfy `p` start.
pub open spec fn sources(edges: Seq<EdgeModel>, p: spec_fn(EdgeModel) -> bool) -> Set<i64> {
    edges.filter(p).map_values(|e: EdgeModel| e.from).to_set()
}

/// The ids at which the edges that satisfy `p` end.
pub open spec fn targets(edges: Seq<EdgeModel>, p: spec_fn(EdgeModel) -> bool) -> Set<i64> {
    edges.filter(p).map_values(|e: EdgeModel| e.to).to_set()
}

/// An active edge of this degree.
pub open spec fn at_degree(degree: i32) -> spec_fn(EdgeModel) -> bool {
    |e: EdgeModel| e.is_active && e.degree == degree
}

/// An active edge of the type `follows`.
pub open spec fn any_follow() -> spec_fn(EdgeModel) -> bool {
    |e: EdgeModel| is_follow(e)
}

/// `d` lists each degree that an active edge has, in ascending order, with the
/// number of users that such edges leave.
pub open spec fn is_distribution(edges: Seq<EdgeModel>, d: Seq<DegreeDist>) -> bool {
    &&& forall|i: int, j: int|
        0 <= i < j < d.len() ==> (#[trigger] d[i]).degree < (#[trigger] d[j]).degree
    &&& forall|i: int|
        0 <= i < d.len() ==> (#[trigger] d[i]).count as int == sources(
            edges,
            at_degree(d[i].degree),
        ).len() && d[i].count > 0
    &&& forall|k: int|
        0 <= k < edges.len() && (#[trigger] edges[k]).is_active ==> exists|i: int|
            0 <= i < d.len() && (#[trigger] d[i]).degree == edges[k].degree
}

/// Of two distributions of the same edges neither says anything else.
pub proof fn law_distribution_is_unique(
    edges: Seq<EdgeModel>,
    d: Seq<DegreeDist>,
    e: Seq<DegreeDist>,
    i: int,
)
    requires
        is_distribution(edges, d),
        is_distribution(edges, e),
        0 <= i < d.len(),
    ensures
        e.contains(d[i]),
{
    let degree = d[i].degree;
    let p = at_degree(degree);
    lemma_filter_holds(edges, p);
    let f = edges.filter(p);
    let ids = f.map_values(|x: EdgeModel| x.from);
    if f.len() == 0 {
        assert(ids.to_set() =~= Set::empty());
    }
    assert(f.contains(f[0]));
    let k = choose|k: int| 0 <= k < edges.len() && edges[k] == f[0];
    assert(edges[k].is_active && edges[k].degree == degree);
    let j = choose|j: int| 0 <= j < e.len() && (#[trigger] e[j]).degree == edges[k].degree;
    assert(e[j].count == d[i].count);
    assert(e[j] == d[i]);
}

/// An id is among the sources exactly when an edge that satisfies `p` starts there, and
/// among the targets exactly when one ends there.
pub proof fn law_sources_and_targets(
    edges: Seq<EdgeModel>,
    p: spec_fn(EdgeModel) -> bool,
    id: i64,
)
    ensures
        sources(edges, p).contains(id) <==> exists|k: int|
            0 <= k < edges.len() && (#[trigger] edges[k]).from == id && p(edges[k]),
        targets(edges, p).contains(id) <==> exists|k: int|
            0 <= k < edges.len() && (#[trigger] edges[k]).to == id && p(edges[k]),
{
    let f = edges.filter(p);
    let a = f.map_values(|e: EdgeModel| e.from);
    let b = f.map_values(|e: EdgeModel| e.to);
    lemma_filter_holds(edges, p);
    if a.contains(id) {
        let i = choose|i: int| 0 <= i < a.len() && a[i] == id;
        assert(f.contains(f[i]));
        let k = choose|k: int| 0 <= k < edges.len() && edges[k] == f[i];
        assert(edges[k].from == id && p(edges[k]));
    }
    if b.contains(id) {
        let i = choose|i: int| 0 <= i < b.len() && b[i] == id;
        assert(f.contains(f[i]));
        let k = choose|k: int| 0 <= k < edges.len() && edges[k] == f[i];
        assert(edges[k].to == id && p(edges[k]));
    }
    assert forall|k: int| 0 <= k < edges.len() && p(#[trigger] edges[k]) implies a.contains(
        edges[k].from,
    ) && b.contains(edges[k].to) by {
        assert(edges.contains(edges[k]));
        assert(f.contains(edges[k]));
        let i = choose|i: int| 0 <= i < f.len() && f[i] == edges[k];
        assert(a[i] == edges[k].from);
        assert(b[i] == edges[k].to);
    }
}

/// A degree is listed exactly when an active edge has it, and the listed ones ascend.
pub proof fn law_listed_degrees(edges: Seq<EdgeModel>, d: Seq<DegreeDist>, degree: i32)
    requires
        is_distribution(edges, d),
    ensures
        (exists|i: int| 0 <= i < d.len() && (#[trigger] d[i]).degree == degree) <==> exists|k: int|
            0 <= k < edges.len() && (#[trigger] edges[k]).is_active && edges[k].degree == degree,
        forall|i: int, j: int|
            0 <= i < j < d.len() ==> (#[trigger] d[i]).degree < (#[trigger] d[j]).degree,
{
    if exists|i: int| 0 <= i < d.len() && (#[trigger] d[i]).degree == degree {
        let i = choose|i: int| 0 <= i < d.len() && (#[trigger] d[i]).degree == degree;
        let p = at_degree(degree);
        let f = edges.filter(p);
        lemma_filter_holds(edges, p);
        if f.len() == 0 {
            assert(f.map_values(|x: EdgeModel| x.from).to_set() =~= Set::empty());
        }
        assert(f.contains(f[0]));
        let k = choose|k: int| 0 <= k < edges.len() && edges[k] == f[0];
        assert(edges[k].is_active && edges[k].degree == degree);
    }
}

/// At each listed degree as many users are counted as there are starts of active edges
/// of that degree, each once.
pub proof fn law_users_are_counted_at_a_degree(
    edges: Seq<EdgeModel>,
    d: Seq<DegreeDist>,
    i: int,
    ids: Seq<i64>,
)
    requires
        is_distribution(edges, d),
        0 <= i < d.len(),
        ids.no_duplicates(),
        forall|id: i64| #[trigger]
            ids.contains(id) <==> exists|k: int|
                0 <= k < edges.len() && (#[trigger] edges[k]).is_active && edges[k].degree
                    == d[i].degree && edges[k].from == id,
    ensures
        d[i].count == ids.len(),
{
    let s = sources(edges, at_degree(d[i].degree));
    assert forall|id: i64| s.contains(id) <==> ids.to_set().contains(id) by {
        law_sources_and_targets(edges, at_degree(d[i].degree), id);
        assert(ids.to_set().contains(id) <==> ids.contains(id));
        if s.contains(id) {
            let k = choose|k: int|
                0 <= k < edges.len() && (#[trigger] edges[k]).from == id && at_degree(
                    d[i].degree,
                )(edges[k]);
            assert(edges[k].is_active && edges[k].degree == d[i].degree && edges[k].from == id);
        }
        if ids.contains(id) {
            let k = choose|k: int|
                0 <= k < edges.len() && (#[trigger] edges[k]).is_active && edges[k].degree
                    == d[i].degree && edges[k].from == id;
            assert(at_degree(d[i].degree)(edges[k]));
        }
    }
    assert(s =~= ids.to_set());
    ids.unique_seq_to_set();
}

/// As many users follow somebody as there are starts of active edges of the type
/// `follows`, and as many are followed as there are ends, each counted once.
pub proof fn law_connected_users_are_counted(edges: Seq<EdgeModel>, from: Seq<i64>, to: Seq<i64>)
    requires
        from.no_duplicates(),
        to.no_duplicates(),
        forall|id: i64| #[trigger]
            from.contains(id) <==> exists|k: int|
                0 <= k < edges.len() && (#[trigger] edges[k]).is_active && edges[k].kind
                    == "follows"@ && edges[k].from == id,
        forall|id: i64| #[trigger]
            to.contains(id) <==> exists|k: int|
                0 <= k < edges.len() && (#[trigger] edges[k]).is_active && edges[k].kind
                    == "follows"@ && edges[k].to == id,
    ensures
        sources(edges, any_follow()).len() == from.len(),
        targets(edges, any_follow()).len() == to.len(),
{
    let p = any_follow();
    assert forall|id: i64| sources(edges, p).contains(id) <==> from.to_set().contains(id) by {
        law_sources_and_targets(edges, p, id);
        assert(from.to_set().contains(id) <==> from.contains(id));
        if sources(edges, p).contains(id) {
            let k = choose|k: int|
                0 <= k < edges.len() && (#[trigger] edges[k]).from == id && p(edges[k]);
            assert(edges[k].is_active);
        }
        if from.contains(id) {
            let k = choose|k: int|
                0 <= k < edges.len() && (#[trigger] edges[k]).is_active && edges[k].kind
                    == "follows"@ && edges[k].from == id;
            assert(p(edges[k]));
        }
    }
    assert forall|id: i64| targets(edges, p).contains(id) <==> to.to_set().contains(id) by {
        law_sources_and_targets(edges, p, id);
        assert(to.to_set().contains(id) <==> to.contains(id));
        if targets(edges, p).contains(id) {
            let k = choose|k: int|
                0 <= k < edges.len() && (#[trigger] edges[k]).to == id && p(edges[k]);
            assert(edges[k].is_active);
        }
        if to.contains(id) {
            let k = choose|k: int|
                0 <= k < edges.len() && (#[trigger] edges[k]).is_active && edges[k].kind
                    == "follows"@ && edges[k].to == id;
            assert(p(edges[k]));
        }
    }
    assert(sources(edges, p) =~= from.to_set());
    assert(targets(edges, p) =~= to.to_set());
    from.unique_seq_to_set();
    to.unique_seq_to_set();
}

impl Db {
    /// The ids at the other end of the active `follows` edges of a user: those
    /// that the user follows where `out` is set, else those that follow the user.
    pub(crate) fn linked(&self, user_id: i64, out: bool) -> (r: HashSet<i64>)
        requires
            self.wf(),
        ensures
            forall|id: i64|
                #![trigger r@.contains(id)]
                r@.contains(id) == (if out {
                    self@.follows(user_id, id)
                } else {
                    self@.follows(id, user_id)
                }),
    {
        broadcast use group_hash_axioms;

        let ghost t = self@;
        let rows = self.edges.rows();
        let mut r: HashSet<i64> = HashSet::new();
        let mut i: usize = 0;
        while i < rows.len()
            invariant
                edge_models(rows@) == t.edges,
                rows@.len() == t.edges.len(),
                i <= rows@.len(),
                forall|id: i64|
                    #![trigger r@.contains(id)]
                    r@.contains(id) <==> exists|k: int|
                        0 <= k < i && (if out {
                            is_follow_of(#[trigger] t.edges[k], user_id, id)
                        } else {
                            is_follow_of(t.edges[k], id, user_id)
                        }),
            decreases rows@.len() - i,
        {
            let ghost r0 = r@;
            let e = &rows[i];
            assert(e@ == edge_models(rows@)[i as int]);
            let mine: i64 = if out {
                e.from_user_id
            } else {
                e.to_user_id
            };
            let other: i64 = if out {
                e.to_user_id
            } else {
                e.from_user_id
            };
            let hit: bool = mine == user_id && e.is_active && same(
                e.edge_type.as_str(),
                "follows",
            );
            if hit {
                r.insert(other);
            }
            proof {
                assert forall|id: i64| #![trigger r@.contains(id)] r@.contains(id) <==> exists|
                    k: int,
                |
                    0 <= k < i + 1 && (if out {
                        is_follow_of(#[trigger] t.edges[k], user_id, id)
                    } else {
                        is_follow_of(t.edges[k], id, user_id)
                    }) by {
                    let at_i = if out {
                        is_follow_of(t.edges[i as int], user_id, id)
                    } else {
                        is_follow_of(t.edges[i as int], id, user_id)
                    };
                    assert(at_i == (hit && id == other));
                    assert(r@.contains(id) == (r0.contains(id) || at_i));
                    if r0.contains(id) {
                        let k = choose|k: int|
                            0 <= k < i && (if out {
                                is_follow_of(#[trigger] t.edges[k], user_id, id)
                            } else {
                                is_follow_of(t.edges[k], id, user_id)
                            });
                        assert(0 <= k < i + 1);
                    }
                }
            }
            i = i + 1;
        }
        proof {
            assert forall|id: i64| #![trigger r@.contains(id)] r@.contains(id) == (if out {
                t.follows(user_id, id)
            } else {
                t.follows(id, user_id)
            }) by {
                if out {
                    if t.follows(user_id, id) {
                        let k = choose|k: int|
                            0 <= k < t.edges.len() && is_follow_of(
                                #[trigger] t.edges[k],
                                user_id,
                                id,
                            );
                        assert(0 <= k < i);
                    }
                } else {
                    if t.follows(id, user_id) {
                        let k = choose|k: int|
                            0 <= k < t.edges.len() && is_follow_of(
                                #[trigger] t.edges[k],
                                id,
                                user_id,
                            );
                        assert(0 <= k < i);
                    }
                }
            }
        }
        r
    }

    /// The logins of the users that are in both sets, in alphabetical order.
    pub(crate) fn logins_in(&self, a: &HashSet<i64>, b: &HashSet<i64>) -> (r: Vec<String>)
        requires
            self.wf(),
        ensures
            views(r@) == sorted_texts(
                logins(
                    self@.users.filter(|u: UserRowModel| a@.contains(u.id) && b@.contains(u.id)),
                ),
            ),
    {
        broadcast use group_hash_axioms;

        let ghost t = self@.users;
        let ghost p = |u: UserRowModel| a@.contains(u.id) && b@.contains(u.id);
        let rows = self.users.rows();
        let mut r: Vec<String> = Vec::new();
        let mut i: usize = 0;
        proof {
            lemma_filter_none(t, p);
            assert(views(r@) =~= logins(t.take(0).filter(p)));
        }
        while i < rows.len()
            invariant
                row_models(rows@) == t,
                rows@.len() == t.len(),
                p == (|u: UserRowModel| a@.contains(u.id) && b@.contains(u.id)),
                i <= rows@.len(),
                views(r@) == logins(t.take(i as int).filter(p)),
            decreases rows@.len() - i,
        {
            proof {
                lemma_filter_step(t, p, i as int);
            }
            let ghost r0 = views(r@);
            let ghost before = t.take(i as int).filter(p);
            let row = &rows[i];
            assert(row@ == row_models(rows@)[i as int]);
            if a.contains(&row.id) && b.contains(&row.id) {
                r.push(row.login.clone());
                assert(views(r@) =~= r0.push(row.login@));
                assert(logins(before.push(t[i as int])) =~= logins(before).push(row.login@));
            }
            i = i + 1;
        }
        assert(t.take(i as int) =~= t);
        sort_texts(r)
    }

    /// The logins of the users that both users follow, at most `limit` of them
    /// (all where it is zero).
    pub fn get_common_following(&self, user1_id: i64, user2_id: i64, limit: usize) -> (r: Vec<
        String,
    >)
        requires
            self.wf(),
        ensures
            views(r@) == limited(common_following(self@, user1_id, user2_id), limit as nat),
    {
        let a = self.linked(user1_id, true);
        let b = self.linked(user2_id, true);
        let r = self.logins_in(&a, &b);
        proof {
            let p = |u: UserRowModel| a@.contains(u.id) && b@.contains(u.id);
            let q = |r: UserRowModel|
                self@.follows(user1_id, r.id) && self@.follows(user2_id, r.id);
            assert(p =~= q);
        }
        apply_limit(r, limit)
    }

    /// The logins of the users that follow both users, at most `limit` of them
    /// (all where it is zero).
    pub fn get_common_followers(&self, user1_id: i64, user2_id: i64, limit: usize) -> (r: Vec<
        String,
    >)
        requires
            self.wf(),
        ensures
            views(r@) == limited(common_followers(self@, user1_id, user2_id), limit as nat),
    {
        let a = self.linked(user1_id, false);
        let b = self.linked(user2_id, false);
        let r = self.logins_in(&a, &b);
        proof {
            let p = |u: UserRowModel| a@.contains(u.id) && b@.contains(u.id);
            let q = |r: UserRowModel|
                self@.follows(r.id, user1_id) && self@.follows(r.id, user2_id);
            assert(p =~= q);
        }
        apply_limit(r, limit)
    }

    /// How many active `follows` edges there are.
    pub fn get_edge_count(&self) -> (r: usize)
        requires
            self.wf(),
        ensures
            r == self@.follow_pairs().len(),
    {
        let pairs = self.pairs(true);
        pairs.len()
    }

    /// The users that follow somebody, each once.
    pub fn get_users_with_outgoing_ids(&self) -> (r: Vec<i64>)
        requires
            self.wf(),
        ensures
            r@.no_duplicates(),
            r@.to_set() == sources(self@.edges, any_follow()),
    {
        let pairs = self.pairs(true);
        proof {
            let f = self@.edges.filter(|e: EdgeModel| is_follow(e));
            assert(any_follow() == (|e: EdgeModel| is_follow(e)));
            assert(pairs@.map_values(|p: (i64, i64)| p.0) =~= f.map_values(|e: EdgeModel| e.from));
        }
        distinct(&pairs, true)
    }

    /// How many users follow somebody.
    pub fn get_users_with_outgoing(&self) -> (r: usize)
        requires
            self.wf(),
        ensures
            r == sources(self@.edges, any_follow()).len(),
    {
        let ids = self.get_users_with_outgoing_ids();
        proof {
            ids@.unique_seq_to_set();
        }
        ids.len()
    }

    /// How many users somebody follows.
    pub fn get_users_with_incoming(&self) -> (r: usize)
        requires
            self.wf(),
        ensures
            r == targets(self@.edges, any_follow()).len(),
    {
        let pairs = self.pairs(true);
        proof {
            let f = self@.edges.filter(|e: EdgeModel| is_follow(e));
            assert(any_follow() == (|e: EdgeModel| is_follow(e)));
            assert(pairs@.map_values(|p: (i64, i64)| p.1) =~= f.map_values(|e: EdgeModel| e.to));
        }
        let ids = distinct(&pairs, false);
        proof {
            ids@.unique_seq_to_set();
        }
        ids.len()
    }

    /// How many users the user follows.
    pub fn get_following_count(&self, user_id: i64) -> (r: usize)
        requires
            self.wf(),
        ensures
            r == self@.edges.filter(|e: EdgeModel| is_follow(e) && e.from == user_id).len(),
    {
        let ghost t = self@.edges;
        let ghost p = |e: EdgeModel| is_follow(e) && e.from == user_id;
        let rows = self.edges.rows();
        let mut n: usize = 0;
        let mut i: usize = 0;
        proof {
            lemma_filter_none(t, p);
        }
        while i < rows.len()
            invariant
                edge_models(rows@) == t,
                rows@.len() == t.len(),
                p == (|e: EdgeModel| is_follow(e) && e.from == user_id),
                i <= rows@.len(),
                n <= i,
                n == t.take(i as int).filter(p).len(),
            decreases rows@.len() - i,
        {
            proof {
                lemma_filter_step(t, p, i as int);
            }
            let e = &rows[i];
            assert(e@ == edge_models(rows@)[i as int]);
            if e.from_user_id == user_id && e.is_active && same(
                e.edge_type.as_str(),
                "follows",
            ) {
                n = n + 1;
            }
            i = i + 1;
        }
        assert(t.take(i as int) =~= t);
        n
    }
}

/// A degree as a key to sort by.
spec fn degree_key(e: EdgeModel) -> NumKey {
    (e.degree as i64, 0i64, 0i64, 0usize)
}

impl Db {
    /// The degrees of the active edges in ascending order, each as often as it
    /// occurs.
    fn sorted_degrees(&self) -> (r: Vec<NumKey>)
        requires
            self.wf(),
        ensures
            sorted_by(r@, num_order()),
            forall|k: NumKey| #[trigger]
                r@.contains(k) <==> exists|i: int|
                    0 <= i < self@.edges.len() && (#[trigger] self@.edges[i]).is_active
                        && degree_key(self@.edges[i]) == k,
    {
        let ghost t = self@.edges;
        let rows = self.edges.rows();
        let mut v: Vec<NumKey> = Vec::new();
        let mut i: usize = 0;
        while i < rows.len()
            invariant
                edge_models(rows@) == t,
                rows@.len() == t.len(),
                i <= rows@.len(),
                forall|k: NumKey| #[trigger]
                    v@.contains(k) <==> exists|j: int|
                        0 <= j < i && (#[trigger] t[j]).is_active && degree_key(t[j]) == k,
            decreases rows@.len() - i,
        {
            let ghost v0 = v@;
            let e = &rows[i];
            assert(e@ == edge_models(rows@)[i as int]);
            if e.is_active {
                v.push((e.degree as i64, 0, 0, 0));
            }
            proof {
                assert forall|k: NumKey| #[trigger] v@.contains(k) <==> exists|j: int|
                    0 <= j < i + 1 && (#[trigger] t[j]).is_active && degree_key(t[j]) == k by {
                    let here = t[i as int].is_active && degree_key(t[i as int]) == k;
                    if v0.contains(k) {
                        let m = choose|m: int| 0 <= m < v0.len() && v0[m] == k;
                        assert(v@[m] == k);
                    }
                    if here {
                        assert(v@[v0.len() as int] == k);
                    }
                    if v@.contains(k) {
                        let m = choose|m: int| 0 <= m < v@.len() && v@[m] == k;
                        if m < v0.len() {
                            assert(v0[m] == k);
                        }
                    }
                    assert(v@.contains(k) <==> v0.contains(k) || here);
                }
            }
            i = i + 1;
        }
        let r = sort(v);
        proof {
            NumKey::order_is_total();
            assert(keys(v@) =~= v@);
            assert(keys(r@) =~= r@);
            v@.lemma_sort_by_ensures(num_order());
            v@.to_multiset_ensures();
            r@.to_multiset_ensures();
            assert forall|k: NumKey| #[trigger] r@.contains(k) <==> exists|i: int|
                0 <= i < self@.edges.len() && (#[trigger] self@.edges[i]).is_active && degree_key(
                    self@.edges[i],
                ) == k by {
                assert(r@.contains(k) <==> r@.to_multiset().count(k) > 0);
                assert(v@.contains(k) <==> v@.to_multiset().count(k) > 0);
            }
        }
        r
    }

    /// How many users have active outgoing edges of a degree.
    fn count_at(&self, degree: i32) -> (r: usize)
        requires
            self.wf(),
        ensures
            r == sources(self@.edges, at_degree(degree)).len(),
            r <= self@.edges.len(),
    {
        broadcast use group_hash_axioms;

        let ghost t = self@.edges;
        let ghost p = at_degree(degree);
        let ghost f = |e: EdgeModel| e.from;
        let rows = self.edges.rows();
        let mut seen: HashSet<i64> = HashSet::new();
        let mut i: usize = 0;
        proof {
            lemma_filter_none(t, p);
            assert(seen@ =~= t.take(0).filter(p).map_values(f).to_set());
        }
        while i < rows.len()
            invariant
                edge_models(rows@) == t,
                rows@.len() == t.len(),
                p == at_degree(degree),
                f == (|e: EdgeModel| e.from),
                i <= rows@.len(),
                seen@.finite(),
                seen@.len() <= i,
                seen@ == t.take(i as int).filter(p).map_values(f).to_set(),
            decreases rows@.len() - i,
        {
            proof {
                lemma_filter_step(t, p, i as int);
            }
            let ghost before = t.take(i as int).filter(p);
            let e = &rows[i];
            assert(e@ == edge_models(rows@)[i as int]);
            if e.is_active && e.degree == degree {
                seen.insert(e.from_user_id);
                proof {
                    let ids = before.map_values(f);
                    assert(before.push(t[i as int]).map_values(f) =~= ids.push(e.from_user_id));
                    lemma_push_set(ids, e.from_user_id);
                }
            }
            i = i + 1;
        }
        assert(t.take(i as int) =~= t);
        seen.len()
    }

    /// For each degree that an active edge has, in ascending order, how many users
    /// such edges leave.
    pub fn degree_distribution(&self) -> (r: Vec<DegreeDist>)
        requires
            self.wf(),
            self@.edges.len() <= i64::MAX,
        ensures
            is_distribution(self@.edges, r@),
    {
        let ghost t = self@.edges;
        let ks = self.sorted_degrees();
        let mut r: Vec<DegreeDist> = Vec::new();
        let mut i: usize = 0;
        while i < ks.len()
            invariant
                self.wf(),
                t == self@.edges,
                t.len() <= i64::MAX,
                sorted_by(ks@, num_order()),
                forall|k: NumKey| #[trigger]
                    ks@.contains(k) <==> exists|i: int|
                        0 <= i < t.len() && (#[trigger] t[i]).is_active && degree_key(t[i]) == k,
                i <= ks@.len(),
                forall|a: int, b: int|
                    0 <= a < b < r@.len() ==> (#[trigger] r@[a]).degree < (#[trigger] r@[b]).degree,
                forall|a: int|
                    0 <= a < r@.len() ==> (#[trigger] r@[a]).count as int == sources(
                        t,
                        at_degree(r@[a].degree),
                    ).len() && r@[a].count > 0,
                (i == 0) == (r@.len() == 0),
                i > 0 ==> r@.last().degree == ks@[i - 1].0,
                forall|m: int|
                    0 <= m < i ==> exists|a: int|
                        0 <= a < r@.len() && (#[trigger] r@[a]).degree == (#[trigger] ks@[m]).0,
            decreases ks@.len() - i,
        {
            let ghost r0 = r@;
            let key: NumKey = ks[i];
            proof {
                assert(ks@.contains(key));
            }
            let degree: i32 = key.0 as i32;
            let fresh: bool = i == 0 || ks[i - 1].0 != key.0;
            if fresh {
                let n: usize = self.count_at(degree);
                proof {
                    if i > 0 {
                        assert(num_order()(ks@[i - 1], ks@[i as int]));
                    }
                    let e = choose|e: int|
                        0 <= e < t.len() && (#[trigger] t[e]).is_active && degree_key(t[e]) == key;
                    lemma_source(t, e);
                }
                r.push(DegreeDist { degree, count: n as i64 });
            }
            proof {
                assert forall|m: int| 0 <= m < i + 1 implies exists|a: int|
                    0 <= a < r@.len() && (#[trigger] r@[a]).degree == (#[trigger] ks@[m]).0 by {
                    if m < i {
                        let a = choose|a: int|
                            0 <= a < r0.len() && (#[trigger] r0[a]).degree == ks@[m].0;
                        assert(r@[a].degree == ks@[m].0);
                    } else {
                        assert(r@[r@.len() - 1].degree == ks@[m].0);
                    }
                }
            }
            i = i + 1;
        }
        proof {
            assert forall|k: int| 0 <= k < t.len() && (#[trigger] t[k]).is_active implies exists|
                a: int,
            |
                0 <= a < r@.len() && (#[trigger] r@[a]).degree == t[k].degree by {
                let key = degree_key(t[k]);
                assert(ks@.contains(key));
                let m = choose|m: int| 0 <= m < ks@.len() && ks@[m] == key;
                let a = choose|a: int| 0 <= a < r@.len() && (#[trigger] r@[a]).degree == ks@[m].0;
                assert(r@[a].degree == t[k].degree);
            }
        }
        r
    }
}

/// An active edge has a source at its degree.
proof fn lemma_source(t: Seq<EdgeModel>, e: int)
    requires
        0 <= e < t.len(),
        t[e].is_active,
    ensures
        sources(t, at_degree(t[e].degree)).len() > 0,
{
    let p = at_degree(t[e].degree);
    let f = t.filter(p);
    let ids = f.map_values(|x: EdgeModel| x.from);
    lemma_filter_holds(t, p);
    assert(t.contains(t[e]));
    assert(f.contains(t[e]));
    let k = choose|k: int| 0 <= k < f.len() && f[k] == t[e];
    assert(ids[k] == t[e].from);
    assert(ids.to_set().contains(t[e].from));
    vstd::seq_lib::seq_to_set_is_finite(ids);
    if ids.to_set().len() == 0 {
        assert(ids.to_set() =~= Set::empty());
    }
}

/// The first or the second parts of a list of pairs, each once.
fn distinct(pairs: &Vec<(i64, i64)>, first: bool) -> (r: Vec<i64>)
    ensures
        r@.no_duplicates(),
        first ==> r@.to_set() == pairs@.map_values(|p: (i64, i64)| p.0).to_set(),
        !first ==> r@.to_set() == pairs@.map_values(|p: (i64, i64)| p.1).to_set(),
{
    broadcast use group_hash_axioms;

    let ghost f0 = |p: (i64, i64)| p.0;
    let ghost f1 = |p: (i64, i64)| p.1;
    let ghost f = if first {
        f0
    } else {
        f1
    };
    let ghost all = pairs@.map_values(f);
    let mut seen: HashSet<i64> = HashSet::new();
    let mut r: Vec<i64> = Vec::new();
    let mut i: usize = 0;
    assert(r@.to_set() =~= all.take(0).to_set());
    assert(seen@ =~= r@.to_set());
    while i < pairs.len()
        invariant
            i <= pairs@.len(),
            f0 == (|p: (i64, i64)| p.0),
            f1 == (|p: (i64, i64)| p.1),
            f == (if first {
                f0
            } else {
                f1
            }),
            all == pairs@.map_values(f),
            r@.no_duplicates(),
            seen@ == r@.to_set(),
            r@.to_set() == all.take(i as int).to_set(),
        decreases pairs@.len() - i,
    {
        let id: i64 = if first {
            pairs[i].0
        } else {
            pairs[i].1
        };
        assert(all[i as int] == id);
        assert(all.take(i + 1) =~= all.take(i as int).push(id));
        let ghost r0 = r@;
        proof {
            lemma_push_set(all.take(i as int), id);
        }
        if !seen.contains(&id) {
            seen.insert(id);
            r.push(id);
            proof {
                lemma_push_set(r0, id);
                assert(!r0.contains(id));
            }
        } else {
            assert(r0.to_set().insert(id) =~= r0.to_set());
        }
        i = i + 1;
    }
    assert(all.take(i as int) =~= all);
    r
}

proof fn lemma_push_set(s: Seq<i64>, x: i64)
    ensures
        s.push(x).to_set() == s.to_set().insert(x),
{
    assert forall|y: i64| s.push(x).to_set().contains(y) <==> s.to_set().insert(x).contains(y) by {
        if s.contains(y) {
            let k = choose|k: int| 0 <= k < s.len() && s[k] == y;
            assert(s.push(x)[k] == y);
        }
        if y == x {
            assert(s.push(x)[s.len() as int] == x);
        }
        if s.push(x).contains(y) {
            let k = choose|k: int| 0 <= k < s.push(x).len() && s.push(x)[k] == y;
            if k < s.len() {
                assert(s[k] == y);
            }
        }
    }
    assert(s.push(x).to_set() =~= s.to_set().insert(x));
}

} // verus!
