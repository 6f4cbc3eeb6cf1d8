//! Paths between users and the components of the graph.
use vstd::prelude::*;
use vstd::string::*;

use super::model::{has_id, is_follow, place_of_id, Tables, UserRowModel};
use super::reads::users_with;
use super::users::row_models;
use super::Db;
use crate::graph::{
    adjacent, all_paths, component_sizes, connected, first_of, is_shortest_path, is_walk,
    law_enumeration_is_exact, law_simple_path_is_walk, lists_of, paths_from, shortest_path,
    sizes_listed, walk_between,
};
use crate::lists::{lemma_filter_holds, lemma_filter_none, lemma_filter_step};
use crate::text::same;
use crate::types::{edge_models, path_models, user_models, EdgeModel, User, UserModel};

verus! {

/// How many users a listed path has at most.
pub const PATH_USERS: usize = 6;

/// How many neighbours of a user the listing of paths follows at most.
pub const PATH_NEIGHBORS: usize = 50;

/// `found` are the users along a shortest path over active edges, or nobody
/// where no path leads from the one user to the other.
pub open spec fn is_route(t: Tables, from: i64, to: i64, found: Seq<UserModel>) -> bool {
    if connected(t.active_pairs(), from, to) {
        exists|ids: Seq<i64>|
            is_shortest_path(t.active_pairs(), from, to, ids) && found == users_with(t, ids)
    } else {
        found.len() == 0
    }
}

/// The users along the first paths from one user to another.
pub open spec fn routes(t: Tables, from: i64, to: i64, max_paths: nat) -> Seq<Seq<UserModel>> {
    if from == to {
        seq![users_with(t, seq![from])]
    } else {
        first_of(
            paths_from(
                t.active_pairs(),
                PATH_NEIGHBORS as nat,
                from,
                to,
                PATH_USERS as nat,
            ),
            max_paths,
        ).map_values(|ids: Seq<i64>| users_with(t, ids))
    }
}

/// The ids of the users along each path.
pub open spec fn id_lists(paths: Seq<Seq<UserModel>>) -> Seq<Seq<i64>> {
    paths.map_values(|p: Seq<UserModel>| p.map_values(|u: UserModel| u.id))
}

/// Users that were looked up by their ids have these ids.
pub proof fn lemma_ids_of_users(t: Tables, ids: Seq<i64>)
    requires
        forall|i: int| 0 <= i < ids.len() ==> has_id(t.users, #[trigger] ids[i]),
    ensures
        users_with(t, ids).map_values(|u: UserModel| u.id) == ids,
{
    let found = users_with(t, ids).map_values(|u: UserModel| u.id);
    assert forall|i: int| 0 <= i < ids.len() implies found[i] == #[trigger] ids[i] by {
        let k = place_of_id(t.users, ids[i]);
        assert(0 <= k < t.users.len() && t.users[k].id == ids[i]);
    }
    assert(found =~= ids);
}

/// Both ends of a pair are known users.
proof fn lemma_pair_known(t: Tables, a: i64, b: i64)
    requires
        t.valid(),
        t.active_pairs().contains((a, b)),
    ensures
        has_id(t.users, a),
        has_id(t.users, b),
{
    let p = |e: EdgeModel| e.is_active;
    let f = t.edges.filter(p);
    lemma_filter_holds(t.edges, p);
    let pairs = t.active_pairs();
    let i = choose|i: int| 0 <= i < pairs.len() && pairs[i] == (a, b);
    assert(f.contains(f[i]));
    let k = choose|k: int| 0 <= k < t.edges.len() && t.edges[k] == f[i];
    assert(t.edges[k].from == a && t.edges[k].to == b);
}

/// A walk from a known user meets known users only.
pub proof fn lemma_walk_known(t: Tables, p: Seq<i64>)
    requires
        t.valid(),
        is_walk(t.active_pairs(), p),
        has_id(t.users, p[0]),
    ensures
        forall|i: int| 0 <= i < p.len() ==> has_id(t.users, #[trigger] p[i]),
{
    assert forall|i: int| 0 <= i < p.len() implies has_id(t.users, #[trigger] p[i]) by {
        if i > 0 {
            let pairs = t.active_pairs();
            assert(adjacent(pairs, p[i - 1], p[i - 1 + 1]));
            if pairs.contains((p[i - 1], p[i])) {
                lemma_pair_known(t, p[i - 1], p[i]);
            } else {
                lemma_pair_known(t, p[i], p[i - 1]);
            }
        }
    }
}

impl Db {
    /// The active edges as pairs of users; of the type `follows` only, where
    /// `follows` is set.
    pub(super) fn pairs(&self, follows: bool) -> (r: Vec<(i64, i64)>)
        ensures
            !follows ==> r@ == self@.active_pairs(),
            follows ==> r@ == self@.follow_pairs(),
    {
        let ghost t = self@.edges;
        let ghost pa = |e: EdgeModel| e.is_active;
        let ghost pf = |e: EdgeModel| is_follow(e);
        let ghost p = if follows {
            pf
        } else {
            pa
        };
        let ghost f = |e: EdgeModel| (e.from, e.to);
        let rows = self.edges.rows();
        let mut r: Vec<(i64, i64)> = Vec::new();
        let mut i: usize = 0;
        proof {
            lemma_filter_none(t, p);
            assert(r@ =~= t.take(0).filter(p).map_values(f));
        }
        while i < rows.len()
            invariant
                edge_models(rows@) == t,
                rows@.len() == t.len(),
                pa == (|e: EdgeModel| e.is_active),
                pf == (|e: EdgeModel| is_follow(e)),
                p == (if follows {
                    pf
                } else {
                    pa
                }),
                f == (|e: EdgeModel| (e.from, e.to)),
                i <= rows@.len(),
                r@ == t.take(i as int).filter(p).map_values(f),
            decreases rows@.len() - i,
        {
            proof {
                lemma_filter_step(t, p, i as int);
            }
            let ghost before = t.take(i as int).filter(p);
            let e = &rows[i];
            assert(e@ == edge_models(rows@)[i as int]);
            if e.is_active && (!follows || same(e.edge_type.as_str(), "follows")) {
                r.push((e.from_user_id, e.to_user_id));
                assert(before.push(t[i as int]).map_values(f) =~= before.map_values(f).push(
                    f(t[i as int]),
                ));
            }
            i = i + 1;
        }
        assert(t.take(i as int) =~= t);
        r
    }

    /// The users of a list of known ids.
    fn users_of(&self, ids: &Vec<i64>) -> (r: Vec<User>)
        requires
            self.wf(),
            forall|i: int| 0 <= i < ids@.len() ==> has_id(self@.users, #[trigger] ids@[i]),
        ensures
            user_models(r@) == users_with(self@, ids@),
    {
        let mut r: Vec<User> = Vec::new();
        let mut i: usize = 0;
        while i < ids.len()
            invariant
                self.wf(),
                forall|i: int| 0 <= i < ids@.len() ==> has_id(self@.users, #[trigger] ids@[i]),
                i <= ids@.len(),
                user_models(r@) =~= users_with(self@, ids@.take(i as int)),
            decreases ids@.len() - i,
        {
            let ghost r0 = user_models(r@);
            assert(has_id(self@.users, ids@[i as int]));
            if let Some(u) = self.get_user_by_id(ids[i]) {
                let ghost m = u@;
                r.push(u);
                assert(user_models(r@) =~= r0.push(m));
                assert(users_with(self@, ids@.take(i + 1)) =~= users_with(
                    self@,
                    ids@.take(i as int),
                ).push(m));
            }
            i = i + 1;
        }
        assert(ids@.take(i as int) =~= ids@);
        r
    }

    /// The users along a shortest path from one user to another, both included.
    /// Nobody where one of them is unknown or no path joins them.
    pub fn get_shortest_path(&self, from_login: &str, to_login: &str) -> (r: Vec<User>)
        requires
            self.wf(),
        ensures
            match (self@.user_by_login(from_login@), self@.user_by_login(to_login@)) {
                (Some(f), Some(t)) => is_route(self@, f.id, t.id, user_models(r@)),
                _ => r@.len() == 0,
            },
    {
        let from_user = self.get_user_by_login(from_login);
        let to_user = self.get_user_by_login(to_login);
        let (from, to): (i64, i64) = match (&from_user, &to_user) {
            (Some(f), Some(t)) => (f.id, t.id),
            _ => {
                return Vec::new();
            },
        };
        let pairs = self.pairs(false);
        let ids = shortest_path(&pairs, from, to);
        if ids.len() == 0 {
            return Vec::new();
        }
        proof {
            self.law_invariant();
            let place = super::model::place_of_login(self@.users, from_login@);
            assert(self@.users[place].id == from);
            assert(has_id(self@.users, from));
            lemma_walk_known(self@, ids@);
            assert(walk_between(pairs@, from, to, ids@));
        }
        let r = self.users_of(&ids);
        assert(is_shortest_path(self@.active_pairs(), from, to, ids@) && user_models(r@)
            == users_with(self@, ids@));
        r
    }

    /// The first `max_paths` paths from one user to another, found depth first:
    /// no user twice, six users at most, and of each user the first fifty
    /// neighbours only. No path comes twice, however many edges join two users.
    /// From a user to the same user there is one path.
    pub fn get_all_paths(&self, from_login: &str, to_login: &str, max_paths: usize) -> (r: Vec<
        Vec<User>,
    >)
        requires
            self.wf(),
        ensures
            path_models(r@) == match (
                self@.user_by_login(from_login@),
                self@.user_by_login(to_login@),
            ) {
                (Some(f), Some(t)) => routes(self@, f.id, t.id, max_paths as nat),
                _ => Seq::empty(),
            },
            id_lists(path_models(r@)).no_duplicates(),
    {
        let from_user = self.get_user_by_login(from_login);
        let to_user = self.get_user_by_login(to_login);
        let mut out: Vec<Vec<User>> = Vec::new();
        let (from, to): (i64, i64) = match (&from_user, &to_user) {
            (Some(f), Some(t)) => (f.id, t.id),
            _ => {
                assert(path_models(out@) =~= Seq::empty());
                return out;
            },
        };
        proof {
            self.law_invariant();
            let place = super::model::place_of_login(self@.users, from_login@);
            assert(self@.users[place].id == from);
            assert(has_id(self@.users, from));
        }
        if from == to {
            let ids: Vec<i64> = vec![from];
            assert(ids@ =~= seq![from]);
            let one = self.users_of(&ids);
            let ghost m = user_models(one@);
            out.push(one);
            assert(path_models(out@) =~= seq![m]);
            return out;
        }
        let pairs = self.pairs(false);
        let lists = all_paths(&pairs, PATH_NEIGHBORS, from, to, PATH_USERS, max_paths);
        let ghost found = paths_from(
            pairs@,
            PATH_NEIGHBORS as nat,
            from,
            to,
            PATH_USERS as nat,
        );
        let ghost f = |ids: Seq<i64>| users_with(self@, ids);
        let mut i: usize = 0;
        assert(path_models(out@) =~= lists_of(lists@).take(0).map_values(f));
        assert(id_lists(path_models(out@)) =~= lists_of(lists@).take(0));
        while i < lists.len()
            invariant
                self.wf(),
                self@.valid(),
                has_id(self@.users, from),
                pairs@ == self@.active_pairs(),
                found == paths_from(
                    pairs@,
                    PATH_NEIGHBORS as nat,
                    from,
                    to,
                    PATH_USERS as nat,
                ),
                lists_of(lists@) == first_of(found, max_paths as nat),
                f == (|ids: Seq<i64>| users_with(self@, ids)),
                i <= lists@.len(),
                path_models(out@) == lists_of(lists@).take(i as int).map_values(f),
                id_lists(path_models(out@)) == lists_of(lists@).take(i as int),
            decreases lists@.len() - i,
        {
            let ghost out0 = path_models(out@);
            let ids = &lists[i];
            proof {
                assert(lists_of(lists@)[i as int] == ids@);
                let g = first_of(found, max_paths as nat);
                assert(g.len() == lists@.len());
                assert(g[i as int] == ids@);
                assert(found[i as int] == g[i as int]);
                assert(found.contains(ids@));
                law_enumeration_is_exact(
                    pairs@,
                    PATH_NEIGHBORS as nat,
                    from,
                    to,
                    PATH_USERS as nat,
                    ids@,
                );
                law_simple_path_is_walk(
                    pairs@,
                    PATH_NEIGHBORS as nat,
                    from,
                    to,
                    PATH_USERS as nat,
                    ids@,
                );
                lemma_walk_known(self@, ids@);
            }
            let path = self.users_of(ids);
            let ghost m = user_models(path@);
            out.push(path);
            proof {
                assert(path_models(out@) =~= out0.push(m));
                assert(lists_of(lists@).take(i + 1).map_values(f) =~= lists_of(lists@).take(
                    i as int,
                ).map_values(f).push(m));
                lemma_ids_of_users(self@, ids@);
                assert(id_lists(out0.push(m)) =~= id_lists(out0).push(ids@));
                assert(lists_of(lists@).take(i + 1) =~= lists_of(lists@).take(i as int).push(ids@));
            }
            i = i + 1;
        }
        assert(lists_of(lists@).take(i as int) =~= lists_of(lists@));
        out
    }

    /// The ids of all users.
    fn user_ids(&self) -> (r: Vec<i64>)
        ensures
            r@ == self@.user_ids(),
    {
        let ghost f = |u: UserRowModel| u.id;
        let rows = self.users.rows();
        let mut r: Vec<i64> = Vec::new();
        let mut i: usize = 0;
        while i < rows.len()
            invariant
                row_models(rows@) == self@.users,
                f == (|u: UserRowModel| u.id),
                i <= rows@.len(),
                r@ =~= self@.users.take(i as int).map_values(f),
            decreases rows@.len() - i,
        {
            assert(row_models(rows@)[i as int] == rows@[i as int]@);
            r.push(rows[i].id);
            assert(self@.users.take(i + 1).map_values(f) =~= self@.users.take(i as int).map_values(
                f,
            ).push(rows@[i as int].id));
            i = i + 1;
        }
        assert(self@.users.take(i as int) =~= self@.users);
        r
    }

    /// How many components the graph of who follows whom has, how many users the
    /// largest of them has, and how many users there are.
    pub fn connected_components_info(&self) -> (r: (usize, usize, usize))
        requires
            self.wf(),
        ensures
            r.2 == self@.users.len(),
            exists|parts: Seq<Set<i64>>, sizes: Seq<usize>|
                {
                    &&& #[trigger] sizes_listed(
                        self@.follow_pairs(),
                        self@.user_ids(),
                        parts,
                        sizes,
                    )
                    &&& r.0 == parts.len()
                    &&& is_largest(sizes, r.1)
                },
    {
        let pairs = self.pairs(true);
        let ids = self.user_ids();
        let sizes = component_sizes(&pairs, &ids);
        let mut largest: usize = 0;
        let mut i: usize = 0;
        while i < sizes.len()
            invariant
                i <= sizes@.len(),
                is_largest(sizes@.take(i as int), largest),
            decreases sizes@.len() - i,
        {
            assert(sizes@.take(i + 1) =~= sizes@.take(i as int).push(sizes@[i as int]));
            let ghost before = sizes@.take(i as int);
            let ghost after = before.push(sizes@[i as int]);
            if sizes[i] > largest || i == 0 {
                largest = sizes[i];
                assert(after[i as int] == largest);
            } else {
                proof {
                    let k = choose|k: int| 0 <= k < before.len() && before[k] == largest;
                    assert(after[k] == largest);
                }
            }
            assert(after.contains(largest));
            i = i + 1;
        }
        assert(sizes@.take(i as int) =~= sizes@);
        (sizes.len(), largest, self.get_user_count())
    }
}

/// `top` is the largest of the sizes, or nothing where there are none.
pub open spec fn is_largest(sizes: Seq<usize>, top: usize) -> bool {
    &&& forall|i: int| 0 <= i < sizes.len() ==> (#[trigger] sizes[i]) <= top
    &&& sizes.contains(top) || (sizes.len() == 0 && top == 0)
}

} // verus!
