//! What looks up users, edges and the configuration.
use vstd::prelude::*;
use vstd::std_specs::hash::*;
use vstd::string::*;

use super::model::{
    has_id, has_login, is_follow_of, place_of_id, place_of_login, users_valid, Tables, UserRowModel,
};
use super::users::row_models;
use super::writes::lemma_place_of_login;
use super::Db;
use crate::find::{begins_with, is_beginning, is_part, occurs_in};
use crate::graph::first_of;
use crate::lists::{lemma_filter_holds, lemma_filter_none, lemma_filter_step};
use crate::order::{keys, sort, sorted_texts, text_order, Ranked};
use crate::text::{same, views};
use crate::types::{
    copy_text, edge_models, opt_text, user_models, Edge, EdgeModel, GithubUserProfile, User,
    UserModel,
};

verus! {

/// How many users a search returns at most.
pub const SEARCH_LIMIT: usize = 20;

/// The place of a row is the only one with its id.
pub proof fn lemma_place_of_id(users: Seq<UserRowModel>, i: int)
    requires
        users_valid(users),
        0 <= i < users.len(),
    ensures
        has_id(users, users[i].id),
        place_of_id(users, users[i].id) == i,
{
    let j = place_of_id(users, users[i].id);
    assert(users[i].id == users[i].id);
    assert(0 <= j < users.len() && users[j].id == users[i].id);
}

/// The login contains the query.
pub open spec fn is_hit(q: Seq<char>, r: UserRowModel) -> bool {
    occurs_in(q, r.login)
}

/// The login begins with the query.
pub open spec fn is_front(q: Seq<char>, r: UserRowModel) -> bool {
    begins_with(q, r.login)
}

/// The logins that contain a query: those that begin with it come first, and
/// within both groups they are in alphabetical order.
pub open spec fn hits(users: Seq<UserRowModel>, q: Seq<char>) -> Seq<Seq<char>> {
    sorted_texts(
        logins(users.filter(|r: UserRowModel| is_hit(q, r) && is_front(q, r))),
    ) + sorted_texts(logins(users.filter(|r: UserRowModel| is_hit(q, r) && !is_front(q, r))))
}

/// The logins of a list of rows.
pub open spec fn logins(rows: Seq<UserRowModel>) -> Seq<Seq<char>> {
    rows.map_values(|r: UserRowModel| r.login)
}

/// The users of a list of logins.
pub open spec fn users_named(t: Tables, names: Seq<Seq<char>>) -> Seq<UserModel> {
    names.map_values(|l: Seq<char>| t.user_by_login(l)->0)
}

/// The users of a list of ids.
pub open spec fn users_with(t: Tables, ids: Seq<i64>) -> Seq<UserModel> {
    ids.map_values(|id: i64| t.user_by_id(id)->0)
}

/// The model of an optional user.
pub open spec fn opt_user(u: Option<User>) -> Option<UserModel> {
    match u {
        Some(u) => Some(u@),
        None => None,
    }
}

/// A sorted list holds what the list held.
pub proof fn lemma_sorted_texts_hold(s: Seq<Seq<char>>)
    ensures
        sorted_texts(s).len() == s.len(),
        forall|x: Seq<char>| #[trigger] sorted_texts(s).contains(x) <==> s.contains(x),
{
    String::order_is_total();
    s.lemma_sort_by_ensures(text_order());
    s.to_multiset_ensures();
    sorted_texts(s).to_multiset_ensures();
    assert forall|x: Seq<char>| #[trigger] sorted_texts(s).contains(x) <==> s.contains(x) by {
        assert(sorted_texts(s).contains(x) <==> sorted_texts(s).to_multiset().count(x) > 0);
        assert(s.contains(x) <==> s.to_multiset().count(x) > 0);
    }
}

/// Sorts texts by code points.
pub fn sort_texts(v: Vec<String>) -> (r: Vec<String>)
    ensures
        views(r@) == sorted_texts(views(v@)),
{
    let r = sort(v);
    assert(keys(v@) =~= views(v@));
    assert(keys(r@) =~= views(r@));
    r
}

impl Db {
    /// The user at a place of the table.
    pub(super) fn user_at(&self, i: usize) -> (u: User)
        requires
            self.wf(),
            i < self@.users.len(),
        ensures
            u@ == self@.user(self@.users[i as int]),
    {
        broadcast use group_hash_axioms;

        let rows = self.users.rows();
        assert(row_models(rows@) == self@.users);
        let row = &rows[i];
        assert(row@ == row_models(rows@)[i as int]);
        let ghost facts = self.profiles@.map_values(|p: GithubUserProfile| p.facts());
        assert(self@.profiles == facts);
        match self.profiles.get(&row.id) {
            Some(p) => {
                assert(facts.dom().contains(row.id));
                assert(facts[row.id] == p.facts());
                User {
                    id: row.id,
                    login: row.login.clone(),
                    name: copy_text(&p.name),
                    avatar_url: copy_text(&p.avatar_url),
                    company: copy_text(&p.company),
                    location: copy_text(&p.location),
                    followers: Some(p.followers),
                    following: Some(p.following),
                    public_repos: Some(p.public_repos),
                    created_at: copy_text(&p.created_at),
                    updated_at: copy_text(&p.updated_at),
                }
            },
            None => {
                assert(!facts.dom().contains(row.id));
                User {
                    id: row.id,
                    login: row.login.clone(),
                    name: None,
                    avatar_url: None,
                    company: None,
                    location: None,
                    followers: None,
                    following: None,
                    public_repos: None,
                    created_at: None,
                    updated_at: None,
                }
            },
        }
    }

    /// The user with this login.
    pub fn get_user_by_login(&self, login: &str) -> (r: Option<User>)
        requires
            self.wf(),
        ensures
            opt_user(r) == self@.user_by_login(login@),
            r matches Some(u) ==> u.id == self@.id_of(login@) && u.login@ == login@,
    {
        match self.users.find_login(login) {
            Some(i) => {
                proof {
                    self.users.lemma_valid();
                    lemma_place_of_login(self@.users, i as int);
                }
                Some(self.user_at(i))
            },
            None => None,
        }
    }

    /// The user with this id.
    pub fn get_user_by_id(&self, id: i64) -> (r: Option<User>)
        requires
            self.wf(),
        ensures
            opt_user(r) == self@.user_by_id(id),
    {
        match self.users.find_id(id) {
            Some(i) => {
                proof {
                    self.users.lemma_valid();
                    lemma_place_of_id(self@.users, i as int);
                }
                Some(self.user_at(i))
            },
            None => None,
        }
    }

    /// Whether a profile of the user has been stored.
    pub fn has_profile(&self, user_id: i64) -> (r: bool)
        requires
            self.wf(),
        ensures
            r == self@.profiles.dom().contains(user_id),
    {
        broadcast use group_hash_axioms;

        self.profiles.contains_key(&user_id)
    }

    /// How many users there are.
    pub fn get_user_count(&self) -> (r: usize)
        requires
            self.wf(),
        ensures
            r == self@.users.len(),
    {
        let rows = self.users.rows();
        assert(row_models(rows@).len() == self@.users.len());
        rows.len()
    }

    /// Every user.
    pub fn get_all_users(&self) -> (r: Vec<User>)
        requires
            self.wf(),
        ensures
            user_models(r@) == self@.all_users(),
    {
        let mut r: Vec<User> = Vec::new();
        let n: usize = self.get_user_count();
        let mut i: usize = 0;
        while i < n
            invariant
                self.wf(),
                n == self@.users.len(),
                i <= n,
                user_models(r@) =~= self@.all_users().take(i as int),
            decreases n - i,
        {
            let ghost r0 = user_models(r@);
            let u = self.user_at(i);
            let ghost m = u@;
            r.push(u);
            assert(user_models(r@) =~= r0.push(m));
            assert(self@.all_users()[i as int] == m);
            i = i + 1;
        }
        assert(self@.all_users().take(n as int) =~= self@.all_users());
        r
    }

    /// The logins that contain a query, at the beginning or elsewhere only.
    fn hits_of(&self, q: &str, front: bool) -> (r: Vec<String>)
        requires
            self.wf(),
        ensures
            views(r@) == logins(
                self@.users.filter(
                    |u: UserRowModel| is_hit(q@, u) && is_front(q@, u) == front,
                ),
            ),
    {
        let ghost t = self@.users;
        let rows = self.users.rows();
        assert(row_models(rows@) == t);
        let ghost p = |u: UserRowModel| is_hit(q@, u) && is_front(q@, u) == front;
        let mut r: Vec<String> = Vec::new();
        let mut i: usize = 0;
        proof {
            lemma_filter_none(t, p);
            assert(views(r@) =~= logins(t.take(0).filter(p)));
        }
        while i < rows.len()
            invariant
                row_models(rows@) == t,
                rows@.len() == t.len(),
                p == (|u: UserRowModel| is_hit(q@, u) && is_front(q@, u) == front),
                i <= rows@.len(),
                views(r@) == logins(t.take(i as int).filter(p)),
            decreases rows@.len() - i,
        {
            proof {
                lemma_filter_step(t, p, i as int);
            }
            let ghost r0 = views(r@);
            let ghost before = t.take(i as int).filter(p);
            let row = &rows[i];
            assert(row@ == row_models(rows@)[i as int]);
            if is_part(q, row.login.as_str()) && is_beginning(q, row.login.as_str()) == front {
                r.push(row.login.clone());
                assert(views(r@) =~= r0.push(row.login@));
                assert(logins(before.push(t[i as int])) =~= logins(before).push(row.login@));
            }
            i = i + 1;
        }
        assert(t.take(i as int) =~= t);
        r
    }

    /// The users whose login contains the query, at most twenty. Those whose login
    /// begins with it come first.
    pub fn search_users(&self, q: &str) -> (r: Vec<User>)
        requires
            self.wf(),
        ensures
            user_models(r@) == users_named(
                self@,
                first_of(hits(self@.users, q@), SEARCH_LIMIT as nat),
            ),
            user_models(r@) == users_named(self@, first_of(hits(self@.users, q@), 20)),
            forall|k: int|
                0 <= k < r@.len() ==> self@.user_by_login((#[trigger] r@[k]).login@) == Some(
                    r@[k]@,
                ),
    {
        let ghost t = self@;
        let front = self.hits_of(q, true);
        let other = self.hits_of(q, false);
        let ghost pf = |u: UserRowModel| is_hit(q@, u) && is_front(q@, u) == true;
        let ghost po = |u: UserRowModel| is_hit(q@, u) && is_front(q@, u) == false;
        let ghost qf = |r: UserRowModel| is_hit(q@, r) && is_front(q@, r);
        let ghost qo = |r: UserRowModel| is_hit(q@, r) && !is_front(q@, r);
        proof {
            assert(pf =~= qf);
            assert(po =~= qo);
            lemma_filter_holds(t.users, pf);
            lemma_filter_holds(t.users, po);
            lemma_sorted_texts_hold(logins(t.users.filter(pf)));
            lemma_sorted_texts_hold(logins(t.users.filter(po)));
            assert forall|l: Seq<char>|
                logins(t.users.filter(pf)).contains(l) || logins(t.users.filter(po)).contains(
                    l,
                ) implies has_login(t.users, l) by {
                lemma_login_of_filtered(t.users, pf, l);
                lemma_login_of_filtered(t.users, po, l);
            }
        }
        let front = sort_texts(front);
        let mut names: Vec<String> = front;
        let mut other = sort_texts(other);
        let ghost a = views(names@);
        let ghost b = views(other@);
        names.append(&mut other);
        assert(views(names@) =~= a + b);
        let ghost want = first_of(hits(t.users, q@), SEARCH_LIMIT as nat);
        assert(views(names@) == hits(t.users, q@));
        proof {
            assert forall|k: int| 0 <= k < names@.len() implies has_login(
                t.users,
                (#[trigger] names@[k])@,
            ) by {
                let l = names@[k]@;
                assert((a + b)[k] == l);
                if k < a.len() {
                    assert(a.contains(l));
                } else {
                    assert(b[k - a.len()] == l);
                    assert(b.contains(l));
                }
            }
        }
        let mut r: Vec<User> = Vec::new();
        let mut i: usize = 0;
        while i < names.len() && i < SEARCH_LIMIT
            invariant
                self.wf(),
                t == self@,
                i <= names@.len(),
                i <= SEARCH_LIMIT,
                views(names@) == hits(t.users, q@),
                want == first_of(hits(t.users, q@), SEARCH_LIMIT as nat),
                forall|k: int|
                    0 <= k < names@.len() ==> has_login(t.users, (#[trigger] names@[k])@),
                user_models(r@) =~= users_named(t, want.take(i as int)),
                forall|k: int|
                    0 <= k < r@.len() ==> t.user_by_login((#[trigger] r@[k]).login@) == Some(
                        r@[k]@,
                    ),
            decreases names@.len() - i,
        {
            let ghost r0 = user_models(r@);
            assert(views(names@)[i as int] == names@[i as int]@);
            assert(want[i as int] == names@[i as int]@);
            if let Some(u) = self.get_user_by_login(names[i].as_str()) {
                let ghost m = u@;
                r.push(u);
                assert(user_models(r@) =~= r0.push(m));
                assert(users_named(t, want.take(i + 1)) =~= users_named(
                    t,
                    want.take(i as int),
                ).push(m));
            }
            i = i + 1;
        }
        assert(want.take(i as int) =~= want);
        r
    }

    // ── Edges ───────────────────────────────────────────────────────────────

    /// Every edge.
    pub fn get_all_edges(&self) -> (r: Vec<Edge>)
        requires
            self.wf(),
        ensures
            edge_models(r@) == self@.edges,
    {
        let rows = self.edges.rows();
        let mut r: Vec<Edge> = Vec::new();
        let mut i: usize = 0;
        while i < rows.len()
            invariant
                edge_models(rows@) == self@.edges,
                i <= rows@.len(),
                edge_models(r@) =~= self@.edges.take(i as int),
            decreases rows@.len() - i,
        {
            let ghost r0 = edge_models(r@);
            let e = rows[i].copy();
            let ghost m = e@;
            assert(m == edge_models(rows@)[i as int]);
            r.push(e);
            assert(edge_models(r@) =~= r0.push(m));
            i = i + 1;
        }
        assert(self@.edges.take(i as int) =~= self@.edges);
        r
    }

    /// Every edge that leaves or reaches the user.
    pub fn get_edges_by_user(&self, user_id: i64) -> (r: Vec<Edge>)
        requires
            self.wf(),
        ensures
            edge_models(r@) == self@.edges.filter(
                |e: EdgeModel| e.from == user_id || e.to == user_id,
            ),
    {
        let ghost t = self@.edges;
        let ghost p = |e: EdgeModel| e.from == user_id || e.to == user_id;
        let rows = self.edges.rows();
        let mut r: Vec<Edge> = Vec::new();
        let mut i: usize = 0;
        proof {
            lemma_filter_none(t, p);
            assert(edge_models(r@) =~= t.take(0).filter(p));
        }
        while i < rows.len()
            invariant
                edge_models(rows@) == t,
                rows@.len() == t.len(),
                p == (|e: EdgeModel| e.from == user_id || e.to == user_id),
                i <= rows@.len(),
                edge_models(r@) == t.take(i as int).filter(p),
            decreases rows@.len() - i,
        {
            proof {
                lemma_filter_step(t, p, i as int);
            }
            let ghost r0 = edge_models(r@);
            let e = &rows[i];
            assert(e@ == edge_models(rows@)[i as int]);
            if e.from_user_id == user_id || e.to_user_id == user_id {
                let e = e.copy();
                let ghost m = e@;
                r.push(e);
                assert(edge_models(r@) =~= r0.push(m));
            }
            i = i + 1;
        }
        assert(t.take(i as int) =~= t);
        r
    }

    /// Whether the first user follows the second.
    pub fn has_follows_edge(&self, from_id: i64, to_id: i64) -> (r: bool)
        requires
            self.wf(),
        ensures
            r == self@.follows(from_id, to_id),
    {
        let rows = self.edges.rows();
        let mut i: usize = 0;
        while i < rows.len()
            invariant
                edge_models(rows@) == self@.edges,
                i <= rows@.len(),
                forall|k: int|
                    0 <= k < i ==> !is_follow_of(#[trigger] self@.edges[k], from_id, to_id),
            decreases rows@.len() - i,
        {
            let e = &rows[i];
            assert(e@ == edge_models(rows@)[i as int]);
            if e.from_user_id == from_id && e.to_user_id == to_id && e.is_active && same(
                e.edge_type.as_str(),
                "follows",
            ) {
                assert(is_follow_of(self@.edges[i as int], from_id, to_id));
                return true;
            }
            i = i + 1;
        }
        assert(rows@.len() == self@.edges.len());
        false
    }

    // ── Configuration ───────────────────────────────────────────────────────

    /// The value under a key.
    pub fn get_config(&self, key: &str) -> (r: Option<String>)
        requires
            self.wf(),
        ensures
            opt_text(r) == (if self@.config.dom().contains(key@) {
                Some(self@.config[key@])
            } else {
                None
            }),
    {
        match self.config.get(key) {
            Some(v) => Some(v.clone()),
            None => None,
        }
    }
}

proof fn lemma_login_of_filtered(
    users: Seq<UserRowModel>,
    p: spec_fn(UserRowModel) -> bool,
    l: Seq<char>,
)
    ensures
        logins(users.filter(p)).contains(l) ==> has_login(users, l),
{
    let f = users.filter(p);
    lemma_filter_holds(users, p);
    if logins(f).contains(l) {
        let i = choose|i: int| 0 <= i < f.len() && logins(f)[i] == l;
        assert(f.contains(f[i]));
        assert(users.contains(f[i]));
    }
}

/// A search finds every user whose login contains the query, and nobody else.
pub proof fn law_search_is_exact(users: Seq<UserRowModel>, q: Seq<char>, login: Seq<char>)
    ensures
        hits(users, q).contains(login) <==> has_login(users, login) && occurs_in(q, login),
{
    let pf = |r: UserRowModel| is_hit(q, r) && is_front(q, r);
    let po = |r: UserRowModel| is_hit(q, r) && !is_front(q, r);
    let front = sorted_texts(logins(users.filter(pf)));
    let other = sorted_texts(logins(users.filter(po)));
    lemma_listed_logins(users, pf, login);
    lemma_listed_logins(users, po, login);
    if front.contains(login) {
        let i = choose|i: int| 0 <= i < front.len() && front[i] == login;
        assert((front + other)[i] == login);
    }
    if other.contains(login) {
        let i = choose|i: int| 0 <= i < other.len() && other[i] == login;
        assert((front + other)[front.len() + i] == login);
    }
    if hits(users, q).contains(login) {
        let i = choose|i: int| 0 <= i < hits(users, q).len() && hits(users, q)[i] == login;
        if i < front.len() {
            assert(front[i] == login);
        } else {
            assert(other[i - front.len()] == login);
        }
    }
    if has_login(users, login) && occurs_in(q, login) {
        let k = choose|k: int| 0 <= k < users.len() && (#[trigger] users[k]).login == login;
        assert(pf(users[k]) || po(users[k]));
    }
}

/// A search lists nobody twice, and whom it lists in order: logins that begin with
/// the query before all others, and each of the two groups by login.
pub proof fn law_search_order(users: Seq<UserRowModel>, q: Seq<char>, i: int, j: int)
    requires
        users_valid(users),
        0 <= i < j < hits(users, q).len(),
    ensures
        hits(users, q)[i] != hits(users, q)[j],
        begins_with(q, hits(users, q)[j]) ==> begins_with(q, hits(users, q)[i]),
        begins_with(q, hits(users, q)[i]) == begins_with(q, hits(users, q)[j]) ==> text_order()(
            hits(users, q)[i],
            hits(users, q)[j],
        ),
{
    let pf = |r: UserRowModel| is_hit(q, r) && is_front(q, r);
    let po = |r: UserRowModel| is_hit(q, r) && !is_front(q, r);
    let front = sorted_texts(logins(users.filter(pf)));
    let other = sorted_texts(logins(users.filter(po)));
    let all = hits(users, q);
    lemma_sorted_logins(users, pf);
    lemma_sorted_logins(users, po);
    assert forall|k: int| 0 <= k < front.len() implies begins_with(q, #[trigger] front[k]) by {
        assert(front.contains(front[k]));
        lemma_listed_logins(users, pf, front[k]);
    }
    assert forall|k: int| 0 <= k < other.len() implies !begins_with(q, #[trigger] other[k]) by {
        assert(other.contains(other[k]));
        lemma_listed_logins(users, po, other[k]);
    }
    if j < front.len() {
        assert(front[i] != front[j] && text_order()(front[i], front[j]));
    } else if i < front.len() {
        assert(begins_with(q, front[i]));
        assert(!begins_with(q, other[j - front.len()]));
    } else {
        let (a, b) = (i - front.len(), j - front.len());
        assert(other[a] != other[b] && text_order()(other[a], other[b]));
        assert(!begins_with(q, other[a]));
    }
}

/// The first login comes before the second in a search: the logins that begin with
/// the query come before all others, and each of the two groups is by login.
pub open spec fn search_before(q: Seq<char>, a: Seq<char>, b: Seq<char>) -> bool {
    if begins_with(q, a) == begins_with(q, b) {
        a != b && text_order()(a, b)
    } else {
        begins_with(q, a)
    }
}

/// The users of a list of logins, or of ids, stand in its order.
pub proof fn law_named_users_keep_the_order(
    t: Tables,
    names: Seq<Seq<char>>,
    ids: Seq<i64>,
    i: int,
    r: int,
)
    requires
        t.valid(),
        0 <= r < t.users.len(),
    ensures
        users_named(t, names).len() == names.len(),
        users_with(t, ids).len() == ids.len(),
        0 <= i < names.len() && names[i] == t.users[r].login ==> users_named(t, names)[i]
            == t.all_users()[r],
        0 <= i < ids.len() && ids[i] == t.users[r].id ==> users_with(t, ids)[i]
            == t.all_users()[r],
{
    lemma_place_of_login(t.users, r);
    lemma_place_of_id(t.users, r);
}

/// What a search returns: twenty users at most, each with the query in the login,
/// nobody twice, those that begin with it first and both groups by login. Where it
/// returns fewer, nobody is missing whose login contains the query.
pub proof fn law_search_result(t: Tables, q: Seq<char>)
    requires
        users_valid(t.users),
    ensures
        ({
            let found = users_named(t, first_of(hits(t.users, q), SEARCH_LIMIT as nat));
            &&& found.len() <= SEARCH_LIMIT
            &&& forall|i: int|
                0 <= i < found.len() ==> occurs_in(q, (#[trigger] found[i]).login)
                    && t.user_by_login(found[i].login) == Some(found[i])
            &&& forall|i: int, j: int|
                0 <= i < j < found.len() ==> search_before(
                    q,
                    (#[trigger] found[i]).login,
                    (#[trigger] found[j]).login,
                )
            &&& found.len() < SEARCH_LIMIT ==> forall|login: Seq<char>|
                has_login(t.users, login) && #[trigger] occurs_in(q, login) ==> exists|i: int|
                    0 <= i < found.len() && (#[trigger] found[i]).login == login
        }),
{
    let all = hits(t.users, q);
    let names = first_of(all, SEARCH_LIMIT as nat);
    let found = users_named(t, names);
    assert forall|i: int| 0 <= i < found.len() implies (#[trigger] found[i]).login == all[i]
        && occurs_in(q, found[i].login) && t.user_by_login(found[i].login) == Some(found[i]) by {
        assert(all.contains(all[i]));
        assert(names[i] == all[i]);
        law_search_is_exact(t.users, q, all[i]);
        let p = place_of_login(t.users, all[i]);
        assert(0 <= p < t.users.len() && t.users[p].login == all[i]);
    }
    assert forall|i: int, j: int| 0 <= i < j < found.len() implies search_before(
        q,
        (#[trigger] found[i]).login,
        (#[trigger] found[j]).login,
    ) by {
        law_search_order(t.users, q, i, j);
    }
    if found.len() < SEARCH_LIMIT {
        assert forall|login: Seq<char>|
            has_login(t.users, login) && #[trigger] occurs_in(q, login) implies exists|i: int|
            0 <= i < found.len() && (#[trigger] found[i]).login == login by {
            law_search_is_exact(t.users, q, login);
            let i = choose|i: int| 0 <= i < all.len() && all[i] == login;
            assert(found[i].login == login);
        }
    }
}

/// A login is among the sorted ones exactly when a row that passes has it.
proof fn lemma_listed_logins(
    users: Seq<UserRowModel>,
    p: spec_fn(UserRowModel) -> bool,
    login: Seq<char>,
)
    ensures
        sorted_texts(logins(users.filter(p))).contains(login) <==> exists|k: int|
            0 <= k < users.len() && (#[trigger] users[k]).login == login && p(users[k]),
{
    let f = users.filter(p);
    lemma_filter_holds(users, p);
    lemma_sorted_texts_hold(logins(f));
    if logins(f).contains(login) {
        let i = choose|i: int| 0 <= i < f.len() && logins(f)[i] == login;
        assert(f.contains(f[i]));
        let k = choose|k: int| 0 <= k < users.len() && users[k] == f[i];
        assert(users[k].login == login && p(users[k]));
    }
    if exists|k: int| 0 <= k < users.len() && (#[trigger] users[k]).login == login && p(users[k]) {
        let k = choose|k: int|
            0 <= k < users.len() && (#[trigger] users[k]).login == login && p(users[k]);
        assert(users.contains(users[k]));
        assert(f.contains(users[k]));
        let i = choose|i: int| 0 <= i < f.len() && f[i] == users[k];
        assert(logins(f)[i] == login);
    }
}

/// The sorted logins of the rows that pass are ascending, each once.
pub proof fn lemma_sorted_logins(users: Seq<UserRowModel>, p: spec_fn(UserRowModel) -> bool)
    requires
        users_valid(users),
    ensures
        ({
            let s = sorted_texts(logins(users.filter(p)));
            forall|i: int, j: int|
                0 <= i < j < s.len() ==> #[trigger] s[i] != #[trigger] s[j] && text_order()(
                    s[i],
                    s[j],
                )
        }),
{
    let names = logins(users.filter(p));
    let s = sorted_texts(names);
    lemma_filtered_logins(users, p);
    String::order_is_total();
    names.lemma_sort_by_ensures(text_order());
    names.lemma_multiset_has_no_duplicates();
    s.lemma_multiset_has_no_duplicates_conv();
}

/// The rows that pass have different logins.
proof fn lemma_filtered_logins(users: Seq<UserRowModel>, p: spec_fn(UserRowModel) -> bool)
    requires
        users_valid(users),
    ensures
        logins(users.filter(p)).no_duplicates(),
    decreases users.len(),
{
    reveal(Seq::filter);
    if users.len() > 0 {
        let rest = users.drop_last();
        assert(users_valid(rest)) by {
            assert forall|i: int, j: int| 0 <= i < j < rest.len() implies (
            #[trigger] rest[i]).login != (#[trigger] rest[j]).login by {
                assert(users[i].login != users[j].login);
            }
            assert forall|i: int, j: int| 0 <= i < j < rest.len() implies (
            #[trigger] rest[i]).id != (#[trigger] rest[j]).id by {
                assert(users[i].id != users[j].id);
            }
        }
        lemma_filtered_logins(rest, p);
        lemma_filter_holds(rest, p);
        let g = rest.filter(p);
        let last = users.last();
        if p(last) {
            let f = users.filter(p);
            assert(f == g.push(last));
            assert forall|i: int| 0 <= i < g.len() implies (#[trigger] g[i]).login != last.login by {
                assert(g.contains(g[i]));
                let k = choose|k: int| 0 <= k < rest.len() && rest[k] == g[i];
                assert(users[k].login != users[users.len() - 1].login);
            }
            let names = logins(f);
            assert forall|i: int, j: int| 0 <= i < names.len() && 0 <= j < names.len() && i
                != j implies names[i] != names[j] by {
                if i < g.len() && j < g.len() {
                    assert(logins(g)[i] != logins(g)[j]);
                }
            }
        }
    }
}

} // verus!
