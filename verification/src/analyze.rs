//! Analysis of the collected graph: paths, common connections, profiles, the
//! degree distribution, figures and export. It needs the database only.
use std::collections::HashSet;

use vstd::prelude::*;
use vstd::std_specs::hash::*;
use vstd::string::*;

use crate::crawlers::named;
use crate::db::meaning::{
    goes_after, is_chain, is_joined, law_follow_pairs_are_the_follow_edges, law_joined_is_connected,
    law_route_is_no_longer_than_a_chain, law_user_is_row_and_profile,
};
use crate::db::model::{has_id, has_login, place_of_id, Tables, UserRowModel};
use crate::db::paths::{id_lists, is_largest, is_route, routes};
use crate::db::queue::{tally, Tally};
use crate::db::reads::{hits, logins, users_named, SEARCH_LIMIT};
use crate::db::stats::{
    any_follow, common_followers, common_following, is_distribution,
    law_connected_users_are_counted, law_listed_degrees, limited, sources, targets,
};
use crate::db::Db;
use crate::graph::{
    first_of, law_component_sizes_are_exact, law_components_are_counted, sizes_listed,
};
use crate::lists::reversed;
use crate::order::{law_sorted_texts, sorted_texts, text_le};
use crate::text::views;
use crate::types::{
    copy_text, edge_models, opt_text, path_models, user_models, DegreeDist, EdgeModel, User,
    UserModel,
};

verus! {

/// How many paths a listing holds at most.
pub const PATH_LIMIT: usize = 50;

/// Why an analysis has no result.
#[derive(Debug, Clone)]
pub enum AnalyzeError {
    /// Nobody in the database has this login.
    UserNotFound(String),
}

impl AnalyzeError {
    /// The error in words.
    pub fn message(&self) -> (s: String)
        ensures
            match *self {
                AnalyzeError::UserNotFound(login) => s@ == "user not found: "@ + login@,
            },
    {
        match self {
            AnalyzeError::UserNotFound(login) => {
                let mut s = String::from_str("user not found: ");
                s.append(login.as_str());
                s
            },
        }
    }
}

// ── Paths ───────────────────────────────────────────────────────────────────

/// The users along a shortest path from `from` to `to`, both included; `None`
/// where there is none.
pub fn cmd_path(db: &Db, from: &str, to: &str) -> (r: Option<Vec<User>>)
    requires
        db.wf(),
    ensures
        match r {
            Some(path) => path@.len() > 0 && db@.user_by_login(from@) is Some && db@.user_by_login(
                to@,
            ) is Some && is_route(
                db@,
                db@.user_by_login(from@)->0.id,
                db@.user_by_login(to@)->0.id,
                user_models(path@),
            ),
            None => db@.user_by_login(from@) is None || db@.user_by_login(to@) is None || is_route(
                db@,
                db@.user_by_login(from@)->0.id,
                db@.user_by_login(to@)->0.id,
                Seq::empty(),
            ),
        },
{
    let path = db.get_shortest_path(from, to);
    if path.len() == 0 {
        assert(user_models(path@) =~= Seq::empty());
        None
    } else {
        Some(path)
    }
}

/// Lists of users, one per path.
pub type AllPathsResult = Vec<Vec<User>>;

/// The paths between two users, found depth first: six users each at most, and
/// the first `limit` of them, fifty at most. No path comes twice.
pub fn cmd_all_paths(db: &Db, from: &str, to: &str, limit: usize) -> (r: AllPathsResult)
    requires
        db.wf(),
    ensures
        path_models(r@) == match (db@.user_by_login(from@), db@.user_by_login(to@)) {
            (Some(f), Some(t)) => routes(
                db@,
                f.id,
                t.id,
                if limit < PATH_LIMIT {
                    limit as nat
                } else {
                    PATH_LIMIT as nat
                },
            ),
            _ => Seq::empty(),
        },
        id_lists(path_models(r@)).no_duplicates(),
{
    let max: usize = if limit < PATH_LIMIT {
        limit
    } else {
        PATH_LIMIT
    };
    db.get_all_paths(from, to, max)
}

/// The users that matched a query, each with the path to them.
pub type FuzzyPathResult = Vec<(User, Vec<User>)>;

/// `found` holds, in the order of `matched`, the matched users that a path from
/// the user `from` leads to, each with a shortest one.
pub open spec fn are_fuzzy_paths(
    t: Tables,
    from: Seq<char>,
    matched: Seq<UserModel>,
    found: Seq<(UserModel, Seq<UserModel>)>,
) -> bool
    decreases matched.len(),
{
    if matched.len() == 0 {
        found.len() == 0
    } else {
        let u = matched.last();
        let rest = matched.drop_last();
        if t.user_by_login(from) is Some && crate::graph::connected(
            t.active_pairs(),
            t.user_by_login(from)->0.id,
            u.id,
        ) {
            &&& found.len() > 0
            &&& found.last().0 == u
            &&& is_route(t, t.user_by_login(from)->0.id, u.id, found.last().1)
            &&& are_fuzzy_paths(t, from, rest, found.drop_last())
        } else {
            are_fuzzy_paths(t, from, rest, found)
        }
    }
}

/// The models of a fuzzy result.
pub open spec fn fuzzy_models(s: Seq<(User, Vec<User>)>) -> Seq<(UserModel, Seq<UserModel>)> {
    s.map_values(|p: (User, Vec<User>)| (p.0@, user_models(p.1@)))
}

/// The paths from `from` to every user whose login matches the query.
pub fn cmd_fuzzy_path(db: &Db, from: &str, q: &str) -> (r: FuzzyPathResult)
    requires
        db.wf(),
    ensures
        are_fuzzy_paths(
            db@,
            from@,
            users_named(db@, first_of(hits(db@.users, q@), SEARCH_LIMIT as nat)),
            fuzzy_models(r@),
        ),
{
    let ghost t = db@;
    let matches = db.search_users(q);
    let ghost found = matches@;
    let ghost all = user_models(found);
    assert forall|k: int| 0 <= k < all.len() implies t.user_by_login((#[trigger] all[k]).login)
        == Some(all[k]) by {
        assert(all[k] == found[k]@);
    }
    let mut rest = reversed(matches);
    let mut results: FuzzyPathResult = Vec::new();
    let ghost mut done: int = 0;
    assert(all.take(0) =~= Seq::empty());
    assert(fuzzy_models(results@) =~= Seq::empty());
    while rest.len() > 0
        invariant
            db.wf(),
            t == db@,
            all == user_models(found),
            0 <= done,
            done + rest@.len() == all.len(),
            rest@ =~= found.reverse().take(rest@.len() as int),
            forall|k: int|
                0 <= k < all.len() ==> t.user_by_login((#[trigger] all[k]).login) == Some(all[k]),
            are_fuzzy_paths(t, from@, all.take(done), fuzzy_models(results@)),
        decreases rest@.len(),
    {
        assert(all.take(done + 1).drop_last() =~= all.take(done));
        if let Some(user) = rest.pop() {
            let ghost u = user@;
            assert(user == found[done]);
            assert(u == all[done]);
            let ghost r0 = fuzzy_models(results@);
            let path = db.get_shortest_path(from, user.login.as_str());
            assert(user_models(path@).len() == path@.len());
            if path.len() > 0 {
                let ghost p = user_models(path@);
                results.push((user, path));
                assert(fuzzy_models(results@) =~= r0.push((u, p)));
                assert(r0.push((u, p)).drop_last() =~= r0);
            } else {
                proof {
                    if t.user_by_login(from@) is Some {
                        let a = t.user_by_login(from@)->0.id;
                        if crate::graph::connected(t.active_pairs(), a, u.id) {
                            let ids = choose|ids: Seq<i64>|
                                crate::graph::is_shortest_path(t.active_pairs(), a, u.id, ids)
                                    && user_models(path@) == crate::db::reads::users_with(t, ids);
                            assert(ids.len() > 0);
                        }
                    }
                }
            }
        }
        proof {
            done = done + 1;
        }
    }
    assert(all.take(done) =~= all);
    results
}

// ── Common connections ──────────────────────────────────────────────────────

/// Whom two users both follow, and who follows both of them.
#[derive(Debug, Clone)]
pub struct CommonResult {
    pub user1: String,
    pub user2: String,
    pub common_following: Vec<String>,
    pub common_followers: Vec<String>,
}

pub struct CommonModel {
    pub user1: Seq<char>,
    pub user2: Seq<char>,
    pub common_following: Seq<Seq<char>>,
    pub common_followers: Seq<Seq<char>>,
}

impl View for CommonResult {
    type V = CommonModel;

    open spec fn view(&self) -> CommonModel {
        CommonModel {
            user1: self.user1@,
            user2: self.user2@,
            common_following: views(self.common_following@),
            common_followers: views(self.common_followers@),
        }
    }
}

/// The users that both `user1` and `user2` follow, and those that follow both of
/// them, at most `limit` of each (all where it is zero).
pub fn cmd_common(db: &Db, user1: &str, user2: &str, limit: usize) -> (r: Result<
    CommonResult,
    AnalyzeError,
>)
    requires
        db.wf(),
    ensures
        match (db@.user_by_login(user1@), db@.user_by_login(user2@)) {
            (Some(u1), Some(u2)) => r is Ok && r->Ok_0@ == (CommonModel {
                user1: user1@,
                user2: user2@,
                common_following: limited(common_following(db@, u1.id, u2.id), limit as nat),
                common_followers: limited(common_followers(db@, u1.id, u2.id), limit as nat),
            }),
            (None, _) => r matches Err(AnalyzeError::UserNotFound(login)) && login@ == user1@,
            (Some(_), None) => r matches Err(AnalyzeError::UserNotFound(login)) && login@
                == user2@,
        },
        r matches Ok(c) ==> c.user1@ == user1@ && c.user2@ == user2@ && views(c.common_following@)
            == limited(
            common_following(
                db@,
                db@.user_by_login(user1@)->0.id,
                db@.user_by_login(user2@)->0.id,
            ),
            limit as nat,
        ) && views(c.common_followers@) == limited(
            common_followers(
                db@,
                db@.user_by_login(user1@)->0.id,
                db@.user_by_login(user2@)->0.id,
            ),
            limit as nat,
        ),
{
    let u1 = match db.get_user_by_login(user1) {
        Some(u) => u,
        None => {
            return Err(AnalyzeError::UserNotFound(user1.to_owned()));
        },
    };
    let u2 = match db.get_user_by_login(user2) {
        Some(u) => u,
        None => {
            return Err(AnalyzeError::UserNotFound(user2.to_owned()));
        },
    };
    Ok(
        CommonResult {
            user1: user1.to_owned(),
            user2: user2.to_owned(),
            common_following: db.get_common_following(u1.id, u2.id, limit),
            common_followers: db.get_common_followers(u1.id, u2.id, limit),
        },
    )
}

/// The users that a user follows, by login.
pub open spec fn followed(t: Tables, id: i64) -> Seq<Seq<char>> {
    sorted_texts(logins(t.users.filter(|r: UserRowModel| t.follows(id, r.id))))
}

/// With oneself one has in common all whom one follows and all one's followers.
pub proof fn law_common_with_oneself(t: Tables, id: i64)
    ensures
        common_following(t, id, id) == followed(t, id),
        common_followers(t, id, id) == sorted_texts(
            logins(t.users.filter(|r: UserRowModel| t.follows(r.id, id))),
        ),
{
    let p = |r: UserRowModel| t.follows(id, r.id) && t.follows(id, r.id);
    let q = |r: UserRowModel| t.follows(id, r.id);
    assert(p =~= q);
    let p = |r: UserRowModel| t.follows(r.id, id) && t.follows(r.id, id);
    let q = |r: UserRowModel| t.follows(r.id, id);
    assert(p =~= q);
}

/// What two users have in common does not depend on who is named first.
pub proof fn law_common_is_symmetric(t: Tables, a: i64, b: i64)
    ensures
        common_following(t, a, b) == common_following(t, b, a),
        common_followers(t, a, b) == common_followers(t, b, a),
{
    let p = |r: UserRowModel| t.follows(a, r.id) && t.follows(b, r.id);
    let q = |r: UserRowModel| t.follows(b, r.id) && t.follows(a, r.id);
    assert(p =~= q);
    let p = |r: UserRowModel| t.follows(r.id, a) && t.follows(r.id, b);
    let q = |r: UserRowModel| t.follows(r.id, b) && t.follows(r.id, a);
    assert(p =~= q);
}

// ── One user ────────────────────────────────────────────────────────────────

/// The profile of a user and the users around.
#[derive(Debug, Clone)]
pub struct UserProfileResult {
    pub login: String,
    pub name: Option<String>,
    pub company: Option<String>,
    pub location: Option<String>,
    pub created_at: Option<String>,
    pub followers_count: Option<i64>,
    pub following_count: Option<i64>,
    pub public_repos: Option<i64>,
    pub following: Vec<String>,
    pub mutual: Vec<String>,
    pub followers: Vec<String>,
    /// How many followed users the database holds.
    pub crawled_following: usize,
    /// How many followers the database holds.
    pub crawled_followers: usize,
}

pub struct UserProfileModel {
    pub login: Seq<char>,
    pub name: Option<Seq<char>>,
    pub company: Option<Seq<char>>,
    pub location: Option<Seq<char>>,
    pub created_at: Option<Seq<char>>,
    pub followers_count: Option<i64>,
    pub following_count: Option<i64>,
    pub public_repos: Option<i64>,
    pub following: Seq<Seq<char>>,
    pub mutual: Seq<Seq<char>>,
    pub followers: Seq<Seq<char>>,
    pub crawled_following: nat,
    pub crawled_followers: nat,
}

impl View for UserProfileResult {
    type V = UserProfileModel;

    open spec fn view(&self) -> UserProfileModel {
        UserProfileModel {
            login: self.login@,
            name: opt_text(self.name),
            company: opt_text(self.company),
            location: opt_text(self.location),
            created_at: opt_text(self.created_at),
            followers_count: self.followers_count,
            following_count: self.following_count,
            public_repos: self.public_repos,
            following: views(self.following@),
            mutual: views(self.mutual@),
            followers: views(self.followers@),
            crawled_following: self.crawled_following as nat,
            crawled_followers: self.crawled_followers as nat,
        }
    }
}

/// The other users that follow a user, by login.
pub open spec fn following_back(t: Tables, id: i64) -> Seq<Seq<char>> {
    sorted_texts(logins(t.users.filter(|r: UserRowModel| t.follows(r.id, id) && r.id != id)))
}

/// The other users that a user follows and is followed by, by login.
pub open spec fn mutual(t: Tables, id: i64) -> Seq<Seq<char>> {
    sorted_texts(
        logins(
            t.users.filter(
                |r: UserRowModel| t.follows(id, r.id) && t.follows(r.id, id) && r.id != id,
            ),
        ),
    )
}

/// What is shown of a user.
pub open spec fn profile_of(t: Tables, u: UserModel) -> UserProfileModel {
    UserProfileModel {
        login: u.login,
        name: u.name,
        company: u.company,
        location: u.location,
        created_at: u.created_at,
        followers_count: u.followers,
        following_count: u.following,
        public_repos: u.public_repos,
        following: followed(t, u.id),
        mutual: mutual(t, u.id),
        followers: following_back(t, u.id),
        crawled_following: followed(t, u.id).len(),
        crawled_followers: following_back(t, u.id).len(),
    }
}

/// The profile of a user, as far as it has been fetched, and whom the user
/// follows and is followed by.
pub fn cmd_user(db: &Db, login: &str) -> (r: Result<UserProfileResult, AnalyzeError>)
    requires
        db.wf(),
    ensures
        match db@.user_by_login(login@) {
            Some(u) => r is Ok && r->Ok_0@ == profile_of(db@, u),
            None => r matches Err(AnalyzeError::UserNotFound(l)) && l@ == login@,
        },
        r matches Ok(p) ==> {
            let u = db@.user_by_login(login@)->0;
            &&& p.login@ == u.login
            &&& opt_text(p.name) == u.name
            &&& opt_text(p.company) == u.company
            &&& opt_text(p.location) == u.location
            &&& opt_text(p.created_at) == u.created_at
            &&& p.followers_count == u.followers
            &&& p.following_count == u.following
            &&& p.public_repos == u.public_repos
            &&& views(p.following@) == followed(db@, u.id)
            &&& views(p.mutual@) == mutual(db@, u.id)
            &&& views(p.followers@) == following_back(db@, u.id)
            &&& p.crawled_following == p.following@.len()
            &&& p.crawled_followers == p.followers@.len()
        },
{
    broadcast use group_hash_axioms;

    let user = match db.get_user_by_login(login) {
        Some(u) => u,
        None => {
            return Err(AnalyzeError::UserNotFound(login.to_owned()));
        },
    };
    let ghost t = db@;
    let ghost u = user@;
    let out: HashSet<i64> = db.linked(user.id, true);
    let mut back: HashSet<i64> = db.linked(user.id, false);
    back.remove(&user.id);
    let following = db.logins_in(&out, &out);
    let followers = db.logins_in(&back, &back);
    let mutual = db.logins_in(&out, &back);
    proof {
        let p = |r: UserRowModel| out@.contains(r.id) && out@.contains(r.id);
        let q = |r: UserRowModel| t.follows(u.id, r.id);
        assert(p =~= q);
        let p = |r: UserRowModel| back@.contains(r.id) && back@.contains(r.id);
        let q = |r: UserRowModel| t.follows(r.id, u.id) && r.id != u.id;
        assert(p =~= q);
        let p = |r: UserRowModel| out@.contains(r.id) && back@.contains(r.id);
        let q = |r: UserRowModel| t.follows(u.id, r.id) && t.follows(r.id, u.id) && r.id != u.id;
        assert(p =~= q);
        assert(views(following@).len() == following@.len());
        assert(views(followers@).len() == followers@.len());
    }
    let crawled_following: usize = following.len();
    let crawled_followers: usize = followers.len();
    Ok(
        UserProfileResult {
            login: user.login,
            name: user.name,
            company: user.company,
            location: user.location,
            created_at: user.created_at,
            followers_count: user.followers,
            following_count: user.following,
            public_repos: user.public_repos,
            following,
            mutual,
            followers,
            crawled_following,
            crawled_followers,
        },
    )
}

/// A user is among the mutual ones exactly when in both lists.
pub proof fn law_mutual_is_the_intersection(t: Tables, id: i64, login: Seq<char>)
    requires
        t.valid(),
    ensures
        mutual(t, id).contains(login) <==> followed(t, id).contains(login) && following_back(
            t,
            id,
        ).contains(login),
{
    let pf = |r: UserRowModel| t.follows(id, r.id);
    let pb = |r: UserRowModel| t.follows(r.id, id) && r.id != id;
    let pm = |r: UserRowModel| t.follows(id, r.id) && t.follows(r.id, id) && r.id != id;
    lemma_listed(t, pf, login);
    lemma_listed(t, pb, login);
    lemma_listed(t, pm, login);
}

/// A login is listed exactly when its row passes.
proof fn lemma_listed(t: Tables, p: spec_fn(UserRowModel) -> bool, login: Seq<char>)
    requires
        t.valid(),
    ensures
        sorted_texts(logins(t.users.filter(p))).contains(login) <==> has_login(t.users, login)
            && p(t.users[crate::db::model::place_of_login(t.users, login)]),
{
    let f = t.users.filter(p);
    crate::db::reads::lemma_sorted_texts_hold(logins(f));
    crate::lists::lemma_filter_holds(t.users, p);
    if logins(f).contains(login) {
        let i = choose|i: int| 0 <= i < f.len() && logins(f)[i] == login;
        assert(f.contains(f[i]));
        let k = choose|k: int| 0 <= k < t.users.len() && t.users[k] == f[i];
        crate::db::writes::lemma_place_of_login(t.users, k);
    }
    if has_login(t.users, login) {
        let k = crate::db::model::place_of_login(t.users, login);
        assert(0 <= k < t.users.len() && t.users[k].login == login);
        if p(t.users[k]) {
            assert(t.users.contains(t.users[k]));
            assert(f.contains(t.users[k]));
            let i = choose|i: int| 0 <= i < f.len() && f[i] == t.users[k];
            assert(logins(f)[i] == login);
        }
    }
}

/// Whom two users both follow are exactly those whom the one follows and the other
/// follows, and their common followers exactly those that follow the one and the other,
/// whoever the two are and whatever else connects them.
pub proof fn law_common_is_the_intersection(t: Tables, a: i64, b: i64, login: Seq<char>)
    requires
        t.valid(),
    ensures
        common_following(t, a, b).contains(login) <==> followed(t, a).contains(login) && followed(
            t,
            b,
        ).contains(login),
        common_following(t, a, b).contains(login) <==> exists|r: int|
            0 <= r < t.users.len() && (#[trigger] t.users[r]).login == login && goes_after(
                t.edges,
                a,
                t.users[r].id,
            ) && goes_after(t.edges, b, t.users[r].id),
        common_followers(t, a, b).contains(login) <==> exists|r: int|
            0 <= r < t.users.len() && (#[trigger] t.users[r]).login == login && goes_after(
                t.edges,
                t.users[r].id,
                a,
            ) && goes_after(t.edges, t.users[r].id, b),
{
    lemma_listed(t, |r: UserRowModel| t.follows(a, r.id) && t.follows(b, r.id), login);
    lemma_listed(t, |r: UserRowModel| t.follows(r.id, a) && t.follows(r.id, b), login);
    lemma_listed(t, |r: UserRowModel| t.follows(a, r.id), login);
    lemma_listed(t, |r: UserRowModel| t.follows(b, r.id), login);
    lemma_follow_rows(t);
    assert forall|r: int| 0 <= r < t.users.len() && (
    #[trigger] t.users[r]).login == login implies crate::db::model::place_of_login(t.users, login)
        == r by {
        crate::db::writes::lemma_place_of_login(t.users, r);
    }
}

proof fn lemma_follow_rows(t: Tables)
    ensures
        forall|x: i64, y: i64| #[trigger] t.follows(x, y) <==> goes_after(t.edges, x, y),
        forall|x: i64, y: i64| t.follows(x, y) <==> #[trigger] goes_after(t.edges, x, y),
{
    assert forall|x: i64, y: i64| #[trigger] t.follows(x, y) <==> goes_after(t.edges, x, y) by {
        law_follow_pairs_are_the_follow_edges(t, x, y);
    }
    assert forall|x: i64, y: i64| t.follows(x, y) <==> #[trigger] goes_after(t.edges, x, y) by {
        law_follow_pairs_are_the_follow_edges(t, x, y);
    }
}

/// Around a user stand those that active edges of the type `follows` name: whom the
/// user follows, the others that follow the user, and the others that do both.
pub proof fn law_lists_of_a_user(t: Tables, id: i64, login: Seq<char>)
    requires
        t.valid(),
    ensures
        followed(t, id).contains(login) <==> exists|r: int|
            0 <= r < t.users.len() && (#[trigger] t.users[r]).login == login && goes_after(
                t.edges,
                id,
                t.users[r].id,
            ),
        following_back(t, id).contains(login) <==> exists|r: int|
            0 <= r < t.users.len() && (#[trigger] t.users[r]).login == login && t.users[r].id != id
                && goes_after(t.edges, t.users[r].id, id),
        mutual(t, id).contains(login) <==> exists|r: int|
            0 <= r < t.users.len() && (#[trigger] t.users[r]).login == login && t.users[r].id != id
                && goes_after(t.edges, id, t.users[r].id) && goes_after(
                t.edges,
                t.users[r].id,
                id,
            ),
{
    lemma_listed(t, |r: UserRowModel| t.follows(id, r.id), login);
    lemma_listed(t, |r: UserRowModel| t.follows(r.id, id) && r.id != id, login);
    lemma_listed(
        t,
        |r: UserRowModel| t.follows(id, r.id) && t.follows(r.id, id) && r.id != id,
        login,
    );
    lemma_follow_rows(t);
    assert forall|r: int| 0 <= r < t.users.len() && (
    #[trigger] t.users[r]).login == login implies crate::db::model::place_of_login(t.users, login)
        == r by {
        crate::db::writes::lemma_place_of_login(t.users, r);
    }
}

/// None of the lists of logins names anybody twice, and each is in the order of texts.
pub proof fn law_lists_are_sorted(t: Tables, a: i64, b: i64)
    requires
        t.valid(),
    ensures
        is_ascending(common_following(t, a, b)),
        is_ascending(common_followers(t, a, b)),
        is_ascending(followed(t, a)),
        is_ascending(following_back(t, a)),
        is_ascending(mutual(t, a)),
{
    lemma_ascending(t, |r: UserRowModel| t.follows(a, r.id) && t.follows(b, r.id));
    lemma_ascending(t, |r: UserRowModel| t.follows(r.id, a) && t.follows(r.id, b));
    lemma_ascending(t, |r: UserRowModel| t.follows(a, r.id));
    lemma_ascending(t, |r: UserRowModel| t.follows(r.id, a) && r.id != a);
    lemma_ascending(
        t,
        |r: UserRowModel| t.follows(a, r.id) && t.follows(r.id, a) && r.id != a,
    );
}

/// Each text stands before the next one and differs from it.
pub open spec fn is_ascending(s: Seq<Seq<char>>) -> bool {
    forall|i: int, j: int|
        0 <= i < j < s.len() ==> text_le(#[trigger] s[i], #[trigger] s[j]) && s[i] != s[j]
}

proof fn lemma_ascending(t: Tables, p: spec_fn(UserRowModel) -> bool)
    requires
        t.valid(),
    ensures
        is_ascending(sorted_texts(logins(t.users.filter(p)))),
{
    law_sorted_texts(logins(t.users.filter(p)));
    crate::db::reads::lemma_sorted_logins(t.users, p);
}

/// A limit of zero lets everything through; any other the first so many, and all where
/// there are no more.
pub proof fn law_limit_keeps_the_first<T>(s: Seq<T>, limit: nat)
    ensures
        limited(s, 0) == s,
        limit > 0 ==> limited(s, limit).len() == (if s.len() < limit {
            s.len()
        } else {
            limit
        }),
        forall|i: int| 0 <= i < limited(s, limit).len() ==> #[trigger] limited(s, limit)[i] == s[i],
{
}

/// What is shown of a user is what is stored, each under its own name, with the lists
/// of the users around and how many they hold.
pub proof fn law_profile_shows_what_is_stored(t: Tables, u: UserModel)
    ensures
        ({
            let p = profile_of(t, u);
            &&& p.login == u.login && p.name == u.name && p.company == u.company
            &&& p.location == u.location && p.created_at == u.created_at
            &&& p.followers_count == u.followers && p.following_count == u.following
            &&& p.public_repos == u.public_repos
            &&& p.following == followed(t, u.id)
            &&& p.mutual == mutual(t, u.id)
            &&& p.followers == following_back(t, u.id)
            &&& p.crawled_following == p.following.len()
            &&& p.crawled_followers == p.followers.len()
        }),
{
}

// ── Figures ─────────────────────────────────────────────────────────────────

/// For each degree of an edge, how many users such edges leave.
pub fn cmd_degree_dist(db: &Db) -> (r: Vec<DegreeDist>)
    requires
        db.wf(),
        db@.edges.len() <= i64::MAX,
    ensures
        is_distribution(db@.edges, r@),
{
    db.degree_distribution()
}

/// Figures about the database and the graph.
#[derive(Debug, Clone)]
pub struct StatsResult {
    pub total_users: u64,
    pub crawled: u64,
    pub pending: u64,
    pub min_degree: i32,
    pub max_degree: i32,
    pub file_size_bytes: u64,
    pub degree_dist: Vec<DegreeDist>,
    pub total_edges: u64,
    pub connected_components: usize,
    /// How many users the largest component has.
    pub largest_component: usize,
    pub users_with_outgoing: u64,
    pub users_with_incoming: u64,
}

/// The figures are those of the tables.
pub open spec fn are_figures(t: Tables, crawler: Seq<char>, s: StatsResult) -> bool {
    &&& s.total_users == t.users.len()
    &&& s.crawled == tally(t, crawler, Tally::Status("done"))
    &&& s.pending == tally(t, crawler, Tally::Status("pending"))
    &&& is_distribution(t.edges, s.degree_dist@)
    &&& s.degree_dist@.len() == 0 ==> s.min_degree == 0 && s.max_degree == 0
    &&& s.degree_dist@.len() > 0 ==> s.min_degree == s.degree_dist@.first().degree && s.max_degree
        == s.degree_dist@.last().degree
    &&& s.total_edges == t.follow_pairs().len()
    &&& exists|parts: Seq<Set<i64>>, sizes: Seq<usize>|
        {
            &&& #[trigger] sizes_listed(t.follow_pairs(), t.user_ids(), parts, sizes)
            &&& s.connected_components == parts.len()
            &&& is_largest(sizes, s.largest_component)
        }
    &&& s.users_with_outgoing == sources(t.edges, any_follow()).len()
    &&& s.users_with_incoming == targets(t.edges, any_follow()).len()
}

/// Figures about the database, whose file has `file_size_bytes` bytes, and the
/// graph.
pub fn cmd_stats(db: &Db, crawler_name: &str, file_size_bytes: u64) -> (r: StatsResult)
    requires
        db.wf(),
        db@.edges.len() <= i64::MAX,
    ensures
        are_figures(db@, crawler_name@, r),
        r.file_size_bytes == file_size_bytes,
{
    let degree_dist = db.degree_distribution();
    let (connected_components, largest_component, total_users) = db.connected_components_info();
    let (min_degree, max_degree): (i32, i32) = if degree_dist.len() == 0 {
        (0, 0)
    } else {
        (degree_dist[0].degree, degree_dist[degree_dist.len() - 1].degree)
    };
    StatsResult {
        total_users: total_users as u64,
        crawled: db.get_crawled_count(crawler_name) as u64,
        pending: db.get_pending_count(crawler_name) as u64,
        min_degree,
        max_degree,
        file_size_bytes,
        degree_dist,
        total_edges: db.get_edge_count() as u64,
        connected_components,
        largest_component,
        users_with_outgoing: db.get_users_with_outgoing() as u64,
        users_with_incoming: db.get_users_with_incoming() as u64,
    }
}

// ── Export ──────────────────────────────────────────────────────────────────

/// A user as exported.
#[derive(Debug, Clone)]
pub struct ExportUser {
    pub login: String,
    pub name: Option<String>,
    pub avatar_url: Option<String>,
    pub company: Option<String>,
    pub location: Option<String>,
    pub followers: Option<i64>,
    pub following: Option<i64>,
    pub public_repos: Option<i64>,
}

pub struct ExportUserModel {
    pub login: Seq<char>,
    pub name: Option<Seq<char>>,
    pub avatar_url: Option<Seq<char>>,
    pub company: Option<Seq<char>>,
    pub location: Option<Seq<char>>,
    pub followers: Option<i64>,
    pub following: Option<i64>,
    pub public_repos: Option<i64>,
}

impl View for ExportUser {
    type V = ExportUserModel;

    open spec fn view(&self) -> ExportUserModel {
        ExportUserModel {
            login: self.login@,
            name: opt_text(self.name),
            avatar_url: opt_text(self.avatar_url),
            company: opt_text(self.company),
            location: opt_text(self.location),
            followers: self.followers,
            following: self.following,
            public_repos: self.public_repos,
        }
    }
}

/// An edge as exported, by the logins of its ends.
#[derive(Debug, Clone)]
pub struct ExportEdge {
    pub from: String,
    pub to: String,
    pub edge_type: String,
    pub degree: i32,
}

pub struct ExportEdgeModel {
    pub from: Seq<char>,
    pub to: Seq<char>,
    pub edge_type: Seq<char>,
    pub degree: i32,
}

impl View for ExportEdge {
    type V = ExportEdgeModel;

    open spec fn view(&self) -> ExportEdgeModel {
        ExportEdgeModel {
            from: self.from@,
            to: self.to@,
            edge_type: self.edge_type@,
            degree: self.degree,
        }
    }
}

/// The graph as exported.
#[derive(Debug, Clone)]
pub struct ExportGraph {
    pub users: Vec<ExportUser>,
    pub edges: Vec<ExportEdge>,
}

/// What is exported of a user.
pub open spec fn exported_user(u: UserModel) -> ExportUserModel {
    ExportUserModel {
        login: u.login,
        name: u.name,
        avatar_url: u.avatar_url,
        company: u.company,
        location: u.location,
        followers: u.followers,
        following: u.following,
        public_repos: u.public_repos,
    }
}

/// What is exported of an edge.
pub open spec fn exported_edge(t: Tables, e: EdgeModel) -> ExportEdgeModel {
    ExportEdgeModel {
        from: t.user_by_id(e.from)->0.login,
        to: t.user_by_id(e.to)->0.login,
        edge_type: e.kind,
        degree: e.degree,
    }
}

/// The models of a list of exported users.
pub open spec fn export_users(s: Seq<ExportUser>) -> Seq<ExportUserModel> {
    s.map_values(|u: ExportUser| u@)
}

/// The models of a list of exported edges.
pub open spec fn export_edges(s: Seq<ExportEdge>) -> Seq<ExportEdgeModel> {
    s.map_values(|e: ExportEdge| e@)
}

proof fn lemma_named_by_id(t: Tables, id: i64)
    requires
        has_id(t.users, id),
    ensures
        named(t.users, t.user_by_id(id)->0.login, id),
{
    let i = place_of_id(t.users, id);
    assert(0 <= i < t.users.len() && t.users[i].id == id);
}

/// The whole graph for export, and how many users and edges it has.
pub fn cmd_export(db: &Db) -> (r: (ExportGraph, usize, usize))
    requires
        db.wf(),
    ensures
        export_users(r.0.users@) == db@.all_users().map_values(|u: UserModel| exported_user(u)),
        export_edges(r.0.edges@) == db@.edges.map_values(|e: EdgeModel| exported_edge(db@, e)),
        r.1 == db@.users.len(),
        r.2 == db@.edges.len(),
        r.0.users@.len() == db@.users.len(),
        forall|i: int|
            0 <= i < db@.users.len() ==> {
                let (x, u) = (#[trigger] r.0.users@[i], db@.all_users()[i]);
                &&& x.login@ == u.login
                &&& opt_text(x.name) == u.name
                &&& opt_text(x.avatar_url) == u.avatar_url
                &&& opt_text(x.company) == u.company
                &&& opt_text(x.location) == u.location
                &&& x.followers == u.followers
                &&& x.following == u.following
                &&& x.public_repos == u.public_repos
            },
        r.0.edges@.len() == db@.edges.len(),
        forall|j: int|
            0 <= j < db@.edges.len() ==> {
                let (x, e) = (#[trigger] r.0.edges@[j], db@.edges[j]);
                &&& named(db@.users, x.from@, e.from)
                &&& named(db@.users, x.to@, e.to)
                &&& x.edge_type@ == e.kind
                &&& x.degree == e.degree
            },
{
    let ghost t = db@;
    let ghost fu = |u: UserModel| exported_user(u);
    let ghost fe = |e: EdgeModel| exported_edge(t, e);
    let users = db.get_all_users();
    let edges = db.get_all_edges();
    let mut out_users: Vec<ExportUser> = Vec::new();
    let mut i: usize = 0;
    while i < users.len()
        invariant
            user_models(users@) == t.all_users(),
            fu == (|u: UserModel| exported_user(u)),
            i <= users@.len(),
            export_users(out_users@) =~= t.all_users().take(i as int).map_values(fu),
        decreases users@.len() - i,
    {
        let ghost o0 = export_users(out_users@);
        let u = &users[i];
        assert(u@ == user_models(users@)[i as int]);
        let x = ExportUser {
            login: u.login.clone(),
            name: copy_text(&u.name),
            avatar_url: copy_text(&u.avatar_url),
            company: copy_text(&u.company),
            location: copy_text(&u.location),
            followers: u.followers,
            following: u.following,
            public_repos: u.public_repos,
        };
        assert(x@ == fu(u@));
        let ghost m = x@;
        out_users.push(x);
        assert(export_users(out_users@) =~= o0.push(m));
        assert(t.all_users().take(i + 1).map_values(fu) =~= t.all_users().take(i as int).map_values(
            fu,
        ).push(m));
        i = i + 1;
    }
    assert(t.all_users().take(i as int) =~= t.all_users());
    let mut out_edges: Vec<ExportEdge> = Vec::new();
    let mut j: usize = 0;
    proof {
        db.law_invariant();
    }
    while j < edges.len()
        invariant
            db.wf(),
            t == db@,
            t.valid(),
            edge_models(edges@) == t.edges,
            fe == (|e: EdgeModel| exported_edge(t, e)),
            j <= edges@.len(),
            export_edges(out_edges@) =~= t.edges.take(j as int).map_values(fe),
        decreases edges@.len() - j,
    {
        let ghost o0 = export_edges(out_edges@);
        let e = &edges[j];
        assert(e@ == edge_models(edges@)[j as int]);
        assert(has_id(t.users, t.edges[j as int].from) && has_id(t.users, t.edges[j as int].to));
        if let Some(from) = db.get_user_by_id(e.from_user_id) {
            if let Some(to) = db.get_user_by_id(e.to_user_id) {
                let x = ExportEdge {
                    from: from.login,
                    to: to.login,
                    edge_type: e.edge_type.clone(),
                    degree: e.degree,
                };
                assert(x@ == fe(e@));
                let ghost m = x@;
                out_edges.push(x);
                assert(export_edges(out_edges@) =~= o0.push(m));
                assert(t.edges.take(j + 1).map_values(fe) =~= t.edges.take(j as int).map_values(
                    fe,
                ).push(m));
            }
        }
        j = j + 1;
    }
    assert(t.edges.take(j as int) =~= t.edges);
    assert(export_edges(out_edges@).len() == out_edges@.len());
    proof {
        let wanted = t.all_users().map_values(fu);
        assert(export_users(out_users@) == wanted);
        assert(export_users(out_users@).len() == out_users@.len());
        assert forall|k: int| 0 <= k < t.users.len() implies (#[trigger] out_users@[k])@
            == exported_user(t.all_users()[k]) by {
            assert(export_users(out_users@)[k] == wanted[k]);
        }
        let drawn = t.edges.map_values(fe);
        assert forall|k: int| 0 <= k < t.edges.len() implies (#[trigger] out_edges@[k])@
            == exported_edge(t, t.edges[k]) && named(
            t.users,
            out_edges@[k].from@,
            t.edges[k].from,
        ) && named(t.users, out_edges@[k].to@, t.edges[k].to) by {
            assert(export_edges(out_edges@)[k] == drawn[k]);
            lemma_named_by_id(t, t.edges[k].from);
            lemma_named_by_id(t, t.edges[k].to);
        }
    }
    let (user_count, edge_count) = (users.len(), out_edges.len());
    (ExportGraph { users: out_users, edges: out_edges }, user_count, edge_count)
}

// ── Routes ──────────────────────────────────────────────────────────────────

/// Who follows whom along a path.
#[derive(Debug, Clone)]
pub struct DirectedEdge {
    pub from: String,
    pub to: String,
}

/// The logins of the models of a list of directed edges.
pub open spec fn edge_logins(s: Seq<DirectedEdge>) -> Seq<(Seq<char>, Seq<char>)> {
    s.map_values(|e: DirectedEdge| (e.from@, e.to@))
}

/// A path and who follows whom along it.
#[derive(Debug, Clone)]
pub struct PathInfo {
    pub path: Vec<User>,
    pub directed_edges: Vec<DirectedEdge>,
}

pub struct PathModel {
    pub path: Seq<UserModel>,
    pub edges: Seq<(Seq<char>, Seq<char>)>,
}

impl View for PathInfo {
    type V = PathModel;

    open spec fn view(&self) -> PathModel {
        PathModel { path: user_models(self.path@), edges: edge_logins(self.directed_edges@) }
    }
}

/// The models of a list of paths.
pub open spec fn info_models(s: Seq<PathInfo>) -> Seq<PathModel> {
    s.map_values(|p: PathInfo| p@)
}

/// The paths between two users, or to every user that matches a query.
#[derive(Debug, Clone)]
pub struct RouteResult {
    pub from: String,
    pub query: String,
    pub is_fuzzy: bool,
    /// How many paths there are, shown or not.
    pub total: usize,
    pub paths: Vec<PathInfo>,
}

/// Who of two neighbours on a path follows whom.
pub open spec fn step(t: Tables, a: UserModel, b: UserModel) -> Seq<(Seq<char>, Seq<char>)> {
    (if t.follows(a.id, b.id) {
        seq![(a.login, b.login)]
    } else {
        Seq::empty()
    }) + (if t.follows(b.id, a.id) {
        seq![(b.login, a.login)]
    } else {
        Seq::empty()
    })
}

/// Who follows whom along a path, from its beginning to its end.
pub open spec fn steps(t: Tables, path: Seq<UserModel>) -> Seq<(Seq<char>, Seq<char>)>
    decreases path.len(),
{
    if path.len() < 2 {
        Seq::empty()
    } else {
        steps(t, path.drop_last()) + step(t, path[path.len() - 2], path.last())
    }
}

/// The path with who follows whom along it.
pub open spec fn path_info(t: Tables, path: Seq<UserModel>) -> PathModel {
    PathModel { path, edges: steps(t, path) }
}

/// The paths with who follows whom along them.
pub open spec fn path_infos(t: Tables, paths: Seq<Seq<UserModel>>) -> Seq<PathModel> {
    paths.map_values(|p: Seq<UserModel>| path_info(t, p))
}

fn describe_path(db: &Db, path: Vec<User>) -> (r: PathInfo)
    requires
        db.wf(),
    ensures
        r@ == path_info(db@, user_models(path@)),
{
    let ghost t = db@;
    let ghost p = user_models(path@);
    let mut edges: Vec<DirectedEdge> = Vec::new();
    assert(edge_logins(edges@) =~= Seq::empty());
    if path.len() > 1 {
        let mut i: usize = 1;
        assert(steps(t, p.take(1)) =~= Seq::empty());
        while i < path.len()
            invariant
                db.wf(),
                t == db@,
                p == user_models(path@),
                1 <= i <= path@.len(),
                edge_logins(edges@) == steps(t, p.take(i as int)),
            decreases path@.len() - i,
        {
            let ghost e0 = edge_logins(edges@);
            let a = &path[i - 1];
            let b = &path[i];
            assert(a@ == p[i - 1] && b@ == p[i as int]);
            assert(p.take(i + 1).drop_last() =~= p.take(i as int));
            if db.has_follows_edge(a.id, b.id) {
                edges.push(DirectedEdge { from: a.login.clone(), to: b.login.clone() });
            }
            if db.has_follows_edge(b.id, a.id) {
                edges.push(DirectedEdge { from: b.login.clone(), to: a.login.clone() });
            }
            assert(edge_logins(edges@) =~= e0 + step(t, a@, b@));
            i = i + 1;
        }
        assert(p.take(i as int) =~= p);
    }
    PathInfo { path, directed_edges: edges }
}

/// Describes every path of a list.
fn describe_paths(db: &Db, paths: Vec<Vec<User>>) -> (r: Vec<PathInfo>)
    requires
        db.wf(),
    ensures
        info_models(r@) == path_infos(db@, path_models(paths@)),
{
    let ghost all = paths@;
    let ghost want = path_infos(db@, path_models(all));
    let mut rest = reversed(paths);
    let mut r: Vec<PathInfo> = Vec::new();
    while rest.len() > 0
        invariant
            db.wf(),
            want == path_infos(db@, path_models(all)),
            r@.len() + rest@.len() == all.len(),
            rest@ =~= all.reverse().take(rest@.len() as int),
            info_models(r@) =~= want.take(r@.len() as int),
        decreases rest@.len(),
    {
        let ghost r0 = info_models(r@);
        let ghost n = r@.len() as int;
        if let Some(p) = rest.pop() {
            assert(p == all[n]);
            assert(path_models(all)[n] == user_models(p@));
            let info = describe_path(db, p);
            let ghost m = info@;
            assert(m == want[n]);
            r.push(info);
            assert(info_models(r@) =~= r0.push(m));
        }
    }
    assert(want.take(r@.len() as int) =~= want);
    r
}

/// All paths between two users, as far as they are listed.
pub open spec fn all_routes(t: Tables, from: Seq<char>, to: Seq<char>) -> Seq<Seq<UserModel>> {
    match (t.user_by_login(from), t.user_by_login(to)) {
        (Some(f), Some(g)) => routes(t, f.id, g.id, PATH_LIMIT as nat),
        _ => Seq::empty(),
    }
}

/// The users along a shortest path, or nobody.
pub open spec fn is_best_route(
    t: Tables,
    from: Seq<char>,
    to: Seq<char>,
    path: Seq<UserModel>,
) -> bool {
    match (t.user_by_login(from), t.user_by_login(to)) {
        (Some(f), Some(g)) => is_route(t, f.id, g.id, path),
        _ => path.len() == 0,
    }
}

/// Who follows whom along a path is told step by step: for one more user behind the last
/// one, whether the last one follows the new one, and then whether the new one follows
/// the last one.
pub proof fn law_steps_grow_with_the_path(
    t: Tables,
    path: Seq<UserModel>,
    a: UserModel,
    b: UserModel,
)
    ensures
        steps(t, path).len() == 0 || path.len() >= 2,
        ({
            let before = steps(t, path.push(a));
            let after = steps(t, path.push(a).push(b));
            let there = goes_after(t.edges, a.id, b.id);
            let back = goes_after(t.edges, b.id, a.id);
            &&& after.len() == before.len() + (if there {
                1int
            } else {
                0int
            }) + (if back {
                1int
            } else {
                0int
            })
            &&& after.take(before.len() as int) == before
            &&& there ==> after[before.len() as int] == (a.login, b.login)
            &&& back ==> after.last() == (b.login, a.login)
        }),
        path_info(t, path).path == path,
        path_info(t, path).edges == steps(t, path),
{
    law_follow_pairs_are_the_follow_edges(t, a.id, b.id);
    law_follow_pairs_are_the_follow_edges(t, b.id, a.id);
    let whole = path.push(a).push(b);
    assert(whole.drop_last() =~= path.push(a));
    assert(whole[whole.len() - 2] == a);
    let before = steps(t, path.push(a));
    assert((before + step(t, a, b)).take(before.len() as int) =~= before);
}

/// Each path is described at its place.
pub proof fn law_paths_are_described_in_order(t: Tables, paths: Seq<Seq<UserModel>>, i: int)
    requires
        0 <= i < paths.len(),
    ensures
        path_infos(t, paths).len() == paths.len(),
        path_infos(t, paths)[i].path == paths[i],
        path_infos(t, paths)[i].edges == steps(t, paths[i]),
{
}

/// The listed paths between two users that have a row are at most fifty between their
/// ids, and the best one runs between their ids; for a login without a row there is
/// none of either.
pub proof fn law_routes_run_between_the_named(
    t: Tables,
    a: int,
    b: int,
    from: Seq<char>,
    to: Seq<char>,
    path: Seq<UserModel>,
)
    requires
        t.valid(),
    ensures
        0 <= a < t.users.len() && 0 <= b < t.users.len() && t.users[a].login == from
            && t.users[b].login == to ==> all_routes(t, from, to) == routes(
            t,
            t.users[a].id,
            t.users[b].id,
            50,
        ) && (is_best_route(t, from, to, path) <==> is_route(
            t,
            t.users[a].id,
            t.users[b].id,
            path,
        )),
        (forall|r: int| 0 <= r < t.users.len() ==> (#[trigger] t.users[r]).login != from) || (
        forall|r: int| 0 <= r < t.users.len() ==> (#[trigger] t.users[r]).login != to)
            ==> all_routes(t, from, to).len() == 0 && (is_best_route(t, from, to, path)
            <==> path.len() == 0),
{
    if 0 <= a < t.users.len() && 0 <= b < t.users.len() {
        law_user_is_row_and_profile(t, a);
        law_user_is_row_and_profile(t, b);
    }
}

/// Of the users that a query matched those are found to whom a chain of active edges
/// leads, in the order in which they matched, each with a route that is not empty.
pub proof fn law_fuzzy_paths_lead_to_whom_they_can(
    t: Tables,
    r: int,
    matched: Seq<UserModel>,
    found: Seq<(UserModel, Seq<UserModel>)>,
)
    requires
        t.valid(),
        0 <= r < t.users.len(),
        are_fuzzy_paths(t, t.users[r].login, matched, found),
    ensures
        found.map_values(|p: (UserModel, Seq<UserModel>)| p.0) == matched.filter(
            |u: UserModel| is_joined(t.edges, t.users[r].id, u.id),
        ),
        forall|k: int|
            0 <= k < found.len() ==> (#[trigger] found[k]).1.len() > 0 && is_route(
                t,
                t.users[r].id,
                found[k].0.id,
                found[k].1,
            ),
    decreases matched.len(),
{
    let from = t.users[r].id;
    let p = |u: UserModel| is_joined(t.edges, from, u.id);
    let first = |x: (UserModel, Seq<UserModel>)| x.0;
    reveal(Seq::filter);
    law_user_is_row_and_profile(t, r);
    if matched.len() == 0 {
        assert(found.map_values(first) =~= matched.filter(p));
    } else {
        let u = matched.last();
        law_joined_is_connected(t, from, u.id);
        if p(u) {
            law_fuzzy_paths_lead_to_whom_they_can(t, r, matched.drop_last(), found.drop_last());
            assert(found.map_values(first) =~= found.drop_last().map_values(first).push(u));
            let ids = choose|ids: Seq<i64>|
                ids.len() > 0 && ids.first() == from && ids.last() == u.id && #[trigger] is_chain(
                    t.edges,
                    ids,
                );
            law_route_is_no_longer_than_a_chain(t, from, u.id, found.last().1, ids);
            assert forall|k: int| 0 <= k < found.len() implies (#[trigger] found[k]).1.len() > 0
                && is_route(t, from, found[k].0.id, found[k].1) by {
                if k < found.len() - 1 {
                    assert(found.drop_last()[k] == found[k]);
                }
            }
        } else {
            law_fuzzy_paths_lead_to_whom_they_can(t, r, matched.drop_last(), found);
        }
    }
}

/// From a login without a row no path leads anywhere.
pub proof fn law_no_fuzzy_path_from_an_unknown_user(
    t: Tables,
    from: Seq<char>,
    matched: Seq<UserModel>,
    found: Seq<(UserModel, Seq<UserModel>)>,
)
    requires
        forall|r: int| 0 <= r < t.users.len() ==> (#[trigger] t.users[r]).login != from,
        are_fuzzy_paths(t, from, matched, found),
    ensures
        found.len() == 0,
    decreases matched.len(),
{
    if matched.len() > 0 {
        law_no_fuzzy_path_from_an_unknown_user(t, from, matched.drop_last(), found);
    }
}

/// The figures are counts of rows: those of the users, of the scopes of the crawler that
/// are done or wait, of the active edges of the type `follows` and of their ends, and of
/// the groups of users that such edges join.
pub proof fn law_figures_count_rows(
    t: Tables,
    crawler: Seq<char>,
    s: StatsResult,
    sources: Seq<i64>,
    targets: Seq<i64>,
    chosen: Seq<i64>,
)
    requires
        are_figures(t, crawler, s),
        sources.no_duplicates(),
        targets.no_duplicates(),
        forall|id: i64| #[trigger]
            sources.contains(id) <==> exists|k: int|
                0 <= k < t.edges.len() && (#[trigger] t.edges[k]).is_active && t.edges[k].kind
                    == "follows"@ && t.edges[k].from == id,
        forall|id: i64| #[trigger]
            targets.contains(id) <==> exists|k: int|
                0 <= k < t.edges.len() && (#[trigger] t.edges[k]).is_active && t.edges[k].kind
                    == "follows"@ && t.edges[k].to == id,
        forall|i: int| 0 <= i < chosen.len() ==> t.user_ids().contains(#[trigger] chosen[i]),
        forall|i: int, j: int|
            0 <= i < j < chosen.len() ==> !crate::graph::connected(
                t.follow_pairs(),
                #[trigger] chosen[i],
                #[trigger] chosen[j],
            ),
        forall|k: int|
            0 <= k < t.user_ids().len() ==> crate::graph::meets_one(
                t.follow_pairs(),
                chosen,
                #[trigger] t.user_ids()[k],
            ),
    ensures
        s.total_users == t.users.len(),
        s.crawled == tally(t, crawler, Tally::Status("done")),
        s.pending == tally(t, crawler, Tally::Status("pending")),
        s.total_edges == t.follow_pairs().len(),
        s.users_with_outgoing == sources.len(),
        s.users_with_incoming == targets.len(),
        s.connected_components == chosen.len(),
        forall|k: int|
            0 <= k < t.edges.len() && (#[trigger] t.edges[k]).is_active ==> s.min_degree
                <= t.edges[k].degree <= s.max_degree,
        (exists|k: int| 0 <= k < t.edges.len() && (#[trigger] t.edges[k]).is_active) ==> exists|
            k: int,
        |
            0 <= k < t.edges.len() && (#[trigger] t.edges[k]).is_active && t.edges[k].degree
                == s.min_degree,
        (exists|k: int| 0 <= k < t.edges.len() && (#[trigger] t.edges[k]).is_active) ==> exists|
            k: int,
        |
            0 <= k < t.edges.len() && (#[trigger] t.edges[k]).is_active && t.edges[k].degree
                == s.max_degree,
        (forall|k: int| 0 <= k < t.edges.len() ==> !(#[trigger] t.edges[k]).is_active)
            ==> s.min_degree == 0 && s.max_degree == 0,
{
    law_connected_users_are_counted(t.edges, sources, targets);
    let (parts, sizes) = choose|parts: Seq<Set<i64>>, sizes: Seq<usize>|
        {
            &&& #[trigger] sizes_listed(t.follow_pairs(), t.user_ids(), parts, sizes)
            &&& s.connected_components == parts.len()
            &&& is_largest(sizes, s.largest_component)
        };
    law_components_are_counted(t.follow_pairs(), t.user_ids(), parts, sizes, chosen);
    let d = s.degree_dist@;
    assert forall|k: int| 0 <= k < t.edges.len() && (
    #[trigger] t.edges[k]).is_active implies s.min_degree <= t.edges[k].degree <= s.max_degree by {
        let i = choose|i: int| 0 <= i < d.len() && (#[trigger] d[i]).degree == t.edges[k].degree;
        assert(d[0].degree <= d[i].degree);
        assert(d[i].degree <= d[d.len() - 1].degree);
    }
    if d.len() > 0 {
        law_listed_degrees(t.edges, d, d[0].degree);
        law_listed_degrees(t.edges, d, d[d.len() - 1].degree);
    }
}

/// The largest component has as many users as active edges of the type `follows` join,
/// and no group of users that they join has more.
pub proof fn law_largest_component_is_a_maximum(
    t: Tables,
    crawler: Seq<char>,
    s: StatsResult,
    r: int,
    group: Seq<i64>,
)
    requires
        are_figures(t, crawler, s),
        0 <= r < t.users.len(),
        group.no_duplicates(),
        forall|k: int|
            0 <= k < group.len() ==> crate::graph::connected(
                t.follow_pairs(),
                t.users[r].id,
                #[trigger] group[k],
            ),
    ensures
        group.len() <= s.largest_component,
        exists|k: int|
            0 <= k < t.users.len() && crate::graph::component(
                t.follow_pairs(),
                (#[trigger] t.users[k]).id,
            ).len() == s.largest_component,
{
    let (parts, sizes) = choose|parts: Seq<Set<i64>>, sizes: Seq<usize>|
        {
            &&& #[trigger] sizes_listed(t.follow_pairs(), t.user_ids(), parts, sizes)
            &&& s.connected_components == parts.len()
            &&& is_largest(sizes, s.largest_component)
        };
    let ids = t.user_ids();
    assert(ids[r] == t.users[r].id);
    law_component_sizes_are_exact(t.follow_pairs(), ids, parts, sizes, ids[r], group);
    let i = choose|i: int| 0 <= i < sizes.len() && group.len() <= #[trigger] sizes[i];
    let m = choose|m: int| 0 <= m < sizes.len() && sizes[m] == s.largest_component;
    assert(sizes[m] == s.largest_component);
    let k = choose|k: int|
        0 <= k < ids.len() && crate::graph::component(t.follow_pairs(), #[trigger] ids[k]).len()
            == sizes[m];
    assert(t.users[k].id == ids[k]);
}

/// The paths from `from` to `query`: a shortest one where `limit` is one, else
/// the first `limit` of the listed ones (all where it is zero). With `fuzzy` a
/// shortest one to each user whose login matches the query.
pub fn cmd_route(db: &Db, from: &str, query: &str, limit: usize, fuzzy: bool) -> (r: RouteResult)
    requires
        db.wf(),
    ensures
        r.from@ == from@,
        r.query@ == query@,
        r.is_fuzzy == fuzzy,
        fuzzy ==> exists|found: Seq<(UserModel, Seq<UserModel>)>|
            #[trigger] are_fuzzy_paths(
                db@,
                from@,
                users_named(db@, first_of(hits(db@.users, query@), SEARCH_LIMIT as nat)),
                found,
            ) && r.total == found.len() && info_models(r.paths@) == path_infos(
                db@,
                second_parts(found),
            ),
        !fuzzy && limit == 1 ==> exists|path: Seq<UserModel>|
            #[trigger] is_best_route(db@, from@, query@, path) && r.total == (if path.len() == 0 {
                0int
            } else {
                1int
            }) && info_models(r.paths@) == (if path.len() == 0 {
                Seq::empty()
            } else {
                seq![path_info(db@, path)]
            }),
        !fuzzy && limit != 1 ==> r.total == all_routes(db@, from@, query@).len() && info_models(
            r.paths@,
        ) == path_infos(db@, limited(all_routes(db@, from@, query@), limit as nat)),
{
    let ghost t = db@;
    if fuzzy {
        let found = cmd_fuzzy_path(db, from, query);
        let ghost models = fuzzy_models(found@);
        let total: usize = found.len();
        let paths = second_of(found);
        let infos = describe_paths(db, paths);
        assert(models.len() == total);
        return RouteResult {
            from: from.to_owned(),
            query: query.to_owned(),
            is_fuzzy: true,
            total,
            paths: infos,
        };
    }
    if limit == 1 {
        let path = db.get_shortest_path(from, query);
        let ghost p = user_models(path@);
        assert(is_best_route(t, from@, query@, p));
        assert(p.len() == path@.len());
        let mut paths: Vec<PathInfo> = Vec::new();
        let total: usize = if path.len() == 0 {
            0
        } else {
            1
        };
        if path.len() > 0 {
            paths.push(describe_path(db, path));
        }
        assert(info_models(paths@) =~= (if p.len() == 0 {
            Seq::empty()
        } else {
            seq![path_info(db@, p)]
        }));
        return RouteResult {
            from: from.to_owned(),
            query: query.to_owned(),
            is_fuzzy: false,
            total,
            paths,
        };
    }
    let mut all = cmd_all_paths(db, from, query, PATH_LIMIT);
    let ghost models = path_models(all@);
    let total: usize = all.len();
    assert(models.len() == total);
    if limit > 0 && all.len() > limit {
        all.truncate(limit);
        assert(path_models(all@) =~= models.take(limit as int));
    }
    let paths = describe_paths(db, all);
    RouteResult { from: from.to_owned(), query: query.to_owned(), is_fuzzy: false, total, paths }
}

/// The paths of a fuzzy result.
pub open spec fn second_parts(found: Seq<(UserModel, Seq<UserModel>)>) -> Seq<Seq<UserModel>> {
    found.map_values(|p: (UserModel, Seq<UserModel>)| p.1)
}

fn second_of(found: FuzzyPathResult) -> (r: Vec<Vec<User>>)
    ensures
        path_models(r@) == second_parts(fuzzy_models(found@)),
{
    let ghost all = found@;
    let ghost want = second_parts(fuzzy_models(all));
    let mut rest = reversed(found);
    let mut r: Vec<Vec<User>> = Vec::new();
    while rest.len() > 0
        invariant
            r@.len() + rest@.len() == all.len(),
            want == second_parts(fuzzy_models(all)),
            rest@ =~= all.reverse().take(rest@.len() as int),
            path_models(r@) =~= want.take(r@.len() as int),
        decreases rest@.len(),
    {
        let ghost r0 = path_models(r@);
        let ghost n = r@.len() as int;
        if let Some((_, p)) = rest.pop() {
            let ghost m = user_models(p@);
            assert(p == all[n].1);
            assert(fuzzy_models(all)[n].1 == m);
            r.push(p);
            assert(path_models(r@) =~= r0.push(m));
        }
    }
    assert(want.take(r@.len() as int) =~= want);
    r
}

/// The models of results keep what they are of, each under its own name.
pub proof fn law_analysis_models_keep_the_fields(
    c: CommonResult,
    p: UserProfileResult,
    u: ExportUser,
    e: ExportEdge,
    i: PathInfo,
    k: int,
)
    ensures
        c@.user1 == c.user1@ && c@.user2 == c.user2@,
        c@.common_following == views(c.common_following@),
        c@.common_followers == views(c.common_followers@),
        p@.login == p.login@ && p@.name == opt_text(p.name),
        p@.company == opt_text(p.company) && p@.location == opt_text(p.location),
        p@.created_at == opt_text(p.created_at),
        p@.followers_count == p.followers_count && p@.following_count == p.following_count,
        p@.public_repos == p.public_repos,
        p@.following == views(p.following@) && p@.mutual == views(p.mutual@),
        p@.followers == views(p.followers@),
        p@.crawled_following == p.crawled_following,
        p@.crawled_followers == p.crawled_followers,
        u@.login == u.login@ && u@.name == opt_text(u.name),
        u@.avatar_url == opt_text(u.avatar_url) && u@.company == opt_text(u.company),
        u@.location == opt_text(u.location),
        u@.followers == u.followers && u@.following == u.following,
        u@.public_repos == u.public_repos,
        e@.from == e.from@ && e@.to == e.to@ && e@.edge_type == e.edge_type@,
        e@.degree == e.degree,
        i@.path == user_models(i.path@),
        i@.edges.len() == i.directed_edges@.len(),
        0 <= k < i.directed_edges@.len() ==> i@.edges[k] == (
            i.directed_edges@[k].from@,
            i.directed_edges@[k].to@,
        ),
{
}

/// The models of paths keep what they are of, at its place.
pub proof fn law_path_models_keep_the_places(
    paths: Seq<Vec<User>>,
    infos: Seq<PathInfo>,
    found: Seq<(User, Vec<User>)>,
    models: Seq<(UserModel, Seq<UserModel>)>,
    i: int,
)
    ensures
        path_models(paths).len() == paths.len(),
        0 <= i < paths.len() ==> path_models(paths)[i] == user_models(paths[i]@),
        info_models(infos).len() == infos.len(),
        0 <= i < infos.len() ==> info_models(infos)[i] == infos[i]@,
        fuzzy_models(found).len() == found.len(),
        0 <= i < found.len() ==> fuzzy_models(found)[i].0 == found[i].0@ && fuzzy_models(
            found,
        )[i].1 == user_models(found[i].1@),
        second_parts(models).len() == models.len(),
        0 <= i < models.len() ==> second_parts(models)[i] == models[i].1,
{
}

} // verus!
