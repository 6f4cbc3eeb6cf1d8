//! What the look-ups come to in terms of the rows of the tables.
use vstd::prelude::*;

use super::model::{
    crawled, edge_is, failed, has_edge, has_id, has_login, has_scope, is_follow, place_of_id,
    place_of_scope, released, retried, scope_is, top_id, with_priority, with_status, ChangeModel,
    HistoryModel, ScopeModel, Tables, UserRowModel,
};
use super::paths::{
    id_lists, is_route, lemma_ids_of_users, lemma_walk_known, routes, PATH_NEIGHBORS, PATH_USERS,
};
use super::reads::{lemma_place_of_id, users_with};
use super::scopes::Scope;
use super::users::UserRow;
use super::writes::{lemma_place_of_login, lemma_top_id};
use super::{change_models, Change, DbError, HistoryEntry};
use crate::graph::{
    adjacent, are_adjacent, connected, first_of, is_shortest_path, is_walk, law_enumeration_is_exact,
    law_enumeration_repeats_nothing, law_short_lists_are_followed, law_simple_path_is_walk,
    paths_from, walk_between,
};
use crate::lists::{lemma_filter_holds, lemma_filter_step};
use crate::text::{decimal, decimal_int};
use crate::types::{opt_text, EdgeModel, ProfileModel, UserModel};

verus! {

// ── What the tables guarantee ───────────────────────────────────────────────

/// Tables are valid exactly when no two rows are those of one user, of one edge or of
/// one scope, and edges and profiles belong to users that have a row.
pub proof fn law_validity_is_about_keys_alone(t: Tables)
    ensures
        t.valid() <==> {
            &&& forall|i: int, j: int|
                0 <= i < j < t.users.len() ==> (#[trigger] t.users[i]).id != (
                #[trigger] t.users[j]).id && t.users[i].login != t.users[j].login
            &&& forall|i: int, j: int|
                0 <= i < j < t.edges.len() ==> (#[trigger] t.edges[i]).from != (
                #[trigger] t.edges[j]).from || t.edges[i].to != t.edges[j].to || t.edges[i].kind
                    != t.edges[j].kind
            &&& forall|i: int, j: int|
                0 <= i < j < t.scopes.len() ==> (#[trigger] t.scopes[i]).crawler != (
                #[trigger] t.scopes[j]).crawler || t.scopes[i].key != t.scopes[j].key
            &&& forall|i: int|
                0 <= i < t.edges.len() ==> has_row(t, (#[trigger] t.edges[i]).from) && has_row(
                    t,
                    t.edges[i].to,
                )
            &&& forall|id: i64| #[trigger] t.profiles.dom().contains(id) ==> has_row(t, id)
        },
{
    if t.valid() {
        assert forall|i: int| 0 <= i < t.edges.len() implies has_row(
            t,
            (#[trigger] t.edges[i]).from,
        ) && has_row(t, t.edges[i].to) by {
            assert(has_id(t.users, t.edges[i].from) && has_id(t.users, t.edges[i].to));
        }
        assert forall|id: i64| #[trigger] t.profiles.dom().contains(id) implies has_row(t, id) by {
            assert(has_id(t.users, id));
        }
        assert forall|i: int, j: int| 0 <= i < j < t.edges.len() implies (
        #[trigger] t.edges[i]).from != (#[trigger] t.edges[j]).from || t.edges[i].to
            != t.edges[j].to || t.edges[i].kind != t.edges[j].kind by {
            assert(!edge_is(
                t.edges[j],
                t.edges[i].from,
                t.edges[i].to,
                t.edges[i].kind,
            ));
        }
        assert forall|i: int, j: int| 0 <= i < j < t.scopes.len() implies (
        #[trigger] t.scopes[i]).crawler != (#[trigger] t.scopes[j]).crawler || t.scopes[i].key
            != t.scopes[j].key by {
            assert(!scope_is(t.scopes[j], t.scopes[i].crawler, t.scopes[i].key));
        }
    }
}

/// A row of the table of users has this id.
pub open spec fn has_row(t: Tables, id: i64) -> bool {
    exists|i: int| 0 <= i < t.users.len() && (#[trigger] t.users[i]).id == id
}

// ── Users ───────────────────────────────────────────────────────────────────

/// A user is found under the login and under the id of a row, stands at its place among
/// all users, and has what the profile says, each under its own name; nothing where
/// there is no profile.
pub proof fn law_user_is_row_and_profile(t: Tables, i: int)
    requires
        t.valid(),
        0 <= i < t.users.len(),
    ensures
        ({
            let (id, u) = (t.users[i].id, t.all_users()[i]);
            &&& t.all_users().len() == t.users.len()
            &&& t.user_by_login(t.users[i].login) == Some(u)
            &&& t.user_by_id(id) == Some(u)
            &&& u.id == id
            &&& u.login == t.users[i].login
            &&& t.profiles.dom().contains(id) ==> {
                let p = t.profiles[id];
                &&& u.name == p.name && u.avatar_url == p.avatar_url
                &&& u.company == p.company && u.location == p.location
                &&& u.followers == Some(p.followers) && u.following == Some(p.following)
                &&& u.public_repos == Some(p.public_repos)
                &&& u.created_at == p.created_at && u.updated_at == p.updated_at
            }
            &&& !t.profiles.dom().contains(id) ==> {
                &&& u.name is None && u.avatar_url is None && u.company is None
                &&& u.location is None && u.followers is None && u.following is None
                &&& u.public_repos is None && u.created_at is None && u.updated_at is None
            }
        }),
{
    lemma_place_of_id(t.users, i);
    lemma_place_of_login(t.users, i);
}

/// Nobody is found for whom there is no row.
pub proof fn law_nobody_without_a_row_is_found(t: Tables, login: Seq<char>, id: i64)
    ensures
        (forall|i: int| 0 <= i < t.users.len() ==> (#[trigger] t.users[i]).login != login)
            ==> t.user_by_login(login) is None,
        (forall|i: int| 0 <= i < t.users.len() ==> (#[trigger] t.users[i]).id != id)
            ==> t.user_by_id(id) is None,
{
}

/// A profile that is stored for a user is shown of that user, and of no other.
pub proof fn law_stored_profile_is_shown(t: Tables, i: int, profile: ProfileModel, j: int)
    requires
        t.valid(),
        0 <= i < t.users.len(),
        0 <= j < t.users.len(),
    ensures
        ({
            let u = t.apply(ChangeModel::PutProfile { user_id: t.users[i].id, profile });
            let shown = u.all_users()[i];
            &&& u.users == t.users && u.edges == t.edges && u.history == t.history
            &&& u.scopes == t.scopes && u.config == t.config
            &&& shown.id == t.users[i].id && shown.login == t.users[i].login
            &&& shown.name == profile.name && shown.avatar_url == profile.avatar_url
            &&& shown.company == profile.company && shown.location == profile.location
            &&& shown.followers == Some(profile.followers)
            &&& shown.following == Some(profile.following)
            &&& shown.public_repos == Some(profile.public_repos)
            &&& shown.created_at == profile.created_at
            &&& shown.updated_at == profile.updated_at
            &&& i != j ==> u.all_users()[j] == t.all_users()[j]
        }),
{
}

// ── Edges ───────────────────────────────────────────────────────────────────

/// Some active edge leads from the one id to the other.
pub open spec fn leads(edges: Seq<EdgeModel>, a: i64, b: i64) -> bool {
    exists|i: int|
        0 <= i < edges.len() && (#[trigger] edges[i]).is_active && edges[i].from == a
            && edges[i].to == b
}

/// Some active edge joins the two ids, in either direction.
pub open spec fn joins(edges: Seq<EdgeModel>, a: i64, b: i64) -> bool {
    leads(edges, a, b) || leads(edges, b, a)
}

/// Every step of `ids` runs along an active edge.
pub open spec fn is_chain(edges: Seq<EdgeModel>, ids: Seq<i64>) -> bool {
    forall|k: int| 0 <= k < ids.len() - 1 ==> joins(edges, #[trigger] ids[k], ids[k + 1])
}

/// The graph of the paths has an edge for each active edge, whatever else is stored
/// with it, and no other.
pub proof fn law_active_pairs_are_the_active_edges(t: Tables, a: i64, b: i64)
    ensures
        t.active_pairs().contains((a, b)) <==> exists|i: int|
            0 <= i < t.edges.len() && (#[trigger] t.edges[i]).is_active && t.edges[i].from == a
                && t.edges[i].to == b,
        adjacent(t.active_pairs(), a, b) <==> joins(t.edges, a, b),
{
    lemma_active_pair(t, a, b);
    lemma_active_pair(t, b, a);
}

proof fn lemma_active_pair(t: Tables, a: i64, b: i64)
    ensures
        t.active_pairs().contains((a, b)) <==> leads(t.edges, a, b),
{
    let p = |e: EdgeModel| e.is_active;
    let f = t.edges.filter(p);
    let pairs = t.active_pairs();
    lemma_filter_holds(t.edges, p);
    if pairs.contains((a, b)) {
        let i = choose|i: int| 0 <= i < pairs.len() && pairs[i] == (a, b);
        assert(f.contains(f[i]));
        let k = choose|k: int| 0 <= k < t.edges.len() && t.edges[k] == f[i];
        assert(t.edges[k].is_active && t.edges[k].from == a && t.edges[k].to == b);
    }
    if leads(t.edges, a, b) {
        let i = choose|i: int|
            0 <= i < t.edges.len() && (#[trigger] t.edges[i]).is_active && t.edges[i].from == a
                && t.edges[i].to == b;
        assert(t.edges.contains(t.edges[i]));
        assert(f.contains(t.edges[i]));
        let k = choose|k: int| 0 <= k < f.len() && f[k] == t.edges[i];
        assert(pairs[k] == (a, b));
    }
}

/// Some active edge of the type `follows` leads from the one id to the other.
pub open spec fn goes_after(edges: Seq<EdgeModel>, a: i64, b: i64) -> bool {
    exists|i: int|
        0 <= i < edges.len() && (#[trigger] edges[i]).is_active && edges[i].kind == "follows"@
            && edges[i].from == a && edges[i].to == b
}

/// The graph of who follows whom has an edge for each active edge of the type
/// `follows`, and no other; by it the first user follows the second.
pub proof fn law_follow_pairs_are_the_follow_edges(t: Tables, a: i64, b: i64)
    ensures
        t.follow_pairs().contains((a, b)) <==> goes_after(t.edges, a, b),
        t.follows(a, b) <==> goes_after(t.edges, a, b),
{
    let p = |e: EdgeModel| is_follow(e);
    let f = t.edges.filter(p);
    let pairs = t.follow_pairs();
    lemma_filter_holds(t.edges, p);
    if pairs.contains((a, b)) {
        let i = choose|i: int| 0 <= i < pairs.len() && pairs[i] == (a, b);
        assert(f.contains(f[i]));
        let k = choose|k: int| 0 <= k < t.edges.len() && t.edges[k] == f[i];
        assert(t.edges[k].is_active && t.edges[k].from == a && t.edges[k].to == b);
    }
    if goes_after(t.edges, a, b) {
        let i = choose|i: int|
            0 <= i < t.edges.len() && (#[trigger] t.edges[i]).is_active && t.edges[i].kind
                == "follows"@ && t.edges[i].from == a && t.edges[i].to == b;
        assert(t.edges.contains(t.edges[i]));
        assert(f.contains(t.edges[i]));
        let k = choose|k: int| 0 <= k < f.len() && f[k] == t.edges[i];
        assert(pairs[k] == (a, b));
        assert(super::model::is_follow_of(t.edges[i], a, b));
    }
}

/// Without edges there are no pairs, and one more edge brings one more pair at the
/// end where it is active: none is dropped, and the order is that of the edges.
pub proof fn law_pairs_grow_with_the_edges(t: Tables, e: EdgeModel)
    ensures
        t.edges.len() == 0 ==> t.active_pairs().len() == 0 && t.follow_pairs().len() == 0,
        (Tables { edges: t.edges.push(e), ..t }).active_pairs() == (if e.is_active {
            t.active_pairs().push((e.from, e.to))
        } else {
            t.active_pairs()
        }),
        (Tables { edges: t.edges.push(e), ..t }).follow_pairs() == (if e.is_active && e.kind
            == "follows"@ {
            t.follow_pairs().push((e.from, e.to))
        } else {
            t.follow_pairs()
        }),
{
    let p = |e: EdgeModel| e.is_active;
    let q = |e: EdgeModel| is_follow(e);
    let f = |e: EdgeModel| (e.from, e.to);
    let u = Tables { edges: t.edges.push(e), ..t };
    let n = t.edges.len() as int;
    lemma_filter_step(u.edges, p, n);
    lemma_filter_step(u.edges, q, n);
    assert(u.edges.take(n) =~= t.edges);
    assert(u.edges.take(n + 1) =~= u.edges);
    assert(u.edges[n] == e);
    assert(t.edges.filter(p).push(e).map_values(f) =~= t.edges.filter(p).map_values(f).push(f(e)));
    assert(t.edges.filter(q).push(e).map_values(f) =~= t.edges.filter(q).map_values(f).push(f(e)));
    if t.edges.len() == 0 {
        lemma_filter_holds(t.edges, p);
        lemma_filter_holds(t.edges, q);
    }
}

// ── Shortest paths ──────────────────────────────────────────────────────────

/// Some chain of active edges leads from the one id to the other.
pub open spec fn is_joined(edges: Seq<EdgeModel>, a: i64, b: i64) -> bool {
    exists|ids: Seq<i64>|
        ids.len() > 0 && ids.first() == a && ids.last() == b && #[trigger] is_chain(edges, ids)
}

/// Two users are connected in the graph of the paths exactly when a chain of active edges
/// joins them, however long it is.
pub proof fn law_joined_is_connected(t: Tables, a: i64, b: i64)
    ensures
        connected(t.active_pairs(), a, b) <==> is_joined(t.edges, a, b),
{
    if connected(t.active_pairs(), a, b) {
        let p = choose|p: Seq<i64>| walk_between(t.active_pairs(), a, b, p);
        assert forall|k: int| 0 <= k < p.len() - 1 implies joins(
            t.edges,
            #[trigger] p[k],
            p[k + 1],
        ) by {
            assert(adjacent(t.active_pairs(), p[k], p[k + 1]));
            law_active_pairs_are_the_active_edges(t, p[k], p[k + 1]);
        }
        assert(is_chain(t.edges, p));
    }
    if is_joined(t.edges, a, b) {
        let p = choose|p: Seq<i64>|
            p.len() > 0 && p.first() == a && p.last() == b && #[trigger] is_chain(t.edges, p);
        lemma_chain_is_walk(t, p);
        assert(walk_between(t.active_pairs(), a, b, p));
    }
}

/// A route is a chain of active edges from the one user to the other, and its users
/// are rows of the table.
pub proof fn law_route_is_a_chain(t: Tables, from: i64, to: i64, found: Seq<UserModel>)
    requires
        t.valid(),
        exists|i: int| 0 <= i < t.users.len() && (#[trigger] t.users[i]).id == from,
        is_route(t, from, to, found),
        found.len() > 0,
    ensures
        found.first().id == from,
        found.last().id == to,
        is_chain(t.edges, found.map_values(|u: UserModel| u.id)),
        forall|k: int|
            0 <= k < found.len() ==> exists|i: int|
                0 <= i < t.users.len() && #[trigger] t.all_users()[i] == #[trigger] found[k],
{
    let pairs = t.active_pairs();
    let ids = choose|ids: Seq<i64>|
        is_shortest_path(pairs, from, to, ids) && found == users_with(t, ids);
    lemma_walk_known(t, ids);
    lemma_ids_of_users(t, ids);
    let got = found.map_values(|u: UserModel| u.id);
    assert(got == ids);
    assert(found[0].id == got[0]);
    assert(found[found.len() - 1].id == got[found.len() - 1]);
    assert forall|k: int| 0 <= k < got.len() - 1 implies joins(
        t.edges,
        #[trigger] got[k],
        got[k + 1],
    ) by {
        assert(adjacent(pairs, ids[k], ids[k + 1]));
        law_active_pairs_are_the_active_edges(t, ids[k], ids[k + 1]);
    }
    assert forall|k: int| 0 <= k < found.len() implies exists|i: int|
        0 <= i < t.users.len() && #[trigger] t.all_users()[i] == #[trigger] found[k] by {
        assert(has_id(t.users, ids[k]));
        let i = place_of_id(t.users, ids[k]);
        assert(0 <= i < t.users.len() && t.users[i].id == ids[k]);
        assert(t.all_users()[i] == found[k]);
    }
}

/// Where a chain of active edges leads from the one user to the other, a route is
/// found, and it is not longer than the chain.
pub proof fn law_route_is_no_longer_than_a_chain(
    t: Tables,
    from: i64,
    to: i64,
    found: Seq<UserModel>,
    ids: Seq<i64>,
)
    requires
        is_route(t, from, to, found),
        ids.len() > 0,
        ids.first() == from,
        ids.last() == to,
        is_chain(t.edges, ids),
    ensures
        0 < found.len() <= ids.len(),
{
    lemma_chain_is_walk(t, ids);
    assert(walk_between(t.active_pairs(), from, to, ids));
    assert(connected(t.active_pairs(), from, to));
    let p = choose|p: Seq<i64>|
        is_shortest_path(t.active_pairs(), from, to, p) && found == users_with(t, p);
    assert(p.len() > 0);
}

proof fn lemma_chain_is_walk(t: Tables, ids: Seq<i64>)
    requires
        ids.len() > 0,
        is_chain(t.edges, ids),
    ensures
        is_walk(t.active_pairs(), ids),
{
    assert forall|k: int| 0 <= k < ids.len() - 1 implies adjacent(
        t.active_pairs(),
        #[trigger] ids[k],
        ids[k + 1],
    ) by {
        assert(joins(t.edges, ids[k], ids[k + 1]));
        law_active_pairs_are_the_active_edges(t, ids[k], ids[k + 1]);
    }
}

/// Two users that an active edge joins, of whatever degree and type, have a route of
/// the two of them; and a user has a route of one to the same user.
pub proof fn law_joined_users_are_one_step_apart(
    t: Tables,
    i: int,
    found: Seq<UserModel>,
    back: Seq<UserModel>,
    own: Seq<UserModel>,
)
    requires
        t.valid(),
        0 <= i < t.edges.len(),
        t.edges[i].is_active,
        t.edges[i].from != t.edges[i].to,
        is_route(t, t.edges[i].from, t.edges[i].to, found),
        is_route(t, t.edges[i].to, t.edges[i].from, back),
        is_route(t, t.edges[i].from, t.edges[i].from, own),
    ensures
        found.map_values(|u: UserModel| u.id) == seq![t.edges[i].from, t.edges[i].to],
        back.map_values(|u: UserModel| u.id) == seq![t.edges[i].to, t.edges[i].from],
        own.map_values(|u: UserModel| u.id) == seq![t.edges[i].from],
{
    let (a, b) = (t.edges[i].from, t.edges[i].to);
    assert(leads(t.edges, a, b));
    assert(has_id(t.users, a) && has_id(t.users, b));
    law_route_is_no_longer_than_a_chain(t, a, b, found, seq![a, b]);
    law_route_is_no_longer_than_a_chain(t, b, a, back, seq![b, a]);
    law_route_is_no_longer_than_a_chain(t, a, a, own, seq![a]);
    law_route_is_a_chain(t, a, b, found);
    law_route_is_a_chain(t, b, a, back);
    law_route_is_a_chain(t, a, a, own);
    assert(found.map_values(|u: UserModel| u.id) =~= seq![a, b]);
    assert(back.map_values(|u: UserModel| u.id) =~= seq![b, a]);
    assert(own.map_values(|u: UserModel| u.id) =~= seq![a]);
}

// ── Listed paths ────────────────────────────────────────────────────────────

/// The ids are different and each of them is joined to `n`.
pub open spec fn are_around(edges: Seq<EdgeModel>, n: i64, ids: Seq<i64>) -> bool {
    &&& ids.no_duplicates()
    &&& forall|k: int| 0 <= k < ids.len() ==> joins(edges, n, #[trigger] ids[k])
}

/// Every listed path is a chain of active edges from the one user to the other with
/// two to six users, none of them twice; no path is listed twice, and no more are
/// listed than asked for.
pub proof fn law_listed_paths_are_chains(t: Tables, from: i64, to: i64, max_paths: nat, k: int)
    requires
        t.valid(),
        exists|i: int| 0 <= i < t.users.len() && (#[trigger] t.users[i]).id == from,
        from != to,
        0 <= k < routes(t, from, to, max_paths).len(),
    ensures
        routes(t, from, to, max_paths).len() <= max_paths,
        id_lists(routes(t, from, to, max_paths)).no_duplicates(),
        ({
            let ids = id_lists(routes(t, from, to, max_paths))[k];
            &&& 2 <= ids.len() <= 6
            &&& ids.first() == from
            &&& ids.last() == to
            &&& ids.no_duplicates()
            &&& is_chain(t.edges, ids)
        }),
{
    let pairs = t.active_pairs();
    let (cap, size) = (PATH_NEIGHBORS as nat, PATH_USERS as nat);
    let all = paths_from(pairs, cap, from, to, size);
    lemma_listed_ids(t, from, to, max_paths);
    let ids = id_lists(routes(t, from, to, max_paths))[k];
    assert(ids == all[k]);
    assert(all.contains(all[k]));
    law_enumeration_is_exact(pairs, cap, from, to, size, ids);
    law_simple_path_is_walk(pairs, cap, from, to, size, ids);
    law_enumeration_repeats_nothing(pairs, cap, from, to, size);
    assert forall|j: int| 0 <= j < ids.len() - 1 implies joins(
        t.edges,
        #[trigger] ids[j],
        ids[j + 1],
    ) by {
        assert(adjacent(pairs, ids[j], ids[j + 1]));
        law_active_pairs_are_the_active_edges(t, ids[j], ids[j + 1]);
    }
    assert(id_lists(routes(t, from, to, max_paths)) =~= first_of(all, max_paths));
}

/// The users along a listed path are those of the table, as they are stored.
pub proof fn law_listed_users_are_those_of_the_table(
    t: Tables,
    from: i64,
    to: i64,
    max_paths: nat,
    k: int,
    m: int,
)
    requires
        t.valid(),
        exists|i: int| 0 <= i < t.users.len() && (#[trigger] t.users[i]).id == from,
        0 <= k < routes(t, from, to, max_paths).len(),
        0 <= m < routes(t, from, to, max_paths)[k].len(),
    ensures
        exists|i: int|
            0 <= i < t.users.len() && #[trigger] t.all_users()[i] == routes(
                t,
                from,
                to,
                max_paths,
            )[k][m],
{
    let pairs = t.active_pairs();
    let (cap, size) = (PATH_NEIGHBORS as nat, PATH_USERS as nat);
    let ids = if from == to {
        seq![from]
    } else {
        paths_from(pairs, cap, from, to, size)[k]
    };
    assert(routes(t, from, to, max_paths)[k] == users_with(t, ids));
    if from != to {
        assert(paths_from(pairs, cap, from, to, size).contains(ids));
        law_enumeration_is_exact(pairs, cap, from, to, size, ids);
        law_simple_path_is_walk(pairs, cap, from, to, size, ids);
        lemma_walk_known(t, ids);
    }
    assert(has_id(t.users, ids[m]));
    let i = place_of_id(t.users, ids[m]);
    assert(0 <= i < t.users.len() && t.users[i].id == ids[m]);
    assert(t.all_users()[i] == routes(t, from, to, max_paths)[k][m]);
}

/// The ids of the listed paths are the enumerated ones.
proof fn lemma_listed_ids(t: Tables, from: i64, to: i64, max_paths: nat)
    requires
        t.valid(),
        has_id(t.users, from),
        from != to,
    ensures
        id_lists(routes(t, from, to, max_paths)) == first_of(
            paths_from(
                t.active_pairs(),
                PATH_NEIGHBORS as nat,
                from,
                to,
                PATH_USERS as nat,
            ),
            max_paths,
        ),
{
    let pairs = t.active_pairs();
    let (cap, size) = (PATH_NEIGHBORS as nat, PATH_USERS as nat);
    let all = paths_from(pairs, cap, from, to, size);
    let got = id_lists(routes(t, from, to, max_paths));
    let want = first_of(all, max_paths);
    assert forall|k: int| 0 <= k < want.len() implies got[k] == #[trigger] want[k] by {
        assert(all[k] == want[k]);
        assert(all.contains(all[k]));
        law_enumeration_is_exact(pairs, cap, from, to, size, all[k]);
        law_simple_path_is_walk(pairs, cap, from, to, size, all[k]);
        lemma_walk_known(t, all[k]);
        lemma_ids_of_users(t, all[k]);
    }
    assert(got =~= want);
}

/// Where fewer paths are listed than asked for, none is missing: every chain of
/// active edges from the one user to the other that has at most six users, none of
/// them twice, each of them joined to at most fifty others.
pub proof fn law_no_path_is_missing(
    t: Tables,
    from: i64,
    to: i64,
    max_paths: nat,
    ids: Seq<i64>,
)
    requires
        t.valid(),
        exists|i: int| 0 <= i < t.users.len() && (#[trigger] t.users[i]).id == from,
        from != to,
        routes(t, from, to, max_paths).len() < max_paths,
        0 < ids.len() <= 6,
        ids.first() == from,
        ids.last() == to,
        ids.no_duplicates(),
        is_chain(t.edges, ids),
        forall|k: int, around: Seq<i64>|
            0 <= k < ids.len() && #[trigger] are_around(t.edges, #[trigger] ids[k], around)
                ==> around.len() <= 50,
    ensures
        id_lists(routes(t, from, to, max_paths)).contains(ids),
{
    let pairs = t.active_pairs();
    let (cap, size) = (PATH_NEIGHBORS as nat, PATH_USERS as nat);
    let all = paths_from(pairs, cap, from, to, size);
    lemma_listed_ids(t, from, to, max_paths);
    lemma_chain_is_walk(t, ids);
    assert forall|k: int, around: Seq<i64>|
        0 <= k < ids.len() && #[trigger] are_adjacent(
            pairs,
            #[trigger] ids[k],
            around,
        ) implies around.len() <= cap by {
        assert forall|j: int| 0 <= j < around.len() implies joins(
            t.edges,
            ids[k],
            #[trigger] around[j],
        ) by {
            law_active_pairs_are_the_active_edges(t, ids[k], around[j]);
        }
        assert(are_around(t.edges, ids[k], around));
    }
    law_short_lists_are_followed(pairs, cap, from, to, size, ids);
    assert(all.contains(ids));
    let want = first_of(all, max_paths);
    assert(id_lists(routes(t, from, to, max_paths)).len() == routes(t, from, to, max_paths).len());
    assert(want =~= all);
}

/// Asking for more paths only adds to the end, and from a user to the same user
/// there is one path, of that user alone.
pub proof fn law_more_paths_are_added(
    t: Tables,
    from: i64,
    to: i64,
    few: nat,
    many: nat,
    r: int,
)
    requires
        t.valid(),
        few <= many,
    ensures
        from != to ==> routes(t, from, to, few) == first_of(routes(t, from, to, many), few),
        from == to ==> routes(t, from, to, few).len() == 1 && routes(t, from, to, few)[0].len()
            == 1,
        from == to && 0 <= r < t.users.len() && t.users[r].id == from ==> routes(
            t,
            from,
            to,
            few,
        )[0][0] == t.all_users()[r],
{
    if 0 <= r < t.users.len() {
        law_user_is_row_and_profile(t, r);
    }
    if from != to {
        assert(routes(t, from, to, few) =~= first_of(routes(t, from, to, many), few));
    }
}

// ── Changes ─────────────────────────────────────────────────────────────────

/// There is room for one more user exactly where no row has the largest id.
pub proof fn law_room_ends_at_the_largest_id(t: Tables)
    ensures
        t.room() <==> forall|i: int|
            0 <= i < t.users.len() ==> (#[trigger] t.users[i]).id < i64::MAX,
{
    if t.users.len() > 0 {
        let k = crate::crawlers::lemma_top_is_a_row(t.users);
        assert(t.users[k].id == top_id(t.users));
    }
    assert forall|i: int| 0 <= i < t.users.len() implies (#[trigger] t.users[i]).id <= top_id(
        t.users,
    ) by {
        lemma_top_id(t.users, i);
    }
}

/// A new login gets a row behind the others, with an id above every other one, the first
/// one where there is none; a known login changes nothing. Nothing else is touched.
pub proof fn law_new_user_gets_the_next_id(t: Tables, login: Seq<char>)
    requires
        forall|i: int| 0 <= i < t.users.len() ==> (#[trigger] t.users[i]).id < i64::MAX,
    ensures
        ({
            let u = t.insert_user(login);
            let n = t.users.len() as int;
            let known = exists|i: int| 0 <= i < n && (#[trigger] t.users[i]).login == login;
            &&& u.profiles == t.profiles && u.edges == t.edges && u.history == t.history
            &&& u.scopes == t.scopes && u.config == t.config
            &&& known ==> u.users == t.users
            &&& !known ==> u.users.len() == n + 1 && u.users.take(n) == t.users && u.users[n].login
                == login
            &&& !known && n == 0 ==> u.users[n].id == 1
            &&& !known ==> forall|i: int| 0 <= i < n ==> (#[trigger] t.users[i]).id < u.users[n].id
            &&& !known && n > 0 ==> exists|i: int|
                0 <= i < n && (#[trigger] t.users[i]).id + 1 == u.users[n].id
        }),
{
    let u = t.insert_user(login);
    let n = t.users.len() as int;
    if n > 0 {
        let k = crate::crawlers::lemma_top_is_a_row(t.users);
        assert(t.users[k].id == top_id(t.users));
    }
    assert forall|i: int| 0 <= i < n implies (#[trigger] t.users[i]).id <= top_id(t.users) by {
        lemma_top_id(t.users, i);
    }
    if !has_login(t.users, login) {
        assert(u.users.take(n) =~= t.users);
    }
}

/// The id of a login is that of its row.
pub proof fn law_id_of_a_login(t: Tables, i: int)
    requires
        t.valid(),
        0 <= i < t.users.len(),
    ensures
        t.id_of(t.users[i].login) == t.users[i].id,
        t.user_ids().len() == t.users.len(),
        t.user_ids()[i] == t.users[i].id,
{
    lemma_place_of_login(t.users, i);
}

/// A new edge stands behind the others with an entry in the log; an edge of the same
/// type between the same users, whatever else is stored with it, changes nothing.
pub proof fn law_new_edge_is_added_and_logged(t: Tables, e: EdgeModel)
    ensures
        ({
            let u = t.insert_edge(e);
            let known = exists|i: int|
                0 <= i < t.edges.len() && (#[trigger] t.edges[i]).from == e.from && t.edges[i].to
                    == e.to && t.edges[i].kind == e.kind;
            &&& u.users == t.users && u.profiles == t.profiles && u.scopes == t.scopes
            &&& u.config == t.config
            &&& known ==> u.edges == t.edges && u.history == t.history
            &&& !known ==> u.edges == t.edges.push(e) && u.history == t.history.push(
                HistoryModel { from: e.from, to: e.to, kind: e.kind, action: "added"@ },
            )
        }),
{
    if has_edge(t.edges, e.from, e.to, e.kind) {
        let i = choose|i: int|
            0 <= i < t.edges.len() && edge_is(#[trigger] t.edges[i], e.from, e.to, e.kind);
        assert(t.edges[i].from == e.from);
    }
    if exists|i: int|
        0 <= i < t.edges.len() && (#[trigger] t.edges[i]).from == e.from && t.edges[i].to == e.to
            && t.edges[i].kind == e.kind {
        let i = choose|i: int|
            0 <= i < t.edges.len() && (#[trigger] t.edges[i]).from == e.from && t.edges[i].to
                == e.to && t.edges[i].kind == e.kind;
        assert(edge_is(t.edges[i], e.from, e.to, e.kind));
    }
}

/// A new key stands behind the others, waiting, without failures and not yet crawled; a
/// key that the crawler knows, in whatever state, changes nothing.
pub proof fn law_new_scope_waits(
    t: Tables,
    crawler: Seq<char>,
    key: Seq<char>,
    degree: i32,
    priority: Seq<char>,
)
    ensures
        ({
            let u = t.insert_pending_scope(crawler, key, degree, priority);
            let known = exists|i: int|
                0 <= i < t.scopes.len() && (#[trigger] t.scopes[i]).crawler == crawler
                    && t.scopes[i].key == key;
            &&& u.users == t.users && u.profiles == t.profiles && u.edges == t.edges
            &&& u.history == t.history && u.config == t.config
            &&& known ==> u.scopes == t.scopes
            &&& !known ==> u.scopes == t.scopes.push(
                ScopeModel {
                    crawler,
                    key,
                    status: "pending"@,
                    priority,
                    degree,
                    error_count: 0,
                    last_error: None,
                    crawled_at: None,
                },
            )
        }),
{
    if exists|i: int|
        0 <= i < t.scopes.len() && (#[trigger] t.scopes[i]).crawler == crawler && t.scopes[i].key
            == key {
        let i = choose|i: int|
            0 <= i < t.scopes.len() && (#[trigger] t.scopes[i]).crawler == crawler
                && t.scopes[i].key == key;
        assert(scope_is(t.scopes[i], crawler, key));
    }
    if has_scope(t.scopes, crawler, key) {
        let i = choose|i: int|
            0 <= i < t.scopes.len() && scope_is(#[trigger] t.scopes[i], crawler, key);
        assert(t.scopes[i].crawler == crawler);
    }
}

/// Turning a scope turns the row of the crawler and the key, and touches nothing else.
pub proof fn law_turning_touches_one_scope(
    t: Tables,
    crawler: Seq<char>,
    key: Seq<char>,
    f: spec_fn(ScopeModel) -> ScopeModel,
    i: int,
)
    requires
        0 <= i < t.scopes.len(),
    ensures
        ({
            let u = t.turn_scope(crawler, key, f);
            &&& u.users == t.users && u.profiles == t.profiles && u.edges == t.edges
            &&& u.history == t.history && u.config == t.config
            &&& u.scopes.len() == t.scopes.len()
            &&& t.scopes[i].crawler == crawler && t.scopes[i].key == key ==> u.scopes[i] == f(
                t.scopes[i],
            )
            &&& t.scopes[i].crawler != crawler || t.scopes[i].key != key ==> u.scopes[i]
                == t.scopes[i]
        }),
{
}

/// What becomes of a scope touches the fields that it is about: the priority, the status,
/// the time of a crawl, and after a failure the number of failures and the last error.
pub proof fn law_scope_keeps_its_other_fields(s: ScopeModel, text: Seq<char>, key: Seq<char>)
    ensures
        with_priority(s, text) == (ScopeModel { priority: text, ..s }),
        with_status(s, text) == (ScopeModel { status: text, ..s }),
        crawled(s, text) == (ScopeModel { status: "done"@, crawled_at: Some(text), ..s }),
        s.error_count < i64::MAX ==> failed(s, text).error_count == s.error_count + 1,
        s.error_count == i64::MAX ==> failed(s, text).error_count == i64::MAX,
        failed(s, text) == (ScopeModel {
            status: "pending"@,
            error_count: failed(s, text).error_count,
            last_error: Some(text),
            ..s
        }),
        retried(s, key, text) == (if s.key == key && s.status == "in_progress"@ {
            failed(s, text)
        } else {
            s
        }),
        released(s) == (if s.status == "in_progress"@ {
            ScopeModel { status: "pending"@, ..s }
        } else {
            s
        }),
{
}

/// A change adds or replaces what it names and touches nothing else.
pub proof fn law_change_touches_what_it_names(t: Tables, c: ChangeModel)
    requires
        t.valid(),
        t.accepts(c),
    ensures
        ({
            let u = t.apply(c);
            &&& c is AddUser || u.users == t.users
            &&& c is PutProfile || u.profiles == t.profiles
            &&& c is AddEdge || u.edges == t.edges
            &&& c is AddHistory || u.history == t.history
            &&& c is AddScope || c is PutScope || u.scopes == t.scopes
            &&& c is PutConfig || u.config == t.config
            &&& match c {
                ChangeModel::AddUser { id, login } => u.users == t.users.push(
                    UserRowModel { id, login },
                ),
                ChangeModel::PutProfile { user_id, profile } => u.profiles == t.profiles.insert(
                    user_id,
                    profile,
                ),
                ChangeModel::AddEdge { edge } => u.edges == t.edges.push(edge),
                ChangeModel::AddHistory { entry } => u.history == t.history.push(entry),
                ChangeModel::AddScope { scope } => u.scopes == t.scopes.push(scope),
                ChangeModel::PutScope { scope } => u.scopes.len() == t.scopes.len() && forall|
                    i: int,
                |
                    0 <= i < t.scopes.len() ==> #[trigger] u.scopes[i] == (if t.scopes[i].crawler
                        == scope.crawler && t.scopes[i].key == scope.key {
                        scope
                    } else {
                        t.scopes[i]
                    }),
                ChangeModel::PutConfig { key, value } => u.config == t.config.insert(key, value),
            }
        }),
{
    if let ChangeModel::PutScope { scope } = c {
        let u = t.apply(c);
        let p = place_of_scope(t.scopes, scope.crawler, scope.key);
        assert(0 <= p < t.scopes.len() && scope_is(t.scopes[p], scope.crawler, scope.key));
        assert forall|i: int| 0 <= i < t.scopes.len() implies #[trigger] u.scopes[i] == (
        if t.scopes[i].crawler == scope.crawler && t.scopes[i].key == scope.key {
            scope
        } else {
            t.scopes[i]
        }) by {
            if i < p {
                assert(!scope_is(t.scopes[p], t.scopes[i].crawler, t.scopes[i].key));
            } else if p < i {
                assert(!scope_is(t.scopes[i], t.scopes[p].crawler, t.scopes[p].key));
            }
        }
    }
}

/// A change fits exactly when what it adds is not there and what it belongs to is.
pub proof fn law_change_fits(t: Tables, c: ChangeModel)
    ensures
        t.accepts(c) <==> match c {
            ChangeModel::AddUser { id, login } => forall|i: int|
                0 <= i < t.users.len() ==> (#[trigger] t.users[i]).id != id && t.users[i].login
                    != login,
            ChangeModel::PutProfile { user_id, .. } => has_row(t, user_id),
            ChangeModel::AddEdge { edge } => has_row(t, edge.from) && has_row(t, edge.to)
                && forall|i: int|
                0 <= i < t.edges.len() ==> (#[trigger] t.edges[i]).from != edge.from
                    || t.edges[i].to != edge.to || t.edges[i].kind != edge.kind,
            ChangeModel::AddScope { scope } => forall|i: int|
                0 <= i < t.scopes.len() ==> (#[trigger] t.scopes[i]).crawler != scope.crawler
                    || t.scopes[i].key != scope.key,
            ChangeModel::PutScope { scope } => exists|i: int|
                0 <= i < t.scopes.len() && (#[trigger] t.scopes[i]).crawler == scope.crawler
                    && t.scopes[i].key == scope.key,
            _ => true,
        },
{
    match c {
        ChangeModel::AddEdge { edge } => {
            assert(has_row(t, edge.from) == has_id(t.users, edge.from));
            assert(has_row(t, edge.to) == has_id(t.users, edge.to));
            if has_edge(t.edges, edge.from, edge.to, edge.kind) {
                let i = choose|i: int|
                    0 <= i < t.edges.len() && edge_is(
                        #[trigger] t.edges[i],
                        edge.from,
                        edge.to,
                        edge.kind,
                    );
                assert(t.edges[i].from == edge.from);
            } else {
                assert forall|i: int| 0 <= i < t.edges.len() implies (
                #[trigger] t.edges[i]).from != edge.from || t.edges[i].to != edge.to
                    || t.edges[i].kind != edge.kind by {
                    assert(!edge_is(t.edges[i], edge.from, edge.to, edge.kind));
                }
            }
        },
        ChangeModel::AddScope { scope } | ChangeModel::PutScope { scope } => {
            if has_scope(t.scopes, scope.crawler, scope.key) {
                let i = choose|i: int|
                    0 <= i < t.scopes.len() && scope_is(
                        #[trigger] t.scopes[i],
                        scope.crawler,
                        scope.key,
                    );
                assert(t.scopes[i].crawler == scope.crawler);
            } else {
                assert forall|i: int| 0 <= i < t.scopes.len() implies (
                #[trigger] t.scopes[i]).crawler != scope.crawler || t.scopes[i].key
                    != scope.key by {
                    assert(!scope_is(t.scopes[i], scope.crawler, scope.key));
                }
            }
        },
        _ => {},
    }
}

/// Changes are made one after the other, starting from nothing.
pub proof fn law_changes_are_made_in_order(t: Tables, told: Seq<ChangeModel>, c: ChangeModel)
    ensures
        t.replay(Seq::empty()) == t,
        t.accepts_all(Seq::empty()),
        t.replay(told.push(c)) == t.replay(told).apply(c),
        t.accepts_all(told.push(c)) <==> t.accepts_all(told) && t.replay(told).accepts(c),
        Tables::empty().users.len() == 0 && Tables::empty().edges.len() == 0,
        Tables::empty().history.len() == 0 && Tables::empty().scopes.len() == 0,
        Tables::empty().profiles.dom() == Set::<i64>::empty(),
        Tables::empty().config.dom() == Set::<Seq<char>>::empty(),
        Tables::empty().valid(),
{
    assert(told.push(c).drop_last() =~= told);
}

/// The models of rows and changes keep what they are of, each under its own name.
pub proof fn law_row_models_keep_the_fields(
    u: UserRow,
    s: Scope,
    h: HistoryEntry,
    c: Change,
    told: Seq<Change>,
    i: int,
)
    ensures
        u@.id == u.id && u@.login == u.login@,
        s@.crawler == s.crawler_name@ && s@.key == s.scope_key@ && s@.status == s.status@,
        s@.priority == s.priority@ && s@.degree == s.degree && s@.error_count == s.error_count,
        s@.last_error == opt_text(s.last_error) && s@.crawled_at == opt_text(s.crawled_at),
        h@.from == h.from_user_id && h@.to == h.to_user_id && h@.kind == h.edge_type@,
        h@.action == h.action@,
        match c {
            Change::AddUser { id, login } => c@ == (ChangeModel::AddUser { id, login: login@ }),
            Change::PutProfile { user_id, profile } => c@ == (ChangeModel::PutProfile {
                user_id,
                profile: profile.facts(),
            }),
            Change::AddEdge { edge } => c@ == (ChangeModel::AddEdge { edge: edge@ }),
            Change::AddHistory { entry } => c@ == (ChangeModel::AddHistory { entry: entry@ }),
            Change::AddScope { scope } => c@ == (ChangeModel::AddScope { scope: scope@ }),
            Change::PutScope { scope } => c@ == (ChangeModel::PutScope { scope: scope@ }),
            Change::PutConfig { key, value } => c@ == (ChangeModel::PutConfig {
                key: key@,
                value: value@,
            }),
        },
        change_models(told).len() == told.len(),
        0 <= i < told.len() ==> change_models(told)[i] == told[i]@,
{
}

/// An error of the database is told with what it is about.
pub proof fn law_database_errors_are_told(id: i64, place: usize)
    ensures
        (DbError::NoSuchUser { id }).words() == "no user has the id "@ + decimal_int(id as int),
        DbError::Full.words() == "no id is left for a new user"@,
        (DbError::BadRow { place }).words() == "stored row "@ + decimal(place as nat)
            + " does not fit the rows before it"@,
{
}

} // verus!
