//! What holds of the operations taken together.
use vstd::prelude::*;

use super::model::{
    failed, has_edge, has_login, has_scope, place_of_login, released, retried, scope_is,
    with_status, ChangeModel, ScopeModel, Tables,
};
use super::paths::{PATH_NEIGHBORS, PATH_USERS};
use super::queue::{claimed, law_queue_is_what_waits};
use super::reads::lemma_place_of_id;
use super::writes::lemma_place_of_login;
use crate::graph::{
    is_shortest_path, law_enumeration_is_exact, law_simple_path_is_walk, paths_from, walk_between,
};
use crate::types::{EdgeModel, ProfileModel, UserModel};

verus! {

/// What the list of followed users brings in never touches a profile.
pub proof fn law_summaries_leave_profiles(
    t: Tables,
    login: Seq<char>,
    edge: EdgeModel,
    crawler: Seq<char>,
    degree: i32,
    priority: Seq<char>,
)
    ensures
        t.insert_user(login).profiles == t.profiles,
        t.insert_edge(edge).profiles == t.profiles,
        t.insert_pending_scope(crawler, login, degree, priority).profiles == t.profiles,
{
}

/// Storing a profile touches no user, no edge and no scope.
pub proof fn law_profiles_leave_the_graph(t: Tables, user_id: i64, profile: ProfileModel)
    ensures
        ({
            let t1 = t.apply(ChangeModel::PutProfile { user_id, profile });
            t1.users == t.users && t1.edges == t.edges && t1.scopes == t.scopes
        }),
{
}

/// A stored profile is what is read of the user from then on, by id and by login,
/// and of the user alone.
pub proof fn law_profile_is_read_back(
    t: Tables,
    login: Seq<char>,
    profile: ProfileModel,
    other: Seq<char>,
)
    requires
        t.valid(),
        has_login(t.users, login),
        other != login,
    ensures
        ({
            let user_id = t.id_of(login);
            let t1 = t.apply(ChangeModel::PutProfile { user_id, profile });
            &&& t1.user_by_login(login) == Some(
                UserModel {
                    id: user_id,
                    login,
                    name: profile.name,
                    avatar_url: profile.avatar_url,
                    company: profile.company,
                    location: profile.location,
                    followers: Some(profile.followers),
                    following: Some(profile.following),
                    public_repos: Some(profile.public_repos),
                    created_at: profile.created_at,
                    updated_at: profile.updated_at,
                },
            )
            &&& t1.user_by_id(user_id) == t1.user_by_login(login)
            &&& t1.user_by_login(other) == t.user_by_login(other)
        }),
{
    let p = place_of_login(t.users, login);
    assert(0 <= p < t.users.len() && t.users[p].login == login);
    lemma_place_of_id(t.users, p);
    if has_login(t.users, other) {
        let q = place_of_login(t.users, other);
        assert(0 <= q < t.users.len() && t.users[q].login == other);
        if p < q {
            assert(t.users[p].id != t.users[q].id);
        } else {
            assert(t.users[q].id != t.users[p].id);
        }
    }
}

/// A stored value is what is read under its key from then on.
pub proof fn law_config_is_read_back(t: Tables, key: Seq<char>, value: Seq<char>)
    ensures
        ({
            let t1 = t.apply(ChangeModel::PutConfig { key, value });
            t1.config.dom().contains(key) && t1.config[key] == value
        }),
{
}

/// Making a login known a second time changes nothing, and its id stays.
pub proof fn law_insert_user_is_idempotent(t: Tables, login: Seq<char>)
    requires
        t.valid(),
        has_login(t.users, login) || t.room(),
    ensures
        has_login(t.insert_user(login).users, login),
        t.insert_user(login).insert_user(login) == t.insert_user(login),
        has_login(t.users, login) ==> t.insert_user(login).id_of(login) == t.id_of(login),
{
    if !has_login(t.users, login) {
        let t1 = t.insert_user(login);
        assert(t1.users[t.users.len() as int].login == login);
    }
}

/// A user keeps the id when others become known.
pub proof fn law_ids_are_kept(t: Tables, known: Seq<char>, login: Seq<char>)
    requires
        t.valid(),
        t.insert_user(login).valid(),
        has_login(t.users, known),
    ensures
        t.insert_user(login).id_of(known) == t.id_of(known),
{
    let t1 = t.insert_user(login);
    let p = place_of_login(t.users, known);
    assert(0 <= p < t.users.len() && t.users[p].login == known);
    assert(t1.users[p] == t.users[p]);
    lemma_place_of_login(t1.users, p);
}

/// Storing an edge a second time changes nothing, however it is described.
pub proof fn law_insert_edge_is_idempotent(t: Tables, a: EdgeModel, b: EdgeModel)
    requires
        a.from == b.from,
        a.to == b.to,
        a.kind == b.kind,
    ensures
        has_edge(t.insert_edge(a).edges, a.from, a.to, a.kind),
        t.insert_edge(a).insert_edge(b) == t.insert_edge(a),
{
    let t1 = t.insert_edge(a);
    if !has_edge(t.edges, a.from, a.to, a.kind) {
        assert(super::model::edge_is(t1.edges[t.edges.len() as int], a.from, a.to, a.kind));
    }
}

/// First come, first served: a scope in the queue is not overwritten by a later
/// one with another degree or priority.
pub proof fn law_queued_scope_is_not_overwritten(
    t: Tables,
    crawler: Seq<char>,
    key: Seq<char>,
    degree1: i32,
    priority1: Seq<char>,
    degree2: i32,
    priority2: Seq<char>,
)
    ensures
        ({
            let t1 = t.insert_pending_scope(crawler, key, degree1, priority1);
            has_scope(t1.scopes, crawler, key) && t1.insert_pending_scope(
                crawler,
                key,
                degree2,
                priority2,
            ) == t1
        }),
{
    let t1 = t.insert_pending_scope(crawler, key, degree1, priority1);
    if !has_scope(t.scopes, crawler, key) {
        assert(scope_is(t1.scopes[t.scopes.len() as int], crawler, key));
    }
}

/// What is crawled stays crawled: claiming, failing, starting anew and queueing
/// leave a scope that is done as it is.
pub proof fn law_done_is_final(
    t: Tables,
    i: int,
    crawler: Seq<char>,
    key: Seq<char>,
    error: Seq<char>,
    degree: i32,
    priority: Seq<char>,
)
    requires
        t.valid(),
        t.scopes.len() <= usize::MAX,
        0 <= i < t.scopes.len(),
        t.scopes[i].status == "done"@,
    ensures
        retried(t.scopes[i], key, error) == t.scopes[i],
        released(t.scopes[i]) == t.scopes[i],
        t.insert_pending_scope(crawler, key, degree, priority).scopes[i] == t.scopes[i],
        t.queue(crawler).len() > 0 ==> claimed(t, crawler).scopes[i] == t.scopes[i],
{
    reveal_strlit("done");
    reveal_strlit("in_progress");
    reveal_strlit("pending");
    assert("done"@.len() != "in_progress"@.len());
    assert("done"@.len() != "pending"@.len());
    if t.queue(crawler).len() > 0 {
        let s = t.queue(crawler)[0];
        law_queue_is_what_waits(t, crawler, s);
        assert(t.queue(crawler).contains(s));
        let j = choose|j: int| 0 <= j < t.scopes.len() && t.scopes[j] == s;
        if scope_is(t.scopes[i], crawler, s.key) {
            if i < j {
                assert(!scope_is(t.scopes[j], t.scopes[i].crawler, t.scopes[i].key));
            } else if j < i {
                assert(!scope_is(t.scopes[i], t.scopes[j].crawler, t.scopes[j].key));
            }
        }
    }
}

/// After a restart nothing is being crawled: what was is waiting again, and
/// everything else is as it was.
pub proof fn law_restart_loses_no_scope(t: Tables, i: int)
    requires
        0 <= i < t.scopes.len(),
    ensures
        ({
            let t1 = t.with_scopes(t.scopes.map_values(|s: ScopeModel| released(s)));
            &&& t1.scopes.len() == t.scopes.len()
            &&& t1.scopes[i].status != "in_progress"@
            &&& t.scopes[i].status == "in_progress"@ ==> t1.scopes[i] == with_status(
                t.scopes[i],
                "pending"@,
            )
            &&& t.scopes[i].status != "in_progress"@ ==> t1.scopes[i] == t.scopes[i]
        }),
{
    reveal_strlit("in_progress");
    reveal_strlit("pending");
    assert("in_progress"@.len() != "pending"@.len());
}

/// A failure moves a scope back within its priority and degree, never forward.
pub proof fn law_failure_moves_back(s: ScopeModel, error: Seq<char>)
    ensures
        super::model::goes_before(s, failed(s, error)),
        failed(s, error).status == "pending"@,
        failed(s, error).last_error == Some(error),
{
}

/// No listed path is shorter than a shortest one.
pub proof fn law_listed_path_is_not_shorter(
    t: Tables,
    from: i64,
    to: i64,
    shortest: Seq<i64>,
    listed: Seq<i64>,
)
    requires
        is_shortest_path(t.active_pairs(), from, to, shortest),
        paths_from(
            t.active_pairs(),
            PATH_NEIGHBORS as nat,
            from,
            to,
            PATH_USERS as nat,
        ).contains(listed),
    ensures
        shortest.len() <= listed.len() <= PATH_USERS,
        listed.no_duplicates(),
{
    let (cap, size) = (PATH_NEIGHBORS as nat, PATH_USERS as nat);
    law_enumeration_is_exact(t.active_pairs(), cap, from, to, size, listed);
    law_simple_path_is_walk(t.active_pairs(), cap, from, to, size, listed);
    assert(walk_between(t.active_pairs(), from, to, listed));
}

/// A storage that was told the changes in two parts opens on the same tables as
/// one that was told all of them: reopening loses nothing.
pub proof fn law_reopened_tables_are_the_same(
    t: Tables,
    told: Seq<ChangeModel>,
    more: Seq<ChangeModel>,
)
    requires
        t.accepts_all(told),
        t.replay(told).accepts_all(more),
    ensures
        t.accepts_all(told + more),
        t.replay(told + more) == t.replay(told).replay(more),
    decreases more.len(),
{
    if more.len() == 0 {
        assert(told + more =~= told);
    } else {
        law_reopened_tables_are_the_same(t, told, more.drop_last());
        assert((told + more).drop_last() =~= told + more.drop_last());
        assert((told + more).last() == more.last());
    }
}

} // verus!
