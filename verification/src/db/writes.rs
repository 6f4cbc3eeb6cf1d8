//! What changes the database.
use vstd::prelude::*;
use vstd::string::*;

use super::model::{
    crawled, failed, has_id, has_login, has_scope, place_of_login, place_of_scope, released,
    retried, scope_is, scopes_valid, top_id, users_valid, with_priority, with_status, ChangeModel,
    ScopeModel, Tables, UserRowModel,
};
use super::scopes::{scope_models, Scope};
use super::{change_models, lemma_place_of_scope, Change, Db, DbError, HistoryEntry};
use crate::lists::reversed;
use crate::text::same;
use crate::types::{copy_text, Edge, GithubUserProfile, NewEdge};

verus! {

/// The place of a row is the only one with its login.
pub proof fn lemma_place_of_login(users: Seq<UserRowModel>, i: int)
    requires
        users_valid(users),
        0 <= i < users.len(),
    ensures
        has_login(users, users[i].login),
        place_of_login(users, users[i].login) == i,
{
    let j = place_of_login(users, users[i].login);
    assert(users[i].login == users[i].login);
    assert(0 <= j < users.len() && users[j].login == users[i].login);
}

/// Nobody has an id above the largest.
pub proof fn lemma_top_id(users: Seq<UserRowModel>, i: int)
    requires
        0 <= i < users.len(),
    ensures
        users[i].id <= top_id(users),
    decreases users.len(),
{
    if users.len() > 1 && i < users.len() - 1 {
        assert(users.drop_last()[i] == users[i]);
        lemma_top_id(users.drop_last(), i);
    }
}

/// Turning the row of a crawler and key is replacing it at its place.
pub proof fn lemma_turn(
    t: Tables,
    crawler: Seq<char>,
    key: Seq<char>,
    f: spec_fn(ScopeModel) -> ScopeModel,
)
    requires
        scopes_valid(t.scopes),
    ensures
        !has_scope(t.scopes, crawler, key) ==> t.turn_scope(crawler, key, f) == t,
        forall|i: int|
            0 <= i < t.scopes.len() && scope_is(#[trigger] t.scopes[i], crawler, key)
                ==> t.turn_scope(crawler, key, f) == t.with_scopes(
                t.scopes.update(i, f(t.scopes[i])),
            ),
{
    if !has_scope(t.scopes, crawler, key) {
        assert(t.turn_scope(crawler, key, f).scopes =~= t.scopes);
    }
    assert forall|i: int|
        0 <= i < t.scopes.len() && scope_is(#[trigger] t.scopes[i], crawler, key) implies (
    t.turn_scope(crawler, key, f) == t.with_scopes(t.scopes.update(i, f(t.scopes[i])))) by {
        assert forall|j: int| 0 <= j < t.scopes.len() && j != i implies !scope_is(
            #[trigger] t.scopes[j],
            crawler,
            key,
        ) by {
            if i < j {
                assert(!scope_is(t.scopes[j], t.scopes[i].crawler, t.scopes[i].key));
            } else {
                assert(!scope_is(t.scopes[i], t.scopes[j].crawler, t.scopes[j].key));
            }
        }
        assert(t.turn_scope(crawler, key, f).scopes =~= t.scopes.update(i, f(t.scopes[i])));
    }
}

impl Db {
    /// Opens the database on the rows that the storage holds, each as the change
    /// that adds it.
    pub fn open(rows: Vec<Change>) -> (r: Result<Db, DbError>)
        ensures
            match r {
                Ok(db) => db.wf() && db@ == Tables::empty().replay(change_models(rows@))
                    && db.stored() == db@ && db.journal().len() == 0 && Tables::empty().accepts_all(
                    change_models(rows@),
                ),
                Err(e) => e matches DbError::BadRow { place } && place < rows@.len()
                    && Tables::empty().accepts_all(change_models(rows@).take(place as int))
                    && !Tables::empty().replay(change_models(rows@).take(place as int)).accepts(
                    rows@[place as int]@,
                ),
            },
    {
        let ghost rows0 = rows@;
        let ghost all = change_models(rows0);
        let mut db = Db::new();
        let n: usize = rows.len();
        let mut rest = reversed(rows);
        let mut i: usize = 0;
        assert(all.take(0) =~= Seq::empty());
        while i < n
            invariant
                i <= n,
                n == all.len(),
                all == change_models(rows0),
                rows@ == rows0,
                rest@.len() == n - i,
                rest@ =~= rows0.reverse().take(n - i),
                db.wf(),
                db@ == Tables::empty().replay(all.take(i as int)),
                Tables::empty().accepts_all(all.take(i as int)),
            decreases n - i,
        {
            assert(all.take(i + 1).drop_last() =~= all.take(i as int));
            if let Some(c) = rest.pop() {
                assert(c == rows0[i as int]);
                assert(c@ == all[i as int]);
                if !db.fits(&c) {
                    return Err(DbError::BadRow { place: i });
                }
                db.apply(c);
            }
            i = i + 1;
        }
        assert(all.take(n as int) =~= all);
        let changes = db.take_changes();
        Ok(db)
    }

    /// Hands out the changes that the storage has not been told yet, in order.
    /// Made one after the other on what the storage holds, they give the tables.
    pub fn take_changes(&mut self) -> (r: Vec<Change>)
        requires
            old(self).wf(),
        ensures
            final(self).wf(),
            final(self)@ == old(self)@,
            change_models(r@) == old(self).journal(),
            old(self).stored().accepts_all(change_models(r@)),
            old(self).stored().replay(change_models(r@)) == old(self)@,
            final(self).stored() == old(self)@,
            final(self).journal().len() == 0,
    {
        let mut r: Vec<Change> = Vec::new();
        std::mem::swap(&mut r, &mut self.unsaved);
        self.saved = Ghost(old(self)@);
        assert(self@ =~= old(self)@);
        r
    }

    // ── Users ───────────────────────────────────────────────────────────────

    /// Makes the login known and returns its id.
    pub fn insert_user(&mut self, login: &str) -> (r: Result<i64, DbError>)
        requires
            old(self).wf(),
        ensures
            final(self).wf(),
            final(self).stored() == old(self).stored(),
            match r {
                Ok(id) => (has_login(old(self)@.users, login@) || old(self)@.room())
                    && final(self)@ == old(self)@.insert_user(login@) && has_login(
                    final(self)@.users,
                    login@,
                ) && id == final(self)@.id_of(login@),
                Err(e) => e == DbError::Full && !has_login(old(self)@.users, login@) && !old(
                    self,
                )@.room() && final(self)@ == old(self)@,
            },
    {
        let ghost t0 = self@;
        proof {
            self.users.lemma_valid();
        }
        match self.users.find_login(login) {
            Some(i) => {
                proof {
                    lemma_place_of_login(t0.users, i as int);
                }
                let row = &self.users.rows()[i];
                assert(row@ == t0.users[i as int]);
                Ok(row.id)
            },
            None => match self.users.next_id() {
                Some(id) => {
                    proof {
                        if has_id(t0.users, id) {
                            let k = choose|k: int|
                                0 <= k < t0.users.len() && (#[trigger] t0.users[k]).id == id;
                            lemma_top_id(t0.users, k);
                        }
                    }
                    self.apply(Change::AddUser { id, login: login.to_owned() });
                    proof {
                        lemma_place_of_login(self@.users, t0.users.len() as int);
                    }
                    Ok(id)
                },
                None => Err(DbError::Full),
            },
        }
    }

    /// Stores the profile of a known user in place of any earlier one.
    pub fn upsert_profile(&mut self, user_id: i64, profile: &GithubUserProfile) -> (r: Result<
        (),
        DbError,
    >)
        requires
            old(self).wf(),
        ensures
            final(self).wf(),
            final(self).stored() == old(self).stored(),
            match r {
                Ok(_) => has_id(old(self)@.users, user_id) && final(self)@ == old(self)@.apply(
                    ChangeModel::PutProfile { user_id, profile: profile.facts() },
                ),
                Err(e) => e == (DbError::NoSuchUser { id: user_id }) && !has_id(
                    old(self)@.users,
                    user_id,
                ) && final(self)@ == old(self)@,
            },
    {
        match self.users.find_id(user_id) {
            Some(i) => {
                assert(has_id(self@.users, user_id)) by {
                    assert(self@.users[i as int].id == user_id);
                }
                self.apply(Change::PutProfile { user_id, profile: profile.copy() });
                Ok(())
            },
            None => Err(DbError::NoSuchUser { id: user_id }),
        }
    }

    /// Makes the user known, stores the profile and returns the id.
    pub fn upsert_user(&mut self, u: &GithubUserProfile) -> (r: Result<i64, DbError>)
        requires
            old(self).wf(),
        ensures
            final(self).wf(),
            final(self).stored() == old(self).stored(),
            match r {
                Ok(id) => (has_login(old(self)@.users, u.login@) || old(self)@.room()) && ({
                    let known = old(self)@.insert_user(u.login@);
                    id == known.id_of(u.login@) && final(self)@ == known.apply(
                        ChangeModel::PutProfile { user_id: id, profile: u.facts() },
                    )
                }),
                Err(e) => e == DbError::Full && !has_login(old(self)@.users, u.login@) && !old(
                    self,
                )@.room() && final(self)@ == old(self)@,
            },
    {
        match self.insert_user(u.login.as_str()) {
            Ok(id) => {
                assert(has_id(self@.users, id)) by {
                    let p = place_of_login(self@.users, u.login@);
                    assert(0 <= p < self@.users.len() && self@.users[p].login == u.login@);
                }
                match self.upsert_profile(id, u) {
                    Ok(_) => Ok(id),
                    Err(e) => Err(e),
                }
            },
            Err(e) => Err(e),
        }
    }

    // ── Edges ───────────────────────────────────────────────────────────────

    /// Stores an edge between known users, seen at `now`. An edge that is there
    /// already is left as it is.
    pub fn insert_edge(&mut self, edge: &NewEdge, now: &str) -> (r: Result<(), DbError>)
        requires
            old(self).wf(),
        ensures
            final(self).wf(),
            final(self).stored() == old(self).stored(),
            match r {
                Ok(_) => has_id(old(self)@.users, edge.from_user_id) && has_id(
                    old(self)@.users,
                    edge.to_user_id,
                ) && final(self)@ == old(self)@.insert_edge(edge.seen(now@)),
                Err(e) => final(self)@ == old(self)@ && e == (DbError::NoSuchUser {
                    id: if !has_id(old(self)@.users, edge.from_user_id) {
                        edge.from_user_id
                    } else {
                        edge.to_user_id
                    },
                }) && !(has_id(old(self)@.users, edge.from_user_id) && has_id(
                    old(self)@.users,
                    edge.to_user_id,
                )),
            },
    {
        let ghost t0 = self@;
        match self.users.find_id(edge.from_user_id) {
            Some(i) => {
                assert(t0.users[i as int].id == edge.from_user_id);
            },
            None => {
                return Err(DbError::NoSuchUser { id: edge.from_user_id });
            },
        }
        match self.users.find_id(edge.to_user_id) {
            Some(i) => {
                assert(t0.users[i as int].id == edge.to_user_id);
            },
            None => {
                return Err(DbError::NoSuchUser { id: edge.to_user_id });
            },
        }
        if self.edges.has(edge.from_user_id, edge.to_user_id, edge.edge_type.as_str()) {
            return Ok(());
        }
        let row = Edge {
            from_user_id: edge.from_user_id,
            to_user_id: edge.to_user_id,
            edge_type: edge.edge_type.clone(),
            weight_bits: edge.weight_bits,
            degree: edge.degree,
            metadata: copy_text(&edge.metadata),
            is_active: true,
            first_seen_at: Some(now.to_owned()),
            last_seen_at: Some(now.to_owned()),
            removed_at: None,
        };
        self.apply(Change::AddEdge { edge: row });
        let entry = HistoryEntry {
            from_user_id: edge.from_user_id,
            to_user_id: edge.to_user_id,
            edge_type: edge.edge_type.clone(),
            action: "added".to_owned(),
        };
        self.apply(Change::AddHistory { entry });
        Ok(())
    }

    // ── Queue ───────────────────────────────────────────────────────────────

    /// Puts a key into the queue of a crawler. One that is known there already,
    /// in whatever state, is left as it is.
    pub fn insert_pending_scope(
        &mut self,
        crawler_name: &str,
        scope_key: &str,
        degree: i32,
        priority: &str,
    )
        requires
            old(self).wf(),
        ensures
            final(self).wf(),
            final(self).stored() == old(self).stored(),
            final(self)@ == old(self)@.insert_pending_scope(
                crawler_name@,
                scope_key@,
                degree,
                priority@,
            ),
    {
        match self.scopes.find(crawler_name, scope_key) {
            Some(i) => {
                assert(scope_is(self@.scopes[i as int], crawler_name@, scope_key@));
            },
            None => {
                let scope = Scope {
                    crawler_name: crawler_name.to_owned(),
                    scope_key: scope_key.to_owned(),
                    status: "pending".to_owned(),
                    priority: priority.to_owned(),
                    degree,
                    error_count: 0,
                    last_error: None,
                    crawled_at: None,
                };
                self.apply(Change::AddScope { scope });
            },
        }
    }

    /// A copy of the row of a crawler and key.
    fn scope(&self, crawler_name: &str, scope_key: &str) -> (r: Option<Scope>)
        requires
            self.wf(),
        ensures
            match r {
                Some(s) => has_scope(self@.scopes, crawler_name@, scope_key@) && s@
                    == self@.scopes[place_of_scope(
                    self@.scopes,
                    crawler_name@,
                    scope_key@,
                )] && scope_is(s@, crawler_name@, scope_key@),
                None => !has_scope(self@.scopes, crawler_name@, scope_key@),
            },
    {
        match self.scopes.find(crawler_name, scope_key) {
            Some(i) => {
                proof {
                    self.scopes.lemma_valid();
                    lemma_place_of_scope(self@.scopes, i as int);
                }
                let row = &self.scopes.rows()[i];
                assert(row@ == self@.scopes[i as int]);
                Some(row.copy())
            },
            None => None,
        }
    }

    /// Gives the scope another priority.
    pub fn set_priority(&mut self, crawler_name: &str, scope_key: &str, priority: &str)
        requires
            old(self).wf(),
        ensures
            final(self).wf(),
            final(self).stored() == old(self).stored(),
            final(self)@ == old(self)@.turn_scope(
                crawler_name@,
                scope_key@,
                |s: ScopeModel| with_priority(s, priority@),
            ),
    {
        proof {
            self.scopes.lemma_valid();
            lemma_turn(
                self@,
                crawler_name@,
                scope_key@,
                |s: ScopeModel| with_priority(s, priority@),
            );
        }
        if let Some(row) = self.scope(crawler_name, scope_key) {
            let scope = Scope { priority: priority.to_owned(), ..row };
            assert(scope@ == with_priority(row@, priority@));
            self.apply(Change::PutScope { scope });
        }
    }

    /// Marks the scope as crawled at `now`.
    pub fn mark_crawl_done(&mut self, crawler_name: &str, scope_key: &str, now: &str)
        requires
            old(self).wf(),
        ensures
            final(self).wf(),
            final(self).stored() == old(self).stored(),
            final(self)@ == old(self)@.turn_scope(
                crawler_name@,
                scope_key@,
                |s: ScopeModel| crawled(s, now@),
            ),
    {
        proof {
            self.scopes.lemma_valid();
            lemma_turn(self@, crawler_name@, scope_key@, |s: ScopeModel| crawled(s, now@));
        }
        if let Some(row) = self.scope(crawler_name, scope_key) {
            let scope = Scope {
                status: "done".to_owned(),
                crawled_at: Some(now.to_owned()),
                ..row
            };
            assert(scope@ == crawled(row@, now@));
            self.apply(Change::PutScope { scope });
        }
    }

    /// Lets the scope wait again.
    pub fn requeue_pending(&mut self, crawler_name: &str, scope_key: &str)
        requires
            old(self).wf(),
        ensures
            final(self).wf(),
            final(self).stored() == old(self).stored(),
            final(self)@ == old(self)@.turn_scope(
                crawler_name@,
                scope_key@,
                |s: ScopeModel| with_status(s, "pending"@),
            ),
    {
        proof {
            self.scopes.lemma_valid();
            lemma_turn(
                self@,
                crawler_name@,
                scope_key@,
                |s: ScopeModel| with_status(s, "pending"@),
            );
        }
        if let Some(row) = self.scope(crawler_name, scope_key) {
            let scope = Scope { status: "pending".to_owned(), ..row };
            assert(scope@ == with_status(row@, "pending"@));
            self.apply(Change::PutScope { scope });
        }
    }

    /// Puts another row at the place of one with the same crawler and key.
    pub(super) fn put_scope(&mut self, i: usize, scope: Scope)
        requires
            old(self).wf(),
            i < old(self)@.scopes.len(),
            scope_is(old(self)@.scopes[i as int], scope@.crawler, scope@.key),
        ensures
            final(self).wf(),
            final(self).stored() == old(self).stored(),
            final(self)@ == old(self)@.with_scopes(
                old(self)@.scopes.update(i as int, scope@),
            ),
    {
        proof {
            self.scopes.lemma_valid();
            lemma_place_of_scope(self@.scopes, i as int);
        }
        self.apply(Change::PutScope { scope });
    }

    /// The crawl of this key has failed: where it is being crawled it waits
    /// again, with one more failure and the error noted.
    pub fn reset_to_retry(&mut self, scope_key: &str, error: &str)
        requires
            old(self).wf(),
        ensures
            final(self).wf(),
            final(self).stored() == old(self).stored(),
            final(self)@ == old(self)@.with_scopes(
                old(self)@.scopes.map_values(
                    |s: ScopeModel| retried(s, scope_key@, error@),
                ),
            ),
    {
        let ghost t0 = self@;
        let n: usize = self.scopes.rows().len();
        let mut i: usize = 0;
        assert(self@ =~= t0.with_scopes(
            Seq::new(t0.scopes.len(), |j: int| t0.scopes[j]),
        ));
        while i < n
            invariant
                self.wf(),
                self.stored() == old(self).stored(),
                i <= n,
                n == t0.scopes.len(),
                self@ == t0.with_scopes(
                    Seq::new(
                        t0.scopes.len(),
                        |j: int|
                            if j < i {
                                retried(t0.scopes[j], scope_key@, error@)
                            } else {
                                t0.scopes[j]
                            },
                    ),
                ),
            decreases n - i,
        {
            let ghost t1 = self@;
            let rows = self.scopes.rows();
            assert(scope_models(rows@) == t1.scopes);
            assert(rows@.len() == t1.scopes.len());
            let row = &rows[i];
            assert(row@ == scope_models(rows@)[i as int]);
            if same(row.scope_key.as_str(), scope_key) && same(
                row.status.as_str(),
                "in_progress",
            ) {
                let row = row.copy();
                let count: i64 = if row.error_count < i64::MAX {
                    row.error_count + 1
                } else {
                    row.error_count
                };
                let scope = Scope {
                    status: "pending".to_owned(),
                    error_count: count,
                    last_error: Some(error.to_owned()),
                    ..row
                };
                assert(scope@ == failed(t1.scopes[i as int], error@));
                self.put_scope(i, scope);
            }
            i = i + 1;
            assert(self@.scopes =~= Seq::new(
                t0.scopes.len(),
                |j: int|
                    if j < i {
                        retried(t0.scopes[j], scope_key@, error@)
                    } else {
                        t0.scopes[j]
                    },
            ));
        }
        assert(self@.scopes =~= t0.scopes.map_values(
            |s: ScopeModel| retried(s, scope_key@, error@),
        ));
    }

    /// Lets every scope that is being crawled wait again: after a start nobody
    /// crawls any of them.
    pub fn reset_in_progress_scopes(&mut self)
        requires
            old(self).wf(),
        ensures
            final(self).wf(),
            final(self).stored() == old(self).stored(),
            final(self)@ == old(self)@.with_scopes(
                old(self)@.scopes.map_values(|s: ScopeModel| released(s)),
            ),
    {
        let ghost t0 = self@;
        let n: usize = self.scopes.rows().len();
        let mut i: usize = 0;
        assert(self@ =~= t0.with_scopes(
            Seq::new(t0.scopes.len(), |j: int| t0.scopes[j]),
        ));
        while i < n
            invariant
                self.wf(),
                self.stored() == old(self).stored(),
                i <= n,
                n == t0.scopes.len(),
                self@ == t0.with_scopes(
                    Seq::new(
                        t0.scopes.len(),
                        |j: int|
                            if j < i {
                                released(t0.scopes[j])
                            } else {
                                t0.scopes[j]
                            },
                    ),
                ),
            decreases n - i,
        {
            let ghost t1 = self@;
            let rows = self.scopes.rows();
            assert(scope_models(rows@) == t1.scopes);
            assert(rows@.len() == t1.scopes.len());
            let row = &rows[i];
            assert(row@ == scope_models(rows@)[i as int]);
            if same(row.status.as_str(), "in_progress") {
                let row = row.copy();
                let scope = Scope { status: "pending".to_owned(), ..row };
                assert(scope@ == with_status(t1.scopes[i as int], "pending"@));
                self.put_scope(i, scope);
            }
            i = i + 1;
            assert(self@.scopes =~= Seq::new(
                t0.scopes.len(),
                |j: int|
                    if j < i {
                        released(t0.scopes[j])
                    } else {
                        t0.scopes[j]
                    },
            ));
        }
        assert(self@.scopes =~= t0.scopes.map_values(|s: ScopeModel| released(s)));
    }

    // ── Configuration ───────────────────────────────────────────────────────

    /// Stores a value under a key.
    pub fn set_config(&mut self, key: &str, value: &str)
        requires
            old(self).wf(),
        ensures
            final(self).wf(),
            final(self).stored() == old(self).stored(),
            final(self)@ == old(self)@.apply(ChangeModel::PutConfig { key: key@, value: value@ }),
    {
        self.apply(Change::PutConfig { key: key.to_owned(), value: value.to_owned() });
    }
}

} // verus!
