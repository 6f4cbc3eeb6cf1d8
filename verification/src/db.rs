//! The database: users, profiles, edges, the crawl queue and the configuration.
//!
//! The tables are held in memory. Every change to them is also kept as a
//! [`Change`] for the storage behind them; see [`Db::take_changes`].
use std::collections::HashMap;

use vstd::hash_map::StringHashMap;
use vstd::prelude::*;
use vstd::std_specs::hash::*;
use vstd::string::*;

use crate::text::{cat2, cat3, dec, dec_int, decimal, decimal_int};
use crate::types::{Edge, GithubUserProfile};

pub mod edges;
pub mod laws;
pub mod meaning;
pub mod model;
pub mod paths;
pub mod queue;
pub mod reads;
pub mod scopes;
pub mod stats;
pub mod users;
pub mod writes;

use edges::EdgeTable;
use model::{
    has_edge, has_id, has_login, has_scope, place_of_scope, scope_is, scopes_valid, ChangeModel,
    HistoryModel, ScopeModel, Tables,
};
use scopes::{Scope, ScopeTable};
use users::UserTable;

verus! {

/// Why the database refused an operation.
#[derive(Debug, Clone, Copy, PartialEq, Eq)]
pub enum DbError {
    /// No user has this id.
    NoSuchUser { id: i64 },
    /// No id is left for a new user.
    Full,
    /// The stored row at this place does not fit the rows before it.
    BadRow { place: usize },
}

impl DbError {
    /// The error in words.
    pub open spec fn words(self) -> Seq<char> {
        match self {
            DbError::NoSuchUser { id } => "no user has the id "@ + decimal_int(id as int),
            DbError::Full => "no id is left for a new user"@,
            DbError::BadRow { place } => "stored row "@ + decimal(place as nat)
                + " does not fit the rows before it"@,
        }
    }

    /// The error in words.
    pub fn message(&self) -> (s: String)
        ensures
            s@ == self.words(),
    {
        match self {
            DbError::NoSuchUser { id } => cat2("no user has the id ", dec_int(*id).as_str()),
            DbError::Full => "no id is left for a new user".to_owned(),
            DbError::BadRow { place } => cat3(
                "stored row ",
                dec(*place as u64).as_str(),
                " does not fit the rows before it",
            ),
        }
    }
}

/// An entry in the log of what became of edges.
#[derive(Debug, Clone)]
pub struct HistoryEntry {
    pub from_user_id: i64,
    pub to_user_id: i64,
    pub edge_type: String,
    /// `added` or `removed`.
    pub action: String,
}

impl View for HistoryEntry {
    type V = HistoryModel;

    open spec fn view(&self) -> HistoryModel {
        HistoryModel {
            from: self.from_user_id,
            to: self.to_user_id,
            kind: self.edge_type@,
            action: self.action@,
        }
    }
}

impl HistoryEntry {
    /// A copy of the entry.
    fn copy(&self) -> (r: HistoryEntry)
        ensures
            r@ == self@,
    {
        HistoryEntry {
            from_user_id: self.from_user_id,
            to_user_id: self.to_user_id,
            edge_type: self.edge_type.clone(),
            action: self.action.clone(),
        }
    }
}

/// One change to the tables, each a single statement to the storage.
#[derive(Debug, Clone)]
pub enum Change {
    AddUser { id: i64, login: String },
    PutProfile { user_id: i64, profile: GithubUserProfile },
    AddEdge { edge: Edge },
    AddHistory { entry: HistoryEntry },
    AddScope { scope: Scope },
    /// Replaces the row of the same crawler and key.
    PutScope { scope: Scope },
    PutConfig { key: String, value: String },
}

impl View for Change {
    type V = ChangeModel;

    open spec fn view(&self) -> ChangeModel {
        match *self {
            Change::AddUser { id, login } => ChangeModel::AddUser { id, login: login@ },
            Change::PutProfile { user_id, profile } => ChangeModel::PutProfile {
                user_id,
                profile: profile.facts(),
            },
            Change::AddEdge { edge } => ChangeModel::AddEdge { edge: edge@ },
            Change::AddHistory { entry } => ChangeModel::AddHistory { entry: entry@ },
            Change::AddScope { scope } => ChangeModel::AddScope { scope: scope@ },
            Change::PutScope { scope } => ChangeModel::PutScope { scope: scope@ },
            Change::PutConfig { key, value } => ChangeModel::PutConfig {
                key: key@,
                value: value@,
            },
        }
    }
}

/// The models of a list of changes.
pub open spec fn change_models(s: Seq<Change>) -> Seq<ChangeModel> {
    s.map_values(|c: Change| c@)
}

/// The database.
pub struct Db {
    users: UserTable,
    profiles: HashMap<i64, GithubUserProfile>,
    edges: EdgeTable,
    history: Vec<HistoryEntry>,
    scopes: ScopeTable,
    config: StringHashMap<String>,
    /// What the storage has not been told yet.
    unsaved: Vec<Change>,
    /// What the storage holds.
    saved: Ghost<Tables>,
}

impl View for Db {
    type V = Tables;

    closed spec fn view(&self) -> Tables {
        Tables {
            users: self.users@,
            profiles: self.profiles@.map_values(|p: GithubUserProfile| p.facts()),
            edges: self.edges@,
            history: self.history@.map_values(|h: HistoryEntry| h@),
            scopes: self.scopes@,
            config: self.config@.map_values(|v: String| v@),
        }
    }
}

/// An accepted change keeps the tables valid: unique keys stay unique, and
/// edges and profiles still belong to known users.
pub proof fn law_accepted_change_keeps_validity(t: Tables, c: ChangeModel)
    requires
        t.valid(),
        t.accepts(c),
    ensures
        t.apply(c).valid(),
{
    let t1 = t.apply(c);
    match c {
        ChangeModel::AddUser { id, login } => {
            assert forall|k: i64| has_id(t.users, k) implies has_id(t1.users, k) by {
                let i = choose|i: int| 0 <= i < t.users.len() && (#[trigger] t.users[i]).id == k;
                assert(t1.users[i].id == k);
            }
            assert forall|a: int, b: int| 0 <= a < b < t1.users.len() implies (
            #[trigger] t1.users[a]).id != (#[trigger] t1.users[b]).id by {
                assert(t1.users[a] == t.users[a]);
                if b < t.users.len() {
                    assert(t1.users[b] == t.users[b]);
                }
            }
            assert forall|a: int, b: int| 0 <= a < b < t1.users.len() implies (
            #[trigger] t1.users[a]).login != (#[trigger] t1.users[b]).login by {
                assert(t1.users[a] == t.users[a]);
                if b < t.users.len() {
                    assert(t1.users[b] == t.users[b]);
                }
            }
        },
        ChangeModel::AddEdge { edge } => {
            assert forall|a: int, b: int| 0 <= a < b < t1.edges.len() implies !model::edge_is(
                #[trigger] t1.edges[b],
                (#[trigger] t1.edges[a]).from,
                t1.edges[a].to,
                t1.edges[a].kind,
            ) by {
                assert(t1.edges[a] == t.edges[a]);
                if b < t.edges.len() {
                    assert(t1.edges[b] == t.edges[b]);
                } else if model::edge_is(edge, t.edges[a].from, t.edges[a].to, t.edges[a].kind) {
                    assert(model::edge_is(t.edges[a], edge.from, edge.to, edge.kind));
                }
            }
            assert forall|i: int| 0 <= i < t1.edges.len() implies has_id(
                t1.users,
                (#[trigger] t1.edges[i]).from,
            ) && has_id(t1.users, t1.edges[i].to) by {
                if i < t.edges.len() {
                    assert(t1.edges[i] == t.edges[i]);
                }
            }
        },
        ChangeModel::AddScope { scope } => {
            assert forall|a: int, b: int| 0 <= a < b < t1.scopes.len() implies !scope_is(
                #[trigger] t1.scopes[b],
                (#[trigger] t1.scopes[a]).crawler,
                t1.scopes[a].key,
            ) by {
                assert(t1.scopes[a] == t.scopes[a]);
                if b < t.scopes.len() {
                    assert(t1.scopes[b] == t.scopes[b]);
                } else if scope_is(scope, t.scopes[a].crawler, t.scopes[a].key) {
                    assert(scope_is(t.scopes[a], scope.crawler, scope.key));
                }
            }
        },
        ChangeModel::PutScope { scope } => {
            let i = place_of_scope(t.scopes, scope.crawler, scope.key);
            assert(scope_is(t.scopes[i], scope.crawler, scope.key));
            assert forall|a: int, b: int| 0 <= a < b < t1.scopes.len() implies !scope_is(
                #[trigger] t1.scopes[b],
                (#[trigger] t1.scopes[a]).crawler,
                t1.scopes[a].key,
            ) by {
                assert(!scope_is(t.scopes[b], t.scopes[a].crawler, t.scopes[a].key));
            }
        },
        _ => {},
    }
}

impl Db {
    /// The tables as the storage last got them.
    pub closed spec fn stored(&self) -> Tables {
        self.saved@
    }

    /// The changes that the storage has not been told yet.
    pub closed spec fn journal(&self) -> Seq<ChangeModel> {
        change_models(self.unsaved@)
    }

    /// The tables are valid, and the unsaved changes lead from what the storage
    /// holds to them.
    pub closed spec fn wf(&self) -> bool {
        &&& self.users.wf()
        &&& self.edges.wf()
        &&& self.scopes.wf()
        &&& self@.valid()
        &&& self.stored().accepts_all(self.journal())
        &&& self.stored().replay(self.journal()) == self@
    }

    /// What holds of every database.
    pub proof fn law_invariant(&self)
        requires
            self.wf(),
        ensures
            self@.valid(),
            self.stored().accepts_all(self.journal()),
            self.stored().replay(self.journal()) == self@,
    {
    }

    /// An empty database.
    pub fn new() -> (db: Db)
        ensures
            db.wf(),
            db@ == Tables::empty(),
            db.stored() == Tables::empty(),
            db.journal().len() == 0,
    {
        broadcast use group_hash_axioms;

        let db = Db {
            users: UserTable::new(),
            profiles: HashMap::new(),
            edges: EdgeTable::new(),
            history: Vec::new(),
            scopes: ScopeTable::new(),
            config: StringHashMap::new(),
            unsaved: Vec::new(),
            saved: Ghost(Tables::empty()),
        };
        assert(db@ =~= Tables::empty());
        db
    }

    /// Whether the change fits the tables.
    fn fits(&self, c: &Change) -> (r: bool)
        requires
            self.wf(),
        ensures
            r == self@.accepts(c@),
    {
        match c {
            Change::AddUser { id, login } => self.users.find_id(*id).is_none()
                && self.users.find_login(login.as_str()).is_none(),
            Change::PutProfile { user_id, profile: _ } => self.users.find_id(*user_id).is_some(),
            Change::AddEdge { edge } => self.users.find_id(edge.from_user_id).is_some()
                && self.users.find_id(edge.to_user_id).is_some() && !self.edges.has(
                edge.from_user_id,
                edge.to_user_id,
                edge.edge_type.as_str(),
            ),
            Change::AddHistory { entry: _ } => true,
            Change::AddScope { scope } => self.scopes.find(
                scope.crawler_name.as_str(),
                scope.scope_key.as_str(),
            ).is_none(),
            Change::PutScope { scope } => self.scopes.find(
                scope.crawler_name.as_str(),
                scope.scope_key.as_str(),
            ).is_some(),
            Change::PutConfig { key: _, value: _ } => true,
        }
    }

    /// Makes the change and keeps it for the storage.
    fn apply(&mut self, c: Change)
        requires
            old(self).wf(),
            old(self)@.accepts(c@),
        ensures
            final(self).wf(),
            final(self)@ == old(self)@.apply(c@),
            final(self).stored() == old(self).stored(),
            final(self).journal() == old(self).journal().push(c@),
    {
        broadcast use group_hash_axioms;

        let ghost t0 = self@;
        let ghost j0 = self.journal();
        proof {
            law_accepted_change_keeps_validity(t0, c@);
        }
        match &c {
            Change::AddUser { id, login } => {
                self.users.push(*id, login.as_str());
            },
            Change::PutProfile { user_id, profile } => {
                self.profiles.insert(*user_id, profile.copy());
            },
            Change::AddEdge { edge } => {
                self.edges.push(edge.copy());
            },
            Change::AddHistory { entry } => {
                self.history.push(entry.copy());
            },
            Change::AddScope { scope } => {
                self.scopes.push(scope.copy());
            },
            Change::PutScope { scope } => {
                let found = self.scopes.find(scope.crawler_name.as_str(), scope.scope_key.as_str());
                if let Some(i) = found {
                    proof {
                        lemma_place_of_scope(t0.scopes, i as int);
                    }
                    self.scopes.set(i, scope.copy());
                }
            },
            Change::PutConfig { key, value } => {
                self.config.insert(key.clone(), value.clone());
            },
        }
        let ghost m = c@;
        assert(self@ =~= t0.apply(m));
        self.unsaved.push(c);
        proof {
            assert(self@ == t0.apply(m));
            assert(self.journal() =~= j0.push(m));
            assert(j0.push(m).drop_last() =~= j0);
        }
    }
}

/// The place of a row is the only one with its crawler and key.
pub proof fn lemma_place_of_scope(scopes: Seq<ScopeModel>, i: int)
    requires
        scopes_valid(scopes),
        0 <= i < scopes.len(),
    ensures
        has_scope(scopes, scopes[i].crawler, scopes[i].key),
        place_of_scope(scopes, scopes[i].crawler, scopes[i].key) == i,
{
    let j = place_of_scope(scopes, scopes[i].crawler, scopes[i].key);
    assert(scope_is(scopes[i], scopes[i].crawler, scopes[i].key));
    assert(0 <= j < scopes.len() && scope_is(scopes[j], scopes[i].crawler, scopes[i].key));
    if i < j {
        assert(!scope_is(scopes[j], scopes[i].crawler, scopes[i].key));
    } else if j < i {
        assert(!scope_is(scopes[i], scopes[j].crawler, scopes[j].key));
    }
}

} // verus!
