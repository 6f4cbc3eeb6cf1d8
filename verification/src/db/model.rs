//! The model of the database: its tables as mathematical values, what they
//! must satisfy, and what each operation does to them.
use vstd::prelude::*;

use crate::order::{num_order, NumKey};
use crate::types::{EdgeModel, ProfileModel, QueueModel, UserModel};

verus! {

/// A row of the table of users.
pub struct UserRowModel {
    pub id: i64,
    pub login: Seq<char>,
}

/// A row of the log of what became of edges.
pub struct HistoryModel {
    pub from: i64,
    pub to: i64,
    pub kind: Seq<char>,
    pub action: Seq<char>,
}

/// A row of the crawl queue.
pub struct ScopeModel {
    pub crawler: Seq<char>,
    pub key: Seq<char>,
    pub status: Seq<char>,
    pub priority: Seq<char>,
    pub degree: i32,
    pub error_count: i64,
    pub last_error: Option<Seq<char>>,
    pub crawled_at: Option<Seq<char>>,
}

/// All tables.
#[verifier::ext_equal]
pub struct Tables {
    pub users: Seq<UserRowModel>,
    pub profiles: Map<i64, ProfileModel>,
    pub edges: Seq<EdgeModel>,
    pub history: Seq<HistoryModel>,
    pub scopes: Seq<ScopeModel>,
    pub config: Map<Seq<char>, Seq<char>>,
}

/// One change to the tables.
pub enum ChangeModel {
    AddUser { id: i64, login: Seq<char> },
    PutProfile { user_id: i64, profile: ProfileModel },
    AddEdge { edge: EdgeModel },
    AddHistory { entry: HistoryModel },
    AddScope { scope: ScopeModel },
    PutScope { scope: ScopeModel },
    PutConfig { key: Seq<char>, value: Seq<char> },
}

/// The largest id of a non-empty list of users.
pub open spec fn top_id(users: Seq<UserRowModel>) -> int
    decreases users.len(),
{
    if users.len() == 0 {
        0
    } else if users.len() == 1 {
        users[0].id as int
    } else {
        let rest = top_id(users.drop_last());
        if users.last().id >= rest {
            users.last().id as int
        } else {
            rest
        }
    }
}

/// Some row has this id.
pub open spec fn has_id(users: Seq<UserRowModel>, id: i64) -> bool {
    exists|i: int| 0 <= i < users.len() && (#[trigger] users[i]).id == id
}

/// Some row has this login.
pub open spec fn has_login(users: Seq<UserRowModel>, login: Seq<char>) -> bool {
    exists|i: int| 0 <= i < users.len() && (#[trigger] users[i]).login == login
}

/// The place of the row with this login.
pub open spec fn place_of_login(users: Seq<UserRowModel>, login: Seq<char>) -> int {
    choose|i: int| 0 <= i < users.len() && (#[trigger] users[i]).login == login
}

/// The place of the row with this id.
pub open spec fn place_of_id(users: Seq<UserRowModel>, id: i64) -> int {
    choose|i: int| 0 <= i < users.len() && (#[trigger] users[i]).id == id
}

/// No id and no login occurs twice.
pub open spec fn users_valid(users: Seq<UserRowModel>) -> bool {
    &&& forall|i: int, j: int|
        0 <= i < j < users.len() ==> (#[trigger] users[i]).id != (#[trigger] users[j]).id
    &&& forall|i: int, j: int|
        0 <= i < j < users.len() ==> (#[trigger] users[i]).login != (#[trigger] users[j]).login
}

/// An edge of this type leads from one user to the other.
pub open spec fn has_edge(edges: Seq<EdgeModel>, from: i64, to: i64, kind: Seq<char>) -> bool {
    exists|i: int| 0 <= i < edges.len() && edge_is(#[trigger] edges[i], from, to, kind)
}

pub open spec fn edge_is(e: EdgeModel, from: i64, to: i64, kind: Seq<char>) -> bool {
    e.from == from && e.to == to && e.kind == kind
}

/// Of each type at most one edge leads from one user to another.
pub open spec fn edges_valid(edges: Seq<EdgeModel>) -> bool {
    forall|i: int, j: int|
        0 <= i < j < edges.len() ==> !edge_is(
            #[trigger] edges[j],
            (#[trigger] edges[i]).from,
            edges[i].to,
            edges[i].kind,
        )
}

pub open spec fn scope_is(s: ScopeModel, crawler: Seq<char>, key: Seq<char>) -> bool {
    s.crawler == crawler && s.key == key
}

/// The queue of the crawler knows the key.
pub open spec fn has_scope(scopes: Seq<ScopeModel>, crawler: Seq<char>, key: Seq<char>) -> bool {
    exists|i: int| 0 <= i < scopes.len() && scope_is(#[trigger] scopes[i], crawler, key)
}

/// The place of the row of this crawler and key.
pub open spec fn place_of_scope(
    scopes: Seq<ScopeModel>,
    crawler: Seq<char>,
    key: Seq<char>,
) -> int {
    choose|i: int| 0 <= i < scopes.len() && scope_is(#[trigger] scopes[i], crawler, key)
}

/// No crawler has two rows for one key.
pub open spec fn scopes_valid(scopes: Seq<ScopeModel>) -> bool {
    forall|i: int, j: int|
        0 <= i < j < scopes.len() ==> !scope_is(
            #[trigger] scopes[j],
            (#[trigger] scopes[i]).crawler,
            scopes[i].key,
        )
}

impl Tables {
    /// Empty tables.
    pub open spec fn empty() -> Tables {
        Tables {
            users: Seq::empty(),
            profiles: Map::empty(),
            edges: Seq::empty(),
            history: Seq::empty(),
            scopes: Seq::empty(),
            config: Map::empty(),
        }
    }

    /// What the schema guarantees: keys are unique, and edges and profiles
    /// belong to known users.
    pub open spec fn valid(self) -> bool {
        &&& users_valid(self.users)
        &&& edges_valid(self.edges)
        &&& scopes_valid(self.scopes)
        &&& forall|i: int|
            0 <= i < self.edges.len() ==> has_id(self.users, (#[trigger] self.edges[i]).from)
                && has_id(self.users, self.edges[i].to)
        &&& forall|id: i64| #[trigger]
            self.profiles.dom().contains(id) ==> has_id(self.users, id)
    }

    /// The tables after one change.
    pub open spec fn apply(self, c: ChangeModel) -> Tables {
        match c {
            ChangeModel::AddUser { id, login } => Tables {
                users: self.users.push(UserRowModel { id, login }),
                ..self
            },
            ChangeModel::PutProfile { user_id, profile } => Tables {
                profiles: self.profiles.insert(user_id, profile),
                ..self
            },
            ChangeModel::AddEdge { edge } => Tables { edges: self.edges.push(edge), ..self },
            ChangeModel::AddHistory { entry } => Tables {
                history: self.history.push(entry),
                ..self
            },
            ChangeModel::AddScope { scope } => Tables {
                scopes: self.scopes.push(scope),
                ..self
            },
            ChangeModel::PutScope { scope } => Tables {
                scopes: self.scopes.update(
                    place_of_scope(self.scopes, scope.crawler, scope.key),
                    scope,
                ),
                ..self
            },
            ChangeModel::PutConfig { key, value } => Tables {
                config: self.config.insert(key, value),
                ..self
            },
        }
    }

    /// The change fits the tables: what is added is new, and what it belongs to
    /// is there.
    pub open spec fn accepts(self, c: ChangeModel) -> bool {
        match c {
            ChangeModel::AddUser { id, login } => !has_id(self.users, id) && !has_login(
                self.users,
                login,
            ),
            ChangeModel::PutProfile { user_id, .. } => has_id(self.users, user_id),
            ChangeModel::AddEdge { edge } => has_id(self.users, edge.from) && has_id(
                self.users,
                edge.to,
            ) && !has_edge(self.edges, edge.from, edge.to, edge.kind),
            ChangeModel::AddHistory { .. } => true,
            ChangeModel::AddScope { scope } => !has_scope(self.scopes, scope.crawler, scope.key),
            ChangeModel::PutScope { scope } => has_scope(self.scopes, scope.crawler, scope.key),
            ChangeModel::PutConfig { .. } => true,
        }
    }

    /// Each change fits the tables that the ones before it have made.
    pub open spec fn accepts_all(self, changes: Seq<ChangeModel>) -> bool
        decreases changes.len(),
    {
        changes.len() == 0 || (self.accepts_all(changes.drop_last()) && self.replay(
            changes.drop_last(),
        ).accepts(changes.last()))
    }

    /// The tables after a list of changes.
    pub open spec fn replay(self, changes: Seq<ChangeModel>) -> Tables
        decreases changes.len(),
    {
        if changes.len() == 0 {
            self
        } else {
            self.replay(changes.drop_last()).apply(changes.last())
        }
    }

    // ── Users ───────────────────────────────────────────────────────────────

    /// A row of the table of users with the profile, where there is one.
    pub open spec fn user(self, row: UserRowModel) -> UserModel {
        if self.profiles.dom().contains(row.id) {
            let p = self.profiles[row.id];
            UserModel {
                id: row.id,
                login: row.login,
                name: p.name,
                avatar_url: p.avatar_url,
                company: p.company,
                location: p.location,
                followers: Some(p.followers),
                following: Some(p.following),
                public_repos: Some(p.public_repos),
                created_at: p.created_at,
                updated_at: p.updated_at,
            }
        } else {
            UserModel {
                id: row.id,
                login: row.login,
                name: None,
                avatar_url: None,
                company: None,
                location: None,
                followers: None,
                following: None,
                public_repos: None,
                created_at: None,
                updated_at: None,
            }
        }
    }

    /// The user with this login.
    pub open spec fn user_by_login(self, login: Seq<char>) -> Option<UserModel> {
        if has_login(self.users, login) {
            Some(self.user(self.users[place_of_login(self.users, login)]))
        } else {
            None
        }
    }

    /// The user with this id.
    pub open spec fn user_by_id(self, id: i64) -> Option<UserModel> {
        if has_id(self.users, id) {
            Some(self.user(self.users[place_of_id(self.users, id)]))
        } else {
            None
        }
    }

    /// The id that the login has.
    pub open spec fn id_of(self, login: Seq<char>) -> i64 {
        self.users[place_of_login(self.users, login)].id
    }

    /// The users in the order of the table.
    pub open spec fn all_users(self) -> Seq<UserModel> {
        self.users.map_values(|r: UserRowModel| self.user(r))
    }

    /// The ids of the users in the order of the table.
    pub open spec fn user_ids(self) -> Seq<i64> {
        self.users.map_values(|u: UserRowModel| u.id)
    }

    /// There is an id left for one more user: the next one above the largest.
    pub open spec fn room(self) -> bool {
        self.users.len() == 0 || top_id(self.users) < i64::MAX
    }

    /// The id that the next new user gets.
    pub open spec fn next_id(self) -> i64 {
        if self.users.len() == 0 {
            1
        } else {
            (top_id(self.users) + 1) as i64
        }
    }

    /// The login is known afterwards; a known one changes nothing.
    pub open spec fn insert_user(self, login: Seq<char>) -> Tables {
        if has_login(self.users, login) {
            self
        } else {
            self.apply(ChangeModel::AddUser { id: self.next_id(), login })
        }
    }

    // ── Edges ───────────────────────────────────────────────────────────────

    /// The edge is there afterwards; one that was there changes nothing.
    pub open spec fn insert_edge(self, edge: EdgeModel) -> Tables {
        if has_edge(self.edges, edge.from, edge.to, edge.kind) {
            self
        } else {
            self.apply(ChangeModel::AddEdge { edge }).apply(
                ChangeModel::AddHistory {
                    entry: HistoryModel {
                        from: edge.from,
                        to: edge.to,
                        kind: edge.kind,
                        action: "added"@,
                    },
                },
            )
        }
    }

    /// The active edges as pairs of users.
    pub open spec fn active_pairs(self) -> Seq<(i64, i64)> {
        self.edges.filter(|e: EdgeModel| e.is_active).map_values(|e: EdgeModel| (e.from, e.to))
    }

    /// The active edges of the type `follows` as pairs of users.
    pub open spec fn follow_pairs(self) -> Seq<(i64, i64)> {
        self.edges.filter(|e: EdgeModel| is_follow(e)).map_values(|e: EdgeModel| (e.from, e.to))
    }

    /// The first user follows the second.
    pub open spec fn follows(self, from: i64, to: i64) -> bool {
        exists|i: int| 0 <= i < self.edges.len() && is_follow_of(#[trigger] self.edges[i], from, to)
    }

    // ── Queue ───────────────────────────────────────────────────────────────

    /// A scope of this key enters the queue; one that is there stays as it is.
    pub open spec fn insert_pending_scope(
        self,
        crawler: Seq<char>,
        key: Seq<char>,
        degree: i32,
        priority: Seq<char>,
    ) -> Tables {
        if has_scope(self.scopes, crawler, key) {
            self
        } else {
            self.apply(
                ChangeModel::AddScope {
                    scope: ScopeModel {
                        crawler,
                        key,
                        status: "pending"@,
                        priority,
                        degree,
                        error_count: 0,
                        last_error: None,
                        crawled_at: None,
                    },
                },
            )
        }
    }

    /// The tables with another queue.
    pub open spec fn with_scopes(self, scopes: Seq<ScopeModel>) -> Tables {
        Tables { scopes, ..self }
    }

    /// The rows of this crawler and key are turned by `f`, the others stay.
    pub open spec fn turn_scope(
        self,
        crawler: Seq<char>,
        key: Seq<char>,
        f: spec_fn(ScopeModel) -> ScopeModel,
    ) -> Tables {
        self.with_scopes(
            self.scopes.map_values(
                |s: ScopeModel|
                    if scope_is(s, crawler, key) {
                        f(s)
                    } else {
                        s
                    },
            ),
        )
    }

    /// The scope waits for this crawler, and its user is known.
    pub open spec fn waits(self, crawler: Seq<char>, s: ScopeModel) -> bool {
        s.crawler == crawler && s.status == "pending"@ && has_login(self.users, s.key)
    }

    /// What decides where the scopes that wait for this crawler stand.
    pub open spec fn queue_keys(self, crawler: Seq<char>) -> Seq<NumKey> {
        Seq::new(self.scopes.len(), |i: int| queue_key(self.scopes[i], i as usize)).filter(
            |k: NumKey| self.waits(crawler, self.scopes[k.3 as int]),
        )
    }

    /// The scopes that wait for this crawler: by priority, by degree, by the
    /// number of failures, and among equals the one that came first.
    pub open spec fn queue(self, crawler: Seq<char>) -> Seq<ScopeModel> {
        self.queue_keys(crawler).sort_by(num_order()).map_values(
            |k: NumKey| self.scopes[k.3 as int],
        )
    }
}

/// What decides where a scope stands in the queue.
pub open spec fn queue_key(s: ScopeModel, place: usize) -> NumKey {
    (priority_rank(s.priority), s.degree as i64, s.error_count, place)
}

/// The first scope stands before the second.
pub open spec fn goes_before(a: ScopeModel, b: ScopeModel) -> bool {
    let (pa, pb) = (priority_rank(a.priority), priority_rank(b.priority));
    pa < pb || (pa == pb && (a.degree < b.degree || (a.degree == b.degree && a.error_count
        <= b.error_count)))
}

/// The scope with another priority.
pub open spec fn with_priority(s: ScopeModel, priority: Seq<char>) -> ScopeModel {
    ScopeModel { priority, ..s }
}

/// The scope with another status.
pub open spec fn with_status(s: ScopeModel, status: Seq<char>) -> ScopeModel {
    ScopeModel { status, ..s }
}

/// The scope once it is crawled.
pub open spec fn crawled(s: ScopeModel, now: Seq<char>) -> ScopeModel {
    ScopeModel { status: "done"@, crawled_at: Some(now), ..s }
}

/// The scope once it has failed: it waits again, with one more failure.
pub open spec fn failed(s: ScopeModel, error: Seq<char>) -> ScopeModel {
    ScopeModel {
        status: "pending"@,
        error_count: if s.error_count < i64::MAX {
            (s.error_count + 1) as i64
        } else {
            s.error_count
        },
        last_error: Some(error),
        ..s
    }
}

/// A scope of the key that is being crawled fails; any other stays as it is.
pub open spec fn retried(s: ScopeModel, key: Seq<char>, error: Seq<char>) -> ScopeModel {
    if s.key == key && s.status == "in_progress"@ {
        failed(s, error)
    } else {
        s
    }
}

/// A scope that is being crawled waits again; any other stays as it is.
pub open spec fn released(s: ScopeModel) -> ScopeModel {
    if s.status == "in_progress"@ {
        with_status(s, "pending"@)
    } else {
        s
    }
}

/// An active edge of the type `follows`.
pub open spec fn is_follow(e: EdgeModel) -> bool {
    e.is_active && e.kind == "follows"@
}

/// An active edge of the type `follows` between these users.
pub open spec fn is_follow_of(e: EdgeModel, from: i64, to: i64) -> bool {
    is_follow(e) && e.from == from && e.to == to
}

/// Where a priority stands in the queue: a priority that is none of the three
/// comes before all of them.
pub open spec fn priority_rank(priority: Seq<char>) -> i64 {
    if priority == "high"@ {
        1
    } else if priority == "normal"@ {
        2
    } else if priority == "low"@ {
        3
    } else {
        0
    }
}

/// A scope that is waiting again after a failure.
pub open spec fn is_retry(s: ScopeModel) -> bool {
    s.status == "pending"@ && s.error_count > 0
}

/// A scope that is waiting and has not failed yet.
pub open spec fn is_fresh(s: ScopeModel) -> bool {
    s.status == "pending"@ && s.error_count <= 0
}

/// How the queue shows a scope.
pub open spec fn queue_entry(s: ScopeModel) -> QueueModel {
    QueueModel {
        login: s.key,
        degree: s.degree,
        priority: if s.error_count > 0 {
            "retry"@
        } else {
            s.priority
        },
    }
}

} // verus!
