//! The table of users, found by login or by id.
use std::collections::HashMap;

use vstd::hash_map::StringHashMap;
use vstd::prelude::*;
use vstd::std_specs::hash::*;
use vstd::string::*;

use super::model::{has_id, has_login, top_id, users_valid, UserRowModel};

verus! {

/// A row of the table.
#[derive(Debug, Clone)]
pub struct UserRow {
    pub id: i64,
    pub login: String,
}

impl View for UserRow {
    type V = UserRowModel;

    open spec fn view(&self) -> UserRowModel {
        UserRowModel { id: self.id, login: self.login@ }
    }
}

/// The models of a list of rows.
pub open spec fn row_models(s: Seq<UserRow>) -> Seq<UserRowModel> {
    s.map_values(|r: UserRow| r@)
}

/// The rows in the order of insertion, with an index by login and one by id.
pub struct UserTable {
    rows: Vec<UserRow>,
    by_login: StringHashMap<usize>,
    by_id: HashMap<i64, usize>,
    top: i64,
}

impl View for UserTable {
    type V = Seq<UserRowModel>;

    closed spec fn view(&self) -> Seq<UserRowModel> {
        row_models(self.rows@)
    }
}

impl UserTable {
    /// Keys are unique, and both indexes and the largest id are up to date.
    pub closed spec fn wf(&self) -> bool {
        &&& users_valid(self@)
        &&& forall|login: Seq<char>| #[trigger]
            self.by_login@.contains_key(login) ==> self.by_login@[login] < self@.len()
                && self@[self.by_login@[login] as int].login == login
        &&& forall|i: int|
            0 <= i < self@.len() ==> self.by_login@.contains_key((#[trigger] self@[i]).login)
        &&& forall|id: i64| #[trigger]
            self.by_id@.contains_key(id) ==> self.by_id@[id] < self@.len()
                && self@[self.by_id@[id] as int].id == id
        &&& forall|i: int|
            0 <= i < self@.len() ==> self.by_id@.contains_key((#[trigger] self@[i]).id)
        &&& self@.len() > 0 ==> self.top == top_id(self@)
    }

    pub proof fn lemma_valid(&self)
        requires
            self.wf(),
        ensures
            users_valid(self@),
    {
    }

    /// An empty table.
    pub fn new() -> (t: UserTable)
        ensures
            t.wf(),
            t@ == Seq::<UserRowModel>::empty(),
    {
        broadcast use group_hash_axioms;

        let t = UserTable {
            rows: Vec::new(),
            by_login: StringHashMap::new(),
            by_id: HashMap::new(),
            top: 0,
        };
        assert(t@ =~= Seq::empty());
        t
    }

    /// The rows.
    pub fn rows(&self) -> (r: &Vec<UserRow>)
        ensures
            row_models(r@) == self@,
    {
        &self.rows
    }

    /// The place of the row with this login.
    pub fn find_login(&self, login: &str) -> (r: Option<usize>)
        requires
            self.wf(),
        ensures
            match r {
                Some(i) => i < self@.len() && self@[i as int].login == login@,
                None => !has_login(self@, login@),
            },
    {
        match self.by_login.get(login) {
            Some(i) => Some(*i),
            None => None,
        }
    }

    /// The place of the row with this id.
    pub fn find_id(&self, id: i64) -> (r: Option<usize>)
        requires
            self.wf(),
        ensures
            match r {
                Some(i) => i < self@.len() && self@[i as int].id == id,
                None => !has_id(self@, id),
            },
    {
        broadcast use group_hash_axioms;

        match self.by_id.get(&id) {
            Some(i) => Some(*i),
            None => None,
        }
    }

    /// The id for one more user, where there is one left.
    pub fn next_id(&self) -> (r: Option<i64>)
        requires
            self.wf(),
        ensures
            r == (if self@.len() == 0 {
                Some(1i64)
            } else if top_id(self@) < i64::MAX {
                Some((top_id(self@) + 1) as i64)
            } else {
                None
            }),
    {
        if self.rows.len() == 0 {
            Some(1)
        } else if self.top < i64::MAX {
            Some(self.top + 1)
        } else {
            None
        }
    }

    /// Appends a row whose id and login are new.
    pub fn push(&mut self, id: i64, login: &str)
        requires
            old(self).wf(),
            !has_id(old(self)@, id),
            !has_login(old(self)@, login@),
        ensures
            final(self).wf(),
            final(self)@ == old(self)@.push(UserRowModel { id, login: login@ }),
    {
        broadcast use group_hash_axioms;

        let ghost t0 = self@;
        let i: usize = self.rows.len();
        if i == 0 || id >= self.top {
            self.top = id;
        }
        self.by_login.insert(login.to_owned(), i);
        self.by_id.insert(id, i);
        self.rows.push(UserRow { id, login: login.to_owned() });
        proof {
            let t1 = t0.push(UserRowModel { id, login: login@ });
            assert(self@ =~= t1);
            assert(t1.drop_last() =~= t0);
            assert forall|j: int| 0 <= j < t1.len() implies self.by_login@.contains_key(
                (#[trigger] self@[j]).login,
            ) by {
                if j < t0.len() {
                    assert(t0[j] == self@[j]);
                }
            }
            assert forall|j: int| 0 <= j < t1.len() implies self.by_id@.contains_key(
                (#[trigger] self@[j]).id,
            ) by {
                if j < t0.len() {
                    assert(t0[j] == self@[j]);
                }
            }
            assert forall|l: Seq<char>| #[trigger] self.by_login@.contains_key(l) implies (
            self.by_login@[l] < self@.len() && self@[self.by_login@[l] as int].login == l) by {
                if l != login@ {
                    assert(old(self).by_login@.contains_key(l));
                    assert(t0[old(self).by_login@[l] as int].login == l);
                }
            }
            assert forall|k: i64| #[trigger] self.by_id@.contains_key(k) implies (self.by_id@[k]
                < self@.len() && self@[self.by_id@[k] as int].id == k) by {
                if k != id {
                    assert(old(self).by_id@.contains_key(k));
                    assert(t0[old(self).by_id@[k] as int].id == k);
                }
            }
            assert(users_valid(self@)) by {
                assert forall|a: int, b: int| 0 <= a < b < t1.len() implies (#[trigger] t1[a]).id
                    != (#[trigger] t1[b]).id by {
                    assert(t0[a] == t1[a]);
                    if b < t0.len() {
                        assert(t0[b] == t1[b]);
                    }
                }
                assert forall|a: int, b: int| 0 <= a < b < t1.len() implies (#[trigger] t1[a]).login
                    != (#[trigger] t1[b]).login by {
                    assert(t0[a] == t1[a]);
                    if b < t0.len() {
                        assert(t0[b] == t1[b]);
                    }
                }
            }
        }
    }
}

} // verus!
