//! The table of crawl scopes, found by their key.
use vstd::hash_map::StringHashMap;
use vstd::prelude::*;
use vstd::string::*;

use super::model::{has_scope, scope_is, scopes_valid, ScopeModel};
use crate::text::same;
use crate::types::{copy_text, opt_text};

verus! {

/// A row of the table: how far a crawler has come with a user.
#[derive(Debug, Clone)]
pub struct Scope {
    pub crawler_name: String,
    pub scope_key: String,
    /// `pending`, `in_progress`, `done` or `error`.
    pub status: String,
    /// `high`, `normal` or `low`.
    pub priority: String,
    pub degree: i32,
    pub error_count: i64,
    pub last_error: Option<String>,
    pub crawled_at: Option<String>,
}

impl View for Scope {
    type V = ScopeModel;

    open spec fn view(&self) -> ScopeModel {
        ScopeModel {
            crawler: self.crawler_name@,
            key: self.scope_key@,
            status: self.status@,
            priority: self.priority@,
            degree: self.degree,
            error_count: self.error_count,
            last_error: opt_text(self.last_error),
            crawled_at: opt_text(self.crawled_at),
        }
    }
}

impl Scope {
    /// A copy of the row.
    pub fn copy(&self) -> (r: Scope)
        ensures
            r@ == self@,
    {
        Scope {
            crawler_name: self.crawler_name.clone(),
            scope_key: self.scope_key.clone(),
            status: self.status.clone(),
            priority: self.priority.clone(),
            degree: self.degree,
            error_count: self.error_count,
            last_error: copy_text(&self.last_error),
            crawled_at: copy_text(&self.crawled_at),
        }
    }
}

/// The models of a list of rows.
pub open spec fn scope_models(s: Seq<Scope>) -> Seq<ScopeModel> {
    s.map_values(|r: Scope| r@)
}

/// The rows in the order of insertion, with an index by key.
pub struct ScopeTable {
    rows: Vec<Scope>,
    by_key: StringHashMap<Vec<usize>>,
}

impl View for ScopeTable {
    type V = Seq<ScopeModel>;

    closed spec fn view(&self) -> Seq<ScopeModel> {
        scope_models(self.rows@)
    }
}

impl ScopeTable {
    /// The index lists for `key` exactly the places of its rows.
    spec fn indexed(&self, key: Seq<char>) -> bool {
        if self.by_key@.contains_key(key) {
            &&& forall|k: int|
                0 <= k < self.by_key@[key]@.len() ==> (#[trigger] self.by_key@[key]@[k])
                    < self@.len()
            &&& forall|i: int|
                0 <= i < self@.len() && (#[trigger] self@[i]).key == key
                    ==> self.by_key@[key]@.contains(i as usize)
        } else {
            forall|i: int| 0 <= i < self@.len() ==> (#[trigger] self@[i]).key != key
        }
    }

    /// Keys are unique and the index is up to date.
    pub closed spec fn wf(&self) -> bool {
        &&& scopes_valid(self@)
        &&& forall|key: Seq<char>| #[trigger] self.indexed(key)
    }

    pub proof fn lemma_valid(&self)
        requires
            self.wf(),
        ensures
            scopes_valid(self@),
    {
    }

    /// An empty table.
    pub fn new() -> (t: ScopeTable)
        ensures
            t.wf(),
            t@ == Seq::<ScopeModel>::empty(),
    {
        let t = ScopeTable { rows: Vec::new(), by_key: StringHashMap::new() };
        assert(t@ =~= Seq::empty());
        t
    }

    /// The rows.
    pub fn rows(&self) -> (r: &Vec<Scope>)
        ensures
            scope_models(r@) == self@,
    {
        &self.rows
    }

    /// The place of the row of this crawler and key.
    pub fn find(&self, crawler: &str, key: &str) -> (r: Option<usize>)
        requires
            self.wf(),
        ensures
            match r {
                Some(i) => i < self@.len() && scope_is(self@[i as int], crawler@, key@),
                None => !has_scope(self@, crawler@, key@),
            },
    {
        assert(self.indexed(key@));
        let count: usize = self.rows.len();
        assert(self@.len() == count);
        match self.by_key.get(key) {
            Some(places) => {
                let mut k: usize = 0;
                while k < places.len()
                    invariant
                        self.indexed(key@),
                        self.by_key@.contains_key(key@),
                        places@ == self.by_key@[key@]@,
                        k <= places@.len(),
                        forall|j: int|
                            0 <= j < k ==> !scope_is(
                                self@[(#[trigger] places@[j]) as int],
                                crawler@,
                                key@,
                            ),
                    decreases places@.len() - k,
                {
                    let i: usize = places[k];
                    let s = &self.rows[i];
                    assert(self@[i as int] == s@);
                    if same(s.crawler_name.as_str(), crawler) && same(s.scope_key.as_str(), key) {
                        return Some(i);
                    }
                    k = k + 1;
                }
                proof {
                    if has_scope(self@, crawler@, key@) {
                        let i = choose|i: int|
                            0 <= i < self@.len() && scope_is(#[trigger] self@[i], crawler@, key@);
                        assert(places@.contains(i as usize));
                        let j = choose|j: int| 0 <= j < places@.len() && places@[j] == i as usize;
                        assert(!scope_is(self@[places@[j] as int], crawler@, key@));
                    }
                }
                None
            },
            None => None,
        }
    }

    /// Appends a row that is not there yet.
    pub fn push(&mut self, scope: Scope)
        requires
            old(self).wf(),
            !has_scope(old(self)@, scope@.crawler, scope@.key),
        ensures
            final(self).wf(),
            final(self)@ == old(self)@.push(scope@),
    {
        let ghost t0 = self@;
        let ghost map0 = self.by_key@;
        let ghost key = scope.scope_key@;
        let i: usize = self.rows.len();
        let mut places: Vec<usize> = Vec::new();
        let ghost mut p0: Seq<usize> = Seq::empty();
        if let Some(known) = self.by_key.get(scope.scope_key.as_str()) {
            let mut k: usize = 0;
            while k < known.len()
                invariant
                    k <= known@.len(),
                    places@ == known@.take(k as int),
                decreases known@.len() - k,
            {
                places.push(known[k]);
                k = k + 1;
            }
            assert(known@.take(k as int) =~= known@);
            proof {
                p0 = known@;
            }
        }
        assert(map0.contains_key(key) ==> p0 == map0[key]@);
        assert(!map0.contains_key(key) ==> p0 =~= Seq::empty());
        assert(places@ =~= p0);
        places.push(i);
        self.by_key.insert(scope.scope_key.clone(), places);
        let ghost row = scope@;
        self.rows.push(scope);
        proof {
            assert(self@ =~= t0.push(row));
            assert forall|l: Seq<char>| #[trigger] self.indexed(l) by {
                assert(old(self).indexed(l));
                if l == key {
                    assert(self.by_key@[l]@ == p0.push(i));
                    assert forall|k: int| 0 <= k < self.by_key@[l]@.len() implies (
                    #[trigger] self.by_key@[l]@[k]) < self@.len() by {
                        if k < p0.len() {
                            assert(p0[k] == map0[l]@[k]);
                        }
                    }
                    assert forall|j: int|
                        0 <= j < self@.len() && (#[trigger] self@[j]).key
                            == l implies self.by_key@[l]@.contains(j as usize) by {
                        if j < t0.len() {
                            assert(t0[j] == self@[j]);
                            assert(p0.contains(j as usize));
                            let k = choose|k: int| 0 <= k < p0.len() && p0[k] == j as usize;
                            assert(self.by_key@[l]@[k] == j as usize);
                        } else {
                            assert(self.by_key@[l]@[p0.len() as int] == j as usize);
                        }
                    }
                } else if map0.contains_key(l) {
                    assert(self.by_key@[l] == map0[l]);
                    assert forall|k: int| 0 <= k < self.by_key@[l]@.len() implies (
                    #[trigger] self.by_key@[l]@[k]) < self@.len() by {
                        assert(map0[l]@[k] < t0.len());
                    }
                    assert forall|j: int|
                        0 <= j < self@.len() && (#[trigger] self@[j]).key
                            == l implies self.by_key@[l]@.contains(j as usize) by {
                        assert(j < t0.len());
                        assert(t0[j] == self@[j]);
                    }
                } else {
                    assert forall|j: int| 0 <= j < self@.len() implies (#[trigger] self@[j]).key
                        != l by {
                        if j < t0.len() {
                            assert(t0[j] == self@[j]);
                        }
                    }
                }
            }
            let t1 = self@;
            assert forall|a: int, b: int| 0 <= a < b < t1.len() implies !scope_is(
                #[trigger] t1[b],
                (#[trigger] t1[a]).crawler,
                t1[a].key,
            ) by {
                assert(t0[a] == t1[a]);
                if b < t0.len() {
                    assert(t0[b] == t1[b]);
                } else if scope_is(t1[b], t1[a].crawler, t1[a].key) {
                    assert(scope_is(t0[a], row.crawler, row.key));
                }
            }
        }
    }

    /// Replaces a row by another of the same crawler and key.
    pub fn set(&mut self, i: usize, scope: Scope)
        requires
            old(self).wf(),
            i < old(self)@.len(),
            scope_is(old(self)@[i as int], scope@.crawler, scope@.key),
        ensures
            final(self).wf(),
            final(self)@ == old(self)@.update(i as int, scope@),
    {
        let ghost t0 = self@;
        let ghost row = scope@;
        self.rows.set(i, scope);
        proof {
            let t1 = t0.update(i as int, row);
            assert(self@ =~= t1);
            assert forall|l: Seq<char>| #[trigger] self.indexed(l) by {
                assert(old(self).indexed(l));
                assert forall|j: int| 0 <= j < t1.len() implies (#[trigger] t1[j]).key
                    == t0[j].key by {}
                if self.by_key@.contains_key(l) {
                    assert forall|k: int| 0 <= k < self.by_key@[l]@.len() implies (
                    #[trigger] self.by_key@[l]@[k]) < self@.len() by {
                        assert(old(self).by_key@[l]@[k] < t0.len());
                    }
                    assert forall|j: int|
                        0 <= j < self@.len() && (#[trigger] self@[j]).key
                            == l implies self.by_key@[l]@.contains(j as usize) by {
                        assert(t0[j].key == l);
                    }
                } else {
                    assert forall|j: int| 0 <= j < self@.len() implies (#[trigger] self@[j]).key
                        != l by {
                        assert(t0[j].key != l);
                    }
                }
            }
            assert forall|a: int, b: int| 0 <= a < b < t1.len() implies !scope_is(
                #[trigger] t1[b],
                (#[trigger] t1[a]).crawler,
                t1[a].key,
            ) by {
                assert(!scope_is(t0[b], t0[a].crawler, t0[a].key));
            }
        }
    }
}

} // verus!
