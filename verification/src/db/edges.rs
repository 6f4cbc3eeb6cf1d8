//! The table of edges, found by the user that they leave.
use std::collections::HashMap;

use vstd::prelude::*;
use vstd::std_specs::hash::*;
use vstd::string::*;

use super::model::{edge_is, edges_valid, has_edge};
use crate::text::same;
use crate::types::{edge_models, Edge, EdgeModel};

verus! {

/// The rows in the order of insertion, with an index by the user they leave.
pub struct EdgeTable {
    rows: Vec<Edge>,
    out: HashMap<i64, Vec<usize>>,
}

impl View for EdgeTable {
    type V = Seq<EdgeModel>;

    closed spec fn view(&self) -> Seq<EdgeModel> {
        edge_models(self.rows@)
    }
}

impl EdgeTable {
    /// The index lists for `id` exactly the places of the edges that leave it.
    spec fn indexed(&self, id: i64) -> bool {
        if self.out@.contains_key(id) {
            &&& forall|k: int|
                0 <= k < self.out@[id]@.len() ==> (#[trigger] self.out@[id]@[k]) < self@.len()
            &&& forall|i: int|
                0 <= i < self@.len() && (#[trigger] self@[i]).from == id ==> self.out@[id]@.contains(
                    i as usize,
                )
        } else {
            forall|i: int| 0 <= i < self@.len() ==> (#[trigger] self@[i]).from != id
        }
    }

    /// Keys are unique and the index is up to date.
    pub closed spec fn wf(&self) -> bool {
        &&& edges_valid(self@)
        &&& forall|id: i64| #[trigger] self.indexed(id)
    }

    pub proof fn lemma_valid(&self)
        requires
            self.wf(),
        ensures
            edges_valid(self@),
    {
    }

    /// An empty table.
    pub fn new() -> (t: EdgeTable)
        ensures
            t.wf(),
            t@ == Seq::<EdgeModel>::empty(),
    {
        broadcast use group_hash_axioms;

        let t = EdgeTable { rows: Vec::new(), out: HashMap::new() };
        assert(t@ =~= Seq::empty());
        t
    }

    /// The rows.
    pub fn rows(&self) -> (r: &Vec<Edge>)
        ensures
            edge_models(r@) == self@,
    {
        &self.rows
    }

    /// Whether an edge of this type leads from one user to the other.
    pub fn has(&self, from: i64, to: i64, kind: &str) -> (r: bool)
        requires
            self.wf(),
        ensures
            r == has_edge(self@, from, to, kind@),
    {
        broadcast use group_hash_axioms;

        assert(self.indexed(from));
        let count: usize = self.rows.len();
        assert(self@.len() == count);
        match self.out.get(&from) {
            Some(places) => {
                let mut k: usize = 0;
                while k < places.len()
                    invariant
                        self.indexed(from),
                        self.out@.contains_key(from),
                        places@ == self.out@[from]@,
                        k <= places@.len(),
                        forall|j: int|
                            0 <= j < k ==> !edge_is(
                                self@[(#[trigger] places@[j]) as int],
                                from,
                                to,
                                kind@,
                            ),
                    decreases places@.len() - k,
                {
                    let i: usize = places[k];
                    let e = &self.rows[i];
                    assert(self@[i as int] == e@);
                    if e.from_user_id == from && e.to_user_id == to && same(
                        e.edge_type.as_str(),
                        kind,
                    ) {
                        assert(edge_is(self@[i as int], from, to, kind@));
                        return true;
                    }
                    k = k + 1;
                }
                proof {
                    if has_edge(self@, from, to, kind@) {
                        let i = choose|i: int|
                            0 <= i < self@.len() && edge_is(#[trigger] self@[i], from, to, kind@);
                        assert(places@.contains(i as usize));
                        let j = choose|j: int| 0 <= j < places@.len() && places@[j] == i as usize;
                        assert(!edge_is(self@[places@[j] as int], from, to, kind@));
                    }
                }
                false
            },
            None => false,
        }
    }

    /// Appends an edge that is not there yet.
    pub fn push(&mut self, edge: Edge)
        requires
            old(self).wf(),
            !has_edge(old(self)@, edge@.from, edge@.to, edge@.kind),
        ensures
            final(self).wf(),
            final(self)@ == old(self)@.push(edge@),
    {
        broadcast use group_hash_axioms;

        let ghost t0 = self@;
        let ghost out0 = self.out@;
        let i: usize = self.rows.len();
        let from: i64 = edge.from_user_id;
        let mut places: Vec<usize> = match self.out.remove(&from) {
            Some(p) => p,
            None => Vec::new(),
        };
        let ghost p0 = places@;
        places.push(i);
        self.out.insert(from, places);
        let ghost row = edge@;
        self.rows.push(edge);
        proof {
            assert(self@ =~= t0.push(row));
            assert forall|id: i64| #[trigger] self.indexed(id) by {
                assert(old(self).indexed(id));
                if id == from {
                    assert(self.out@[id]@ == p0.push(i));
                    assert forall|k: int| 0 <= k < self.out@[id]@.len() implies (
                    #[trigger] self.out@[id]@[k]) < self@.len() by {
                        if k < p0.len() {
                            assert(p0[k] == out0[id]@[k]);
                        }
                    }
                    assert forall|j: int|
                        0 <= j < self@.len() && (#[trigger] self@[j]).from
                            == id implies self.out@[id]@.contains(j as usize) by {
                        if j < t0.len() {
                            assert(t0[j] == self@[j]);
                            assert(p0.contains(j as usize));
                            let k = choose|k: int| 0 <= k < p0.len() && p0[k] == j as usize;
                            assert(self.out@[id]@[k] == j as usize);
                        } else {
                            assert(self.out@[id]@[p0.len() as int] == j as usize);
                        }
                    }
                } else {
                    assert(self.out@.contains_key(id) == out0.contains_key(id));
                    if self.out@.contains_key(id) {
                        assert(self.out@[id] == out0[id]);
                        assert forall|k: int| 0 <= k < self.out@[id]@.len() implies (
                        #[trigger] self.out@[id]@[k]) < self@.len() by {
                            assert(out0[id]@[k] < t0.len());
                        }
                        assert forall|j: int|
                            0 <= j < self@.len() && (#[trigger] self@[j]).from
                                == id implies self.out@[id]@.contains(j as usize) by {
                            assert(j < t0.len());
                            assert(t0[j] == self@[j]);
                        }
                    } else {
                        assert forall|j: int| 0 <= j < self@.len() implies (
                        #[trigger] self@[j]).from != id by {
                            if j < t0.len() {
                                assert(t0[j] == self@[j]);
                            }
                        }
                    }
                }
            }
            assert(edges_valid(self@)) by {
                let t1 = self@;
                assert forall|a: int, b: int| 0 <= a < b < t1.len() implies !edge_is(
                    #[trigger] t1[b],
                    (#[trigger] t1[a]).from,
                    t1[a].to,
                    t1[a].kind,
                ) by {
                    assert(t0[a] == t1[a]);
                    if b < t0.len() {
                        assert(t0[b] == t1[b]);
                    } else if edge_is(t1[b], t1[a].from, t1[a].to, t1[a].kind) {
                        assert(edge_is(t0[a], row.from, row.to, row.kind));
                    }
                }
            }
        }
    }
}

} // verus!
