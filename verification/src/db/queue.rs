//! The crawl queue: who is next, who waits, and how many of each kind there are.
use vstd::prelude::*;
use vstd::relations::*;
use vstd::string::*;

use super::model::{
    goes_before, has_scope, is_fresh, is_retry, priority_rank, queue_entry, queue_key, scope_is,
    with_status, ScopeModel, Tables,
};
use super::scopes::{scope_models, Scope};
use super::writes::lemma_turn;
use super::Db;
use crate::graph::first_of;
use crate::lists::{lemma_filter_holds, lemma_filter_none, lemma_filter_step};
use crate::order::{keys, num_order, sort, NumKey, Ranked};
use crate::text::{same, views};
use crate::types::{queue_models, QueueItem, QueueModel};

verus! {

/// What is counted among the scopes of a crawler.
#[derive(Clone, Copy)]
pub enum Tally<'a> {
    /// Those of this status.
    Status(&'a str),
    /// Those that wait again after a failure.
    Retry,
    /// Those of this priority that wait and have not failed yet.
    Fresh(&'a str),
}

impl<'a> Tally<'a> {
    pub open spec fn holds(self, s: ScopeModel) -> bool {
        match self {
            Tally::Status(status) => s.status == status@,
            Tally::Retry => is_retry(s),
            Tally::Fresh(priority) => is_fresh(s) && s.priority == priority@,
        }
    }

    fn test(&self, s: &Scope) -> (r: bool)
        ensures
            r == self.holds(s@),
    {
        match self {
            Tally::Status(status) => same(s.status.as_str(), status),
            Tally::Retry => same(s.status.as_str(), "pending") && s.error_count > 0,
            Tally::Fresh(priority) => same(s.status.as_str(), "pending") && s.error_count <= 0
                && same(s.priority.as_str(), priority),
        }
    }
}

/// How many scopes of the crawler are counted.
pub open spec fn tally(t: Tables, crawler: Seq<char>, what: Tally) -> nat {
    t.scopes.filter(|s: ScopeModel| s.crawler == crawler && what.holds(s)).len()
}

/// The scopes of the queue that are counted, in the order of the queue.
pub open spec fn preview(t: Tables, crawler: Seq<char>, what: Tally, limit: nat) -> Seq<
    QueueModel,
> {
    first_of(
        t.queue(crawler).filter(|s: ScopeModel| what.holds(s)).map_values(
            |s: ScopeModel| queue_entry(s),
        ),
        limit,
    )
}

/// Where a priority stands.
fn rank(priority: &str) -> (r: i64)
    ensures
        r == priority_rank(priority@),
{
    if same(priority, "high") {
        1
    } else if same(priority, "normal") {
        2
    } else if same(priority, "low") {
        3
    } else {
        0
    }
}

/// The sorted keys of the queue are those of the waiting scopes, each once.
proof fn lemma_sorted_queue(t: Tables, crawler: Seq<char>)
    requires
        t.scopes.len() <= usize::MAX,
    ensures
        ({
            let q = t.queue_keys(crawler).sort_by(num_order());
            &&& sorted_by(q, num_order())
            &&& forall|k: NumKey| #[trigger]
                q.contains(k) <==> (k.3 < t.scopes.len() && k == queue_key(
                    t.scopes[k.3 as int],
                    k.3,
                ) && t.waits(crawler, t.scopes[k.3 as int]))
            &&& q.no_duplicates()
            &&& q.len() == t.queue_keys(crawler).len()
        }),
{
    let all = Seq::new(t.scopes.len(), |i: int| queue_key(t.scopes[i], i as usize));
    let p = |k: NumKey| t.waits(crawler, t.scopes[k.3 as int]);
    let u = t.queue_keys(crawler);
    let q = u.sort_by(num_order());
    NumKey::order_is_total();
    u.lemma_sort_by_ensures(num_order());
    lemma_filter_holds(all, p);
    assert(all.no_duplicates()) by {
        assert forall|i: int, j: int| 0 <= i < all.len() && 0 <= j < all.len() && i
            != j implies all[i] != all[j] by {
            assert(all[i].3 == i as usize);
            assert(all[j].3 == j as usize);
        }
    }
    lemma_filter_distinct(all, p);
    u.to_multiset_ensures();
    q.to_multiset_ensures();
    assert forall|k: NumKey| #[trigger] q.contains(k) <==> (k.3 < t.scopes.len() && k == queue_key(
        t.scopes[k.3 as int],
        k.3,
    ) && t.waits(crawler, t.scopes[k.3 as int])) by {
        assert(q.contains(k) <==> q.to_multiset().count(k) > 0);
        assert(u.contains(k) <==> u.to_multiset().count(k) > 0);
        assert(u.contains(k) <==> all.contains(k) && p(k));
        if all.contains(k) {
            let i = choose|i: int| 0 <= i < all.len() && all[i] == k;
            assert(k.3 == i as usize);
        }
        if k.3 < t.scopes.len() && k == queue_key(t.scopes[k.3 as int], k.3) {
            assert(all[k.3 as int] == k);
        }
    }
    u.lemma_multiset_has_no_duplicates();
    q.lemma_multiset_has_no_duplicates_conv();
}

/// Filtering repeats nothing.
proof fn lemma_filter_distinct<A>(s: Seq<A>, p: spec_fn(A) -> bool)
    requires
        s.no_duplicates(),
    ensures
        s.filter(p).no_duplicates(),
    decreases s.len(),
{
    reveal(Seq::filter);
    if s.len() > 0 {
        let rest = s.drop_last();
        lemma_filter_distinct(rest, p);
        lemma_filter_holds(rest, p);
        let g = rest.filter(p);
        if p(s.last()) {
            let f = s.filter(p);
            assert(f == g.push(s.last()));
            assert forall|i: int, j: int| 0 <= i < f.len() && 0 <= j < f.len() && i
                != j implies f[i] != f[j] by {
                if i == g.len() || j == g.len() {
                    let k = if i == g.len() {
                        j
                    } else {
                        i
                    };
                    if f[k] == s.last() {
                        assert(g.contains(g[k]));
                        let m = choose|m: int| 0 <= m < rest.len() && rest[m] == s.last();
                        assert(s[m] == s[s.len() - 1]);
                    }
                }
            }
        }
    }
}

/// The queue is ordered: a more urgent priority goes first, among these the
/// smaller degree, and among these the fewer failures.
pub proof fn law_queue_order(t: Tables, crawler: Seq<char>, i: int, j: int)
    requires
        t.scopes.len() <= usize::MAX,
        0 <= i < j < t.queue(crawler).len(),
    ensures
        goes_before(t.queue(crawler)[i], t.queue(crawler)[j]),
{
    let q = t.queue_keys(crawler).sort_by(num_order());
    lemma_sorted_queue(t, crawler);
    assert(q.contains(q[i]));
    assert(q.contains(q[j]));
    assert(num_order()(q[i], q[j]));
}

/// The queue holds the scopes that wait for the crawler and whose user is known,
/// and no others.
pub proof fn law_queue_is_what_waits(t: Tables, crawler: Seq<char>, s: ScopeModel)
    requires
        t.scopes.len() <= usize::MAX,
    ensures
        t.queue(crawler).contains(s) <==> t.scopes.contains(s) && t.waits(crawler, s),
{
    let q = t.queue_keys(crawler).sort_by(num_order());
    let r = t.queue(crawler);
    lemma_sorted_queue(t, crawler);
    if r.contains(s) {
        let i = choose|i: int| 0 <= i < r.len() && r[i] == s;
        assert(q.contains(q[i]));
        assert(t.scopes[q[i].3 as int] == s);
    }
    if t.scopes.contains(s) && t.waits(crawler, s) {
        let i = choose|i: int| 0 <= i < t.scopes.len() && t.scopes[i] == s;
        let k = queue_key(s, i as usize);
        assert(q.contains(k));
        let m = choose|m: int| 0 <= m < q.len() && q[m] == k;
        assert(r[m] == s);
    }
}

/// How urgent a priority is: the three that are known in this order, and any other
/// before them.
pub open spec fn urgency(priority: Seq<char>) -> int {
    if priority == "high"@ {
        1
    } else if priority == "normal"@ {
        2
    } else if priority == "low"@ {
        3
    } else {
        0
    }
}

/// A scope stands in the queue of its crawler exactly when it is pending and a row of the
/// table of users has its login, whatever its degree, priority and failures are; and it
/// stands there once.
pub proof fn law_queue_holds_every_pending_scope(t: Tables, crawler: Seq<char>, i: int)
    requires
        t.valid(),
        t.scopes.len() <= usize::MAX,
        0 <= i < t.scopes.len(),
    ensures
        t.queue(crawler).contains(t.scopes[i]) <==> t.scopes[i].crawler == crawler
            && t.scopes[i].status == "pending"@ && exists|r: int|
            0 <= r < t.users.len() && (#[trigger] t.users[r]).login == t.scopes[i].key,
        forall|k: int|
            0 <= k < t.queue(crawler).len() ==> t.scopes.contains(#[trigger] t.queue(crawler)[k]),
        t.queue(crawler).no_duplicates(),
{
    let q = t.queue_keys(crawler).sort_by(num_order());
    let r = t.queue(crawler);
    law_queue_is_what_waits(t, crawler, t.scopes[i]);
    lemma_sorted_queue(t, crawler);
    assert(t.scopes.contains(t.scopes[i]));
    assert forall|k: int| 0 <= k < r.len() implies t.scopes.contains(#[trigger] r[k]) by {
        assert(r.contains(r[k]));
        law_queue_is_what_waits(t, crawler, r[k]);
    }
    assert forall|k: int, m: int| 0 <= k < r.len() && 0 <= m < r.len() && k != m implies r[k]
        != r[m] by {
        assert(q.contains(q[k]) && q.contains(q[m]));
        let (x, y) = (q[k].3 as int, q[m].3 as int);
        assert(q[k] != q[m]);
        if x == y {
            assert(q[k] == queue_key(t.scopes[x], q[k].3));
            assert(q[m] == queue_key(t.scopes[x], q[m].3));
        }
        let (lo, hi) = if x < y {
            (x, y)
        } else {
            (y, x)
        };
        assert(!scope_is(t.scopes[hi], t.scopes[lo].crawler, t.scopes[lo].key));
    }
}

/// Of two scopes in the queue the more urgent priority stands first, at the same urgency
/// the smaller degree, at the same degree the fewer failures, and where these agree too
/// the one that was queued first.
pub proof fn law_queue_is_in_the_order_of_urgency(t: Tables, crawler: Seq<char>, i: int, j: int)
    requires
        t.scopes.len() <= usize::MAX,
        0 <= i < j < t.queue(crawler).len(),
    ensures
        ({
            let (a, b) = (t.queue(crawler)[i], t.queue(crawler)[j]);
            &&& urgency(a.priority) <= urgency(b.priority)
            &&& urgency(a.priority) == urgency(b.priority) ==> a.degree <= b.degree
            &&& urgency(a.priority) == urgency(b.priority) && a.degree == b.degree ==> a.error_count
                <= b.error_count
            &&& urgency(a.priority) == urgency(b.priority) && a.degree == b.degree && a.error_count
                == b.error_count ==> exists|x: int, y: int|
                0 <= x < y < t.scopes.len() && #[trigger] t.scopes[x] == a && #[trigger] t.scopes[y]
                    == b
        }),
{
    let q = t.queue_keys(crawler).sort_by(num_order());
    lemma_sorted_queue(t, crawler);
    assert(q.contains(q[i]));
    assert(q.contains(q[j]));
    assert(num_order()(q[i], q[j]));
    assert(q[i] != q[j]);
    let (x, y) = (q[i].3 as int, q[j].3 as int);
    assert(t.scopes[x] == t.queue(crawler)[i]);
    assert(t.scopes[y] == t.queue(crawler)[j]);
}

/// Claiming turns the scope at the head of the queue into one that is being crawled, and
/// touches nothing else.
pub proof fn law_claiming_turns_the_head(t: Tables, crawler: Seq<char>, i: int)
    requires
        t.queue(crawler).len() > 0,
        0 <= i < t.scopes.len(),
    ensures
        ({
            let (u, head) = (claimed(t, crawler), t.queue(crawler)[0]);
            &&& u.users == t.users && u.profiles == t.profiles && u.edges == t.edges
            &&& u.history == t.history && u.config == t.config
            &&& u.scopes.len() == t.scopes.len()
            &&& t.scopes[i].crawler == crawler && t.scopes[i].key == head.key ==> u.scopes[i] == (
            ScopeModel { status: "in_progress"@, ..t.scopes[i] })
            &&& t.scopes[i].crawler != crawler || t.scopes[i].key != head.key ==> u.scopes[i]
                == t.scopes[i]
        }),
{
}

/// One more scope counts exactly where it is of the crawler and of the kind, and without
/// scopes nothing is counted.
pub proof fn law_tally_grows_with_the_scopes(
    t: Tables,
    crawler: Seq<char>,
    s: ScopeModel,
    text: &str,
)
    ensures
        ({
            let u = Tables { scopes: t.scopes.push(s), ..t };
            let own = s.crawler == crawler;
            &&& tally(u, crawler, Tally::Status(text)) == tally(t, crawler, Tally::Status(text)) + (
            if own && s.status == text@ {
                1int
            } else {
                0int
            })
            &&& tally(u, crawler, Tally::Retry) == tally(t, crawler, Tally::Retry) + (if own
                && s.status == "pending"@ && s.error_count > 0 {
                1int
            } else {
                0int
            })
            &&& tally(u, crawler, Tally::Fresh(text)) == tally(t, crawler, Tally::Fresh(text)) + (
            if own && s.status == "pending"@ && s.error_count <= 0 && s.priority == text@ {
                1int
            } else {
                0int
            })
            &&& t.scopes.len() == 0 ==> tally(t, crawler, Tally::Status(text)) == 0 && tally(
                t,
                crawler,
                Tally::Retry,
            ) == 0 && tally(t, crawler, Tally::Fresh(text)) == 0
        }),
{
    lemma_tally_step(t, crawler, s, Tally::Status(text));
    lemma_tally_step(t, crawler, s, Tally::Retry);
    lemma_tally_step(t, crawler, s, Tally::Fresh(text));
}

proof fn lemma_tally_step(t: Tables, crawler: Seq<char>, s: ScopeModel, what: Tally)
    ensures
        tally(Tables { scopes: t.scopes.push(s), ..t }, crawler, what) == tally(t, crawler, what)
            + (if s.crawler == crawler && what.holds(s) {
            1int
        } else {
            0int
        }),
        t.scopes.len() == 0 ==> tally(t, crawler, what) == 0,
{
    let p = |x: ScopeModel| x.crawler == crawler && what.holds(x);
    let all = t.scopes.push(s);
    let n = t.scopes.len() as int;
    lemma_filter_step(all, p, n);
    assert(all.take(n) =~= t.scopes);
    assert(all.take(n + 1) =~= all);
    lemma_filter_holds(t.scopes, p);
}

/// A preview shows the first scopes of the queue that are of its kind, in the order of
/// the queue: those that wait again after a failure under the priority `retry`, the
/// others of one priority under it.
pub proof fn law_preview_is_the_head_of_the_queue(
    t: Tables,
    crawler: Seq<char>,
    priority: &str,
    limit: nat,
)
    ensures
        preview(t, crawler, Tally::Retry, limit) == shown_first(
            t.queue(crawler).filter(
                |s: ScopeModel| s.status == "pending"@ && s.error_count > 0,
            ).map_values(
                |s: ScopeModel|
                    QueueModel { login: s.key, degree: s.degree, priority: "retry"@ },
            ),
            limit,
        ),
        preview(t, crawler, Tally::Fresh(priority), limit) == shown_first(
            t.queue(crawler).filter(
                |s: ScopeModel|
                    s.status == "pending"@ && s.error_count <= 0 && s.priority == priority@,
            ).map_values(
                |s: ScopeModel|
                    QueueModel { login: s.key, degree: s.degree, priority: priority@ },
            ),
            limit,
        ),
{
    let q = t.queue(crawler);
    let p = |s: ScopeModel| Tally::Retry.holds(s);
    let raw = |s: ScopeModel| s.status == "pending"@ && s.error_count > 0;
    assert(p =~= raw);
    lemma_filter_holds(q, p);
    let f = q.filter(p);
    assert forall|k: int| 0 <= k < f.len() implies queue_entry(#[trigger] f[k]) == (QueueModel {
        login: f[k].key,
        degree: f[k].degree,
        priority: "retry"@,
    }) by {
        assert(f.contains(f[k]));
    }
    assert(preview(t, crawler, Tally::Retry, limit) =~= shown_first(
        f.map_values(
            |s: ScopeModel| QueueModel { login: s.key, degree: s.degree, priority: "retry"@ },
        ),
        limit,
    ));
    let p2 = |s: ScopeModel| Tally::Fresh(priority).holds(s);
    let raw2 = |s: ScopeModel|
        s.status == "pending"@ && s.error_count <= 0 && s.priority == priority@;
    assert(p2 =~= raw2);
    lemma_filter_holds(q, p2);
    let g = q.filter(p2);
    assert forall|k: int| 0 <= k < g.len() implies queue_entry(#[trigger] g[k]) == (QueueModel {
        login: g[k].key,
        degree: g[k].degree,
        priority: priority@,
    }) by {
        assert(g.contains(g[k]));
    }
    assert(preview(t, crawler, Tally::Fresh(priority), limit) =~= shown_first(
        g.map_values(
            |s: ScopeModel| QueueModel { login: s.key, degree: s.degree, priority: priority@ },
        ),
        limit,
    ));
}

/// The first `limit` elements, and all of them where there are no more.
pub open spec fn shown_first<T>(s: Seq<T>, limit: nat) -> Seq<T> {
    if s.len() <= limit {
        s
    } else {
        s.take(limit as int)
    }
}

/// A scope is claimed once: while it is being crawled no other claim finds it.
pub proof fn law_claimed_scope_has_left_the_queue(t: Tables, crawler: Seq<char>, i: int)
    requires
        t.valid(),
        t.scopes.len() <= usize::MAX,
        t.queue(crawler).len() > 0,
        0 <= i < claimed(t, crawler).queue(crawler).len(),
    ensures
        claimed(t, crawler).queue(crawler)[i].key != t.queue(crawler)[0].key,
{
    reveal_strlit("pending");
    reveal_strlit("in_progress");
    let key = t.queue(crawler)[0].key;
    let t1 = claimed(t, crawler);
    let s = t1.queue(crawler)[i];
    law_queue_is_what_waits(t1, crawler, s);
    if s.key == key {
        let j = choose|j: int| 0 <= j < t1.scopes.len() && t1.scopes[j] == s;
        assert(scope_is(t.scopes[j], crawler, key));
        assert(s.status == "in_progress"@);
        assert("in_progress"@.len() != "pending"@.len());
    }
}

/// The tables once the first scope of the queue is claimed.
pub open spec fn claimed(t: Tables, crawler: Seq<char>) -> Tables {
    t.turn_scope(
        crawler,
        t.queue(crawler)[0].key,
        |s: ScopeModel| with_status(s, "in_progress"@),
    )
}

impl Db {
    /// The sorted keys of the queue of a crawler.
    fn queue_places(&self, crawler_name: &str) -> (r: Vec<NumKey>)
        requires
            self.wf(),
        ensures
            r@ == self@.queue_keys(crawler_name@).sort_by(num_order()),
            self@.scopes.len() <= usize::MAX,
            forall|i: int| #![trigger r@[i]] 0 <= i < r@.len() ==> r@[i].3 < self@.scopes.len(),
    {
        let ghost t = self@;
        let rows = self.scopes.rows();
        assert(scope_models(rows@) == t.scopes);
        assert(rows@.len() == t.scopes.len());
        let count: usize = rows.len();
        let ghost all = Seq::new(t.scopes.len(), |i: int| queue_key(t.scopes[i], i as usize));
        let ghost p = |k: NumKey| t.waits(crawler_name@, t.scopes[k.3 as int]);
        let mut v: Vec<NumKey> = Vec::new();
        let mut i: usize = 0;
        proof {
            lemma_filter_none(all, p);
        }
        while i < rows.len()
            invariant
                self.wf(),
                t == self@,
                scope_models(rows@) == t.scopes,
                rows@.len() == t.scopes.len(),
                i <= rows@.len(),
                all == Seq::new(t.scopes.len(), |i: int| queue_key(t.scopes[i], i as usize)),
                p == (|k: NumKey| t.waits(crawler_name@, t.scopes[k.3 as int])),
                v@ == all.take(i as int).filter(p),
            decreases rows@.len() - i,
        {
            proof {
                lemma_filter_step(all, p, i as int);
            }
            let s = &rows[i];
            assert(s@ == scope_models(rows@)[i as int]);
            let known: bool = match self.users.find_login(s.scope_key.as_str()) {
                Some(place) => {
                    assert(t.users[place as int].login == s@.key);
                    true
                },
                None => false,
            };
            if known && same(s.crawler_name.as_str(), crawler_name) && same(
                s.status.as_str(),
                "pending",
            ) {
                v.push((rank(s.priority.as_str()), s.degree as i64, s.error_count, i));
            }
            i = i + 1;
        }
        assert(all.take(i as int) =~= all);
        let r = sort(v);
        proof {
            assert(keys(v@) =~= v@);
            assert(keys(r@) =~= r@);
            lemma_sorted_queue(t, crawler_name@);
            assert forall|j: int| #![trigger r@[j]] 0 <= j < r@.len() implies r@[j].3
                < self@.scopes.len() by {
                assert(r@.contains(r@[j]));
            }
        }
        r
    }

    /// The keys that wait for a crawler, the most urgent first, up to `limit`.
    pub fn pending_scopes(&self, crawler_name: &str, limit: usize) -> (r: Vec<String>)
        requires
            self.wf(),
        ensures
            views(r@) == first_of(
                self@.queue(crawler_name@).map_values(|s: ScopeModel| s.key),
                limit as nat,
            ),
    {
        let places = self.queue_places(crawler_name);
        let rows = self.scopes.rows();
        let ghost want = self@.queue(crawler_name@).map_values(|s: ScopeModel| s.key);
        let mut r: Vec<String> = Vec::new();
        let mut i: usize = 0;
        while i < places.len() && i < limit
            invariant
                scope_models(rows@) == self@.scopes,
                places@ == self@.queue_keys(crawler_name@).sort_by(num_order()),
                want == self@.queue(crawler_name@).map_values(|s: ScopeModel| s.key),
                forall|i: int|
                    #![trigger places@[i]]
                    0 <= i < places@.len() ==> places@[i].3 < self@.scopes.len(),
                i <= places@.len(),
                i <= limit,
                views(r@) =~= want.take(i as int),
            decreases places@.len() - i,
        {
            let place: usize = places[i].3;
            assert(rows@.len() == self@.scopes.len());
            let s = &rows[place];
            assert(s@ == scope_models(rows@)[place as int]);
            let ghost r0 = views(r@);
            r.push(s.scope_key.clone());
            assert(want[i as int] == s.scope_key@);
            assert(views(r@) =~= r0.push(s.scope_key@));
            assert(want.take(i + 1) =~= want.take(i as int).push(want[i as int]));
            i = i + 1;
        }
        assert(views(r@) =~= first_of(want, limit as nat));
        r
    }

    /// Takes the most urgent scope out of the queue of a crawler, for the caller
    /// to crawl.
    pub fn claim_scope(&mut self, crawler_name: &str) -> (r: Option<Scope>)
        requires
            old(self).wf(),
        ensures
            final(self).wf(),
            final(self).stored() == old(self).stored(),
            match r {
                Some(s) => old(self)@.queue(crawler_name@).len() > 0 && s@ == with_status(
                    old(self)@.queue(crawler_name@)[0],
                    "in_progress"@,
                ) && s@.crawler == crawler_name@ && final(self)@ == claimed(
                    old(self)@,
                    crawler_name@,
                ),
                None => old(self)@.queue(crawler_name@).len() == 0 && final(self)@ == old(self)@,
            },
    {
        let ghost t0 = self@;
        let places = self.queue_places(crawler_name);
        if places.len() == 0 {
            return None;
        }
        proof {
            self.scopes.lemma_valid();
            lemma_sorted_queue(t0, crawler_name@);
            assert(places@.contains(places@[0]));
        }
        let place: usize = places[0].3;
        let rows = self.scopes.rows();
        assert(scope_models(rows@) == t0.scopes);
        assert(rows@.len() == t0.scopes.len());
        let row = rows[place].copy();
        assert(row@ == scope_models(rows@)[place as int]);
        assert(row@ == t0.queue(crawler_name@)[0]);
        let scope = Scope { status: "in_progress".to_owned(), ..row };
        assert(scope@ == with_status(row@, "in_progress"@));
        let result = scope.copy();
        self.put_scope(place, scope);
        proof {
            lemma_turn(
                t0,
                crawler_name@,
                row@.key,
                |s: ScopeModel| with_status(s, "in_progress"@),
            );
            assert(scope_is(t0.scopes[place as int], crawler_name@, row@.key));
        }
        Some(result)
    }

    /// Whether the queue of a crawler knows the key, in whatever state.
    pub fn has_crawl_state(&self, crawler_name: &str, scope_key: &str) -> (r: bool)
        requires
            self.wf(),
        ensures
            r == has_scope(self@.scopes, crawler_name@, scope_key@),
    {
        match self.scopes.find(crawler_name, scope_key) {
            Some(i) => {
                assert(scope_is(self@.scopes[i as int], crawler_name@, scope_key@));
                true
            },
            None => false,
        }
    }

    /// Counts scopes of a crawler.
    fn count_scopes(&self, crawler_name: &str, what: Tally) -> (r: usize)
        ensures
            r == tally(self@, crawler_name@, what),
    {
        let ghost t = self@;
        let rows = self.scopes.rows();
        let ghost p = |s: ScopeModel| s.crawler == crawler_name@ && what.holds(s);
        let mut n: usize = 0;
        let mut i: usize = 0;
        proof {
            lemma_filter_none(t.scopes, p);
        }
        while i < rows.len()
            invariant
                scope_models(rows@) == t.scopes,
                rows@.len() == t.scopes.len(),
                i <= rows@.len(),
                n <= i,
                p == (|s: ScopeModel| s.crawler == crawler_name@ && what.holds(s)),
                n == t.scopes.take(i as int).filter(p).len(),
            decreases rows@.len() - i,
        {
            proof {
                lemma_filter_step(t.scopes, p, i as int);
            }
            let s = &rows[i];
            assert(s@ == scope_models(rows@)[i as int]);
            if same(s.crawler_name.as_str(), crawler_name) && what.test(s) {
                n = n + 1;
            }
            i = i + 1;
        }
        assert(t.scopes.take(i as int) =~= t.scopes);
        n
    }

    /// How many scopes are crawled.
    pub fn get_crawled_count(&self, crawler_name: &str) -> (r: usize)
        requires
            self.wf(),
        ensures
            r == tally(self@, crawler_name@, Tally::Status("done")),
    {
        self.count_scopes(crawler_name, Tally::Status("done"))
    }

    /// How many scopes wait.
    pub fn get_pending_count(&self, crawler_name: &str) -> (r: usize)
        requires
            self.wf(),
        ensures
            r == tally(self@, crawler_name@, Tally::Status("pending")),
    {
        self.count_scopes(crawler_name, Tally::Status("pending"))
    }

    /// How many scopes wait again after a failure.
    pub fn get_retry_count(&self, crawler_name: &str) -> (r: usize)
        requires
            self.wf(),
        ensures
            r == tally(self@, crawler_name@, Tally::Retry),
    {
        self.count_scopes(crawler_name, Tally::Retry)
    }

    /// How many scopes have been given up.
    pub fn get_error_count(&self, crawler_name: &str) -> (r: usize)
        requires
            self.wf(),
        ensures
            r == tally(self@, crawler_name@, Tally::Status("error")),
    {
        self.count_scopes(crawler_name, Tally::Status("error"))
    }

    /// How many scopes are being crawled.
    pub fn get_in_progress_count(&self, crawler_name: &str) -> (r: usize)
        requires
            self.wf(),
        ensures
            r == tally(self@, crawler_name@, Tally::Status("in_progress")),
    {
        self.count_scopes(crawler_name, Tally::Status("in_progress"))
    }

    /// How many scopes of a priority wait and have not failed yet.
    pub fn get_pending_count_by_priority(&self, crawler_name: &str, priority: &str) -> (r: usize)
        requires
            self.wf(),
        ensures
            r == tally(self@, crawler_name@, Tally::Fresh(priority)),
    {
        self.count_scopes(crawler_name, Tally::Fresh(priority))
    }

    /// The first scopes of one kind in the queue.
    fn preview_of(&self, crawler_name: &str, what: Tally, limit: usize) -> (r: Vec<QueueItem>)
        requires
            self.wf(),
        ensures
            queue_models(r@) == preview(self@, crawler_name@, what, limit as nat),
    {
        let ghost t = self@;
        let places = self.queue_places(crawler_name);
        let rows = self.scopes.rows();
        let ghost q = t.queue(crawler_name@);
        let ghost p = |s: ScopeModel| what.holds(s);
        let ghost f = |s: ScopeModel| queue_entry(s);
        let mut r: Vec<QueueItem> = Vec::new();
        let mut i: usize = 0;
        proof {
            lemma_filter_none(q, p);
            assert(queue_models(r@) =~= first_of(
                q.take(0).filter(p).map_values(f),
                limit as nat,
            ));
        }
        while i < places.len()
            invariant
                t == self@,
                scope_models(rows@) == t.scopes,
                places@ == t.queue_keys(crawler_name@).sort_by(num_order()),
                q == t.queue(crawler_name@),
                p == (|s: ScopeModel| what.holds(s)),
                f == (|s: ScopeModel| queue_entry(s)),
                forall|i: int|
                    #![trigger places@[i]]
                    0 <= i < places@.len() ==> places@[i].3 < t.scopes.len(),
                i <= places@.len(),
                queue_models(r@) == first_of(
                    q.take(i as int).filter(p).map_values(f),
                    limit as nat,
                ),
            decreases places@.len() - i,
        {
            proof {
                lemma_filter_step(q, p, i as int);
            }
            let ghost before = q.take(i as int).filter(p).map_values(f);
            let ghost after = q.take(i + 1).filter(p).map_values(f);
            let ghost r0 = queue_models(r@);
            let place: usize = places[i].3;
            assert(rows@.len() == t.scopes.len());
            let s = &rows[place];
            assert(s@ == scope_models(rows@)[place as int]);
            assert(q[i as int] == s@);
            if what.test(s) {
                assert(after =~= before.push(f(s@)));
                if r.len() < limit {
                    let priority: String = if s.error_count > 0 {
                        "retry".to_owned()
                    } else {
                        s.priority.clone()
                    };
                    let item = QueueItem {
                        login: s.scope_key.clone(),
                        degree: s.degree,
                        priority,
                    };
                    assert(item@ == queue_entry(s@));
                    r.push(item);
                    assert(queue_models(r@) =~= r0.push(item@));
                }
            }
            assert(queue_models(r@) =~= first_of(after, limit as nat));
            i = i + 1;
        }
        assert(q.take(i as int) =~= q);
        r
    }

    /// What comes next of three kinds: scopes of normal priority, of hubs, and
    /// those that wait again after a failure.
    pub fn queue_preview(&self, crawler_name: &str, limit: usize) -> (r: (
        Vec<QueueItem>,
        Vec<QueueItem>,
        Vec<QueueItem>,
    ))
        requires
            self.wf(),
        ensures
            queue_models(r.0@) == preview(
                self@,
                crawler_name@,
                Tally::Fresh("normal"),
                limit as nat,
            ),
            queue_models(r.1@) == preview(self@, crawler_name@, Tally::Fresh("low"), limit as nat),
            queue_models(r.2@) == preview(self@, crawler_name@, Tally::Retry, limit as nat),
    {
        (
            self.preview_of(crawler_name, Tally::Fresh("normal"), limit),
            self.preview_of(crawler_name, Tally::Fresh("low"), limit),
            self.preview_of(crawler_name, Tally::Retry, limit),
        )
    }
}

} // verus!
