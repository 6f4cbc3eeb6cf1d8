//! Crawling: what becomes of the lists that GitHub returned for a user.
use vstd::prelude::*;
use vstd::string::*;

use crate::db::model::{
    crawled, edge_is, has_edge, has_id, has_login, has_scope, place_of_login, scope_is, top_id,
    ChangeModel, ScopeModel, Tables, UserRowModel,
};
use crate::db::writes::{lemma_place_of_login, lemma_top_id};
use crate::db::{law_accepted_change_keeps_validity, Db, DbError};
use crate::github::{github_message, GithubError};
use crate::text::{cat2, views};
use crate::types::{
    edge_models, summary_logins, CrawlResult, EdgeModel, GithubUserSummary, NewEdge, ScopeResult,
    WEIGHT_ONE,
};

verus! {

/// Why a crawl failed.
#[derive(Debug, Clone)]
pub enum CrawlerError {
    /// Nobody in the database has this login.
    UserNotFound(String),
    /// The database refused something.
    Db(DbError),
    /// GitHub gave no answer.
    Github(GithubError),
}

impl CrawlerError {
    /// The error in words.
    pub fn message(&self) -> (s: String)
        ensures
            match *self {
                CrawlerError::UserNotFound(login) => s@ == "user not found: "@ + login@,
                CrawlerError::Db(e) => s@ == "database error: "@ + e.words(),
                CrawlerError::Github(e) => s@ == "github api error: "@ + github_message(e@),
            },
    {
        match self {
            CrawlerError::UserNotFound(login) => cat2("user not found: ", login.as_str()),
            CrawlerError::Db(e) => cat2("database error: ", e.message().as_str()),
            CrawlerError::Github(e) => cat2("github api error: ", e.message().as_str()),
        }
    }
}

/// A crawler explores one dimension of the graph. Its name is the key under which
/// the queue keeps its scopes, so that several crawlers can live side by side.
pub trait Crawler {
    spec fn key(&self) -> Seq<char>;

    /// The name of the crawler in the queue.
    fn name(&self) -> (r: &str)
        ensures
            r@ == self.key(),
    ;
}

/// The crawler that goes along who follows whom.
#[derive(Debug, Clone, Copy)]
pub struct FollowCrawler;

impl FollowCrawler {
    pub fn new() -> (r: Self)
        ensures
            r == FollowCrawler,
    {
        FollowCrawler
    }
}

impl Default for FollowCrawler {
    fn default() -> (r: Self)
        ensures
            r == FollowCrawler,
    {
        FollowCrawler::new()
    }
}

impl Crawler for FollowCrawler {
    open spec fn key(&self) -> Seq<char> {
        "follow_crawler"@
    }

    fn name(&self) -> (r: &str) {
        "follow_crawler"
    }
}

// ── Degrees ───────────────────────────────────────────────────────────────────

/// The smallest degree of the edges that reach a user, zero where there is none.
pub open spec fn reached_at(edges: Seq<EdgeModel>, id: i64) -> int {
    let into = edges.filter(|e: EdgeModel| e.to == id);
    if into.len() == 0 {
        0
    } else {
        least_degree(into)
    }
}

/// The smallest degree of a list of edges that is not empty.
pub open spec fn least_degree(edges: Seq<EdgeModel>) -> int
    decreases edges.len(),
{
    if edges.len() <= 1 {
        edges[0].degree as int
    } else if edges.last().degree < least_degree(edges.drop_last()) {
        edges.last().degree as int
    } else {
        least_degree(edges.drop_last())
    }
}

/// The degree of a user: the smallest degree of the edges that reach the user. Edges
/// that start at the user do not count, so it is zero for a user whom nobody in the
/// database follows, and for an unknown one.
pub open spec fn degree_of(t: Tables, login: Seq<char>) -> int {
    match t.user_by_login(login) {
        Some(u) => reached_at(t.edges, u.id),
        None => 0,
    }
}

/// No edge reaches a user at a smaller degree than that of the user.
pub proof fn law_degree_is_least(t: Tables, login: Seq<char>, i: int)
    requires
        t.user_by_login(login) is Some,
        0 <= i < t.edges.len(),
        t.edges[i].to == t.user_by_login(login)->0.id,
    ensures
        degree_of(t, login) <= t.edges[i].degree,
{
    let id = t.user_by_login(login)->0.id;
    let p = |e: EdgeModel| e.to == id;
    let into = t.edges.filter(p);
    crate::lists::lemma_filter_holds(t.edges, p);
    assert(t.edges.contains(t.edges[i]));
    assert(into.contains(t.edges[i]));
    let k = choose|k: int| 0 <= k < into.len() && into[k] == t.edges[i];
    lemma_least(into, k);
}

proof fn lemma_least(edges: Seq<EdgeModel>, k: int)
    requires
        0 <= k < edges.len(),
    ensures
        least_degree(edges) <= edges[k].degree,
    decreases edges.len(),
{
    if edges.len() > 1 && k < edges.len() - 1 {
        assert(edges.drop_last()[k] == edges[k]);
        lemma_least(edges.drop_last(), k);
    }
}

/// The degree of a known user is that of an edge that reaches the user, and no such
/// edge has a smaller one, active or not and of whatever type; it is zero where no edge
/// reaches the user.
pub proof fn law_degree_is_that_of_an_edge(t: Tables, r: int)
    requires
        t.valid(),
        0 <= r < t.users.len(),
    ensures
        ({
            let (id, d) = (t.users[r].id, degree_of(t, t.users[r].login));
            &&& (exists|i: int| 0 <= i < t.edges.len() && (#[trigger] t.edges[i]).to == id)
                ==> exists|i: int|
                0 <= i < t.edges.len() && (#[trigger] t.edges[i]).to == id && t.edges[i].degree == d
            &&& forall|i: int|
                0 <= i < t.edges.len() && (#[trigger] t.edges[i]).to == id ==> d <= t.edges[i].degree
            &&& (forall|i: int| 0 <= i < t.edges.len() ==> (#[trigger] t.edges[i]).to != id) ==> d
                == 0
        }),
{
    let (id, login) = (t.users[r].id, t.users[r].login);
    lemma_place_of_login(t.users, r);
    let p = |e: EdgeModel| e.to == id;
    let into = t.edges.filter(p);
    crate::lists::lemma_filter_holds(t.edges, p);
    if exists|i: int| 0 <= i < t.edges.len() && (#[trigger] t.edges[i]).to == id {
        let i = choose|i: int| 0 <= i < t.edges.len() && (#[trigger] t.edges[i]).to == id;
        assert(t.edges.contains(t.edges[i]));
        assert(into.contains(t.edges[i]));
        let k = lemma_least_is_one(into);
        assert(into.contains(into[k]));
        let j = choose|j: int| 0 <= j < t.edges.len() && t.edges[j] == into[k];
        assert(t.edges[j].to == id && t.edges[j].degree == degree_of(t, login));
    } else if into.len() > 0 {
        assert(into.contains(into[0]));
        let j = choose|j: int| 0 <= j < t.edges.len() && t.edges[j] == into[0];
        assert(t.edges[j].to == id);
    }
    assert forall|i: int| 0 <= i < t.edges.len() && (#[trigger] t.edges[i]).to == id implies degree_of(
        t,
        login,
    ) <= t.edges[i].degree by {
        law_degree_is_least(t, login, i);
    }
}

proof fn lemma_least_is_one(edges: Seq<EdgeModel>) -> (k: int)
    requires
        edges.len() > 0,
    ensures
        0 <= k < edges.len(),
        edges[k].degree == least_degree(edges),
    decreases edges.len(),
{
    if edges.len() == 1 {
        0
    } else {
        let k = lemma_least_is_one(edges.drop_last());
        assert(edges.drop_last()[k] == edges[k]);
        if edges.last().degree < least_degree(edges.drop_last()) {
            edges.len() - 1
        } else {
            k
        }
    }
}

/// A login can be stored exactly when it is, or when no row has the largest id.
pub proof fn law_storable_while_ids_last(t: Tables, login: Seq<char>)
    ensures
        storable(t, login) <==> (exists|i: int|
            0 <= i < t.users.len() && (#[trigger] t.users[i]).login == login) || (forall|i: int|
            0 <= i < t.users.len() ==> (#[trigger] t.users[i]).id < i64::MAX),
{
    crate::db::meaning::law_room_ends_at_the_largest_id(t);
}

/// Nobody is at a degree for whom there is no row.
pub proof fn law_unknown_user_has_degree_zero(t: Tables, login: Seq<char>)
    requires
        forall|i: int| 0 <= i < t.users.len() ==> (#[trigger] t.users[i]).login != login,
    ensures
        degree_of(t, login) == 0,
{
}

/// A step further from the seed is one more, as far as the numbers reach.
pub proof fn law_next_degree_is_one_more(degree: i32)
    ensures
        degree < i32::MAX ==> next_degree(degree) == degree + 1,
        next_degree(i32::MAX) == i32::MAX,
{
}

/// The degree of a user, for which only edges that reach the user count; zero where
/// there is none.
pub fn current_degree(db: &Db, login: &str) -> (r: i32)
    requires
        db.wf(),
    ensures
        r == degree_of(db@, login@),
{
    let user = match db.get_user_by_login(login) {
        Some(u) => u,
        None => {
            return 0;
        },
    };
    let ghost t = db@.edges;
    let ghost p = |e: EdgeModel| e.to == user.id;
    let edges = db.get_all_edges();
    let mut found: bool = false;
    let mut least: i32 = 0;
    let mut i: usize = 0;
    proof {
        crate::lists::lemma_filter_none(t, p);
    }
    while i < edges.len()
        invariant
            edge_models(edges@) == t,
            p == (|e: EdgeModel| e.to == user.id),
            i <= edges@.len(),
            found == (t.take(i as int).filter(p).len() > 0),
            found ==> least == least_degree(t.take(i as int).filter(p)),
            !found ==> least == 0,
        decreases edges@.len() - i,
    {
        let ghost before = t.take(i as int).filter(p);
        let e = &edges[i];
        assert(e@ == edge_models(edges@)[i as int]);
        proof {
            crate::lists::lemma_filter_step(t, p, i as int);
            assert(before.push(t[i as int]).drop_last() =~= before);
        }
        if e.to_user_id == user.id {
            if !found || e.degree < least {
                least = e.degree;
            }
            found = true;
        }
        i = i + 1;
    }
    assert(t.take(i as int) =~= t);
    least
}

/// One step further from the seed.
pub open spec fn next_degree(degree: i32) -> i32 {
    if degree < i32::MAX {
        (degree + 1) as i32
    } else {
        degree
    }
}

/// One step further from the seed.
pub fn step_out(degree: i32) -> (r: i32)
    ensures
        r == next_degree(degree),
{
    if degree < i32::MAX {
        degree + 1
    } else {
        degree
    }
}

// ── What is stored ──────────────────────────────────────────────────────────

/// What a crawl has left behind so far.
pub struct Progress {
    pub tables: Tables,
    /// How many connections were stored or were there already.
    pub connections: nat,
    /// The logins that entered the queue.
    pub queued: Seq<Seq<char>>,
    /// Something could not be stored.
    pub broken: bool,
}

/// What is the same for everything that a crawl stores.
pub struct Terms {
    pub crawler: Seq<char>,
    /// The user that is crawled.
    pub scope: Seq<char>,
    /// The degree of the discovered users.
    pub degree: i32,
    /// Their priority in the queue.
    pub priority: Seq<char>,
    pub now: Seq<char>,
}

/// The login can be stored, or is.
pub open spec fn storable(t: Tables, login: Seq<char>) -> bool {
    has_login(t.users, login) || t.room()
}

/// The edge that says that one user follows another.
pub open spec fn follow_edge(from: i64, to: i64, degree: i32, now: Seq<char>) -> EdgeModel {
    EdgeModel {
        from,
        to,
        kind: "follows"@,
        weight_bits: WEIGHT_ONE,
        degree,
        metadata: None,
        is_active: true,
        first_seen_at: Some(now),
        last_seen_at: Some(now),
        removed_at: None,
    }
}

/// The tables once it is stored that `source` follows `target`, as far as there
/// is room for the two of them.
pub open spec fn linked(
    t: Tables,
    source: Seq<char>,
    target: Seq<char>,
    degree: i32,
    now: Seq<char>,
) -> Tables {
    if !storable(t, source) {
        t
    } else {
        let t1 = t.insert_user(source);
        if !storable(t1, target) {
            t1
        } else {
            let t2 = t1.insert_user(target);
            t2.insert_edge(follow_edge(t2.id_of(source), t2.id_of(target), degree, now))
        }
    }
}

/// There is room for both users.
pub open spec fn linkable(t: Tables, source: Seq<char>, target: Seq<char>) -> bool {
    storable(t, source) && storable(t.insert_user(source), target)
}

/// What is left behind once a discovered user is taken in: one that the crawled
/// user follows where `out` is set, else one that follows the crawled user.
pub open spec fn absorbed(p: Progress, terms: Terms, out: bool, login: Seq<char>) -> Progress {
    let (source, target) = if out {
        (terms.scope, login)
    } else {
        (login, terms.scope)
    };
    let t = linked(p.tables, source, target, terms.degree, terms.now);
    if !linkable(p.tables, source, target) {
        Progress { tables: t, broken: true, ..p }
    } else if has_scope(t.scopes, terms.crawler, login) {
        Progress { tables: t, connections: p.connections + 1, ..p }
    } else {
        Progress {
            tables: t.insert_pending_scope(
                terms.crawler,
                login,
                terms.degree,
                terms.priority,
            ),
            connections: p.connections + 1,
            queued: p.queued.push(login),
            broken: p.broken,
        }
    }
}

/// What is left behind once a list of discovered users is taken in.
pub open spec fn absorbed_all(
    p: Progress,
    terms: Terms,
    out: bool,
    logins: Seq<Seq<char>>,
) -> Progress
    decreases logins.len(),
{
    if logins.len() == 0 {
        p
    } else {
        absorbed(absorbed_all(p, terms, out, logins.drop_last()), terms, out, logins.last())
    }
}

/// What a crawl leaves behind: first whom the user follows, then who follows the
/// user, and the scope is done.
pub open spec fn persisted(
    t: Tables,
    terms: Terms,
    following: Seq<Seq<char>>,
    followers: Seq<Seq<char>>,
) -> Progress {
    let p0 = Progress { tables: t, connections: 0, queued: Seq::empty(), broken: false };
    let p1 = absorbed_all(p0, terms, true, following);
    let p2 = absorbed_all(p1, terms, false, followers);
    Progress {
        tables: p2.tables.turn_scope(
            terms.crawler,
            terms.scope,
            |s: ScopeModel| crawled(s, terms.now),
        ),
        ..p2
    }
}

/// Stores that `source` follows `target`. Returns whether there was room.
fn persist_edge(db: &mut Db, source: &str, target: &str, degree: i32, now: &str) -> (r: bool)
    requires
        old(db).wf(),
    ensures
        final(db).wf(),
        final(db).stored() == old(db).stored(),
        final(db)@ == linked(old(db)@, source@, target@, degree, now@),
        r == linkable(old(db)@, source@, target@),
{
    let ghost t0 = db@;
    let source_id: i64 = match db.insert_user(source) {
        Ok(id) => id,
        Err(_) => {
            return false;
        },
    };
    let ghost t1 = db@;
    let target_id: i64 = match db.insert_user(target) {
        Ok(id) => id,
        Err(_) => {
            return false;
        },
    };
    let ghost t2 = db@;
    proof {
        db.law_invariant();
        assert(t2.valid());
    }
    assert(t2.id_of(source@) == source_id && has_login(t2.users, source@)) by {
        lemma_user_stays(t1, target@, source@);
    }
    proof {
        lemma_id_is_known(t2, source@);
        lemma_id_is_known(t2, target@);
    }
    let edge = NewEdge {
        from_user_id: source_id,
        to_user_id: target_id,
        edge_type: "follows".to_owned(),
        weight_bits: WEIGHT_ONE,
        degree,
        metadata: None,
    };
    assert(edge.seen(now@) == follow_edge(source_id, target_id, degree, now@));
    match db.insert_edge(&edge, now) {
        Ok(_) => true,
        Err(_) => false,
    }
}

/// A known user keeps the id when another is made known.
proof fn lemma_user_stays(t: Tables, login: Seq<char>, known: Seq<char>)
    requires
        t.insert_user(login).valid(),
        has_login(t.users, known),
    ensures
        has_login(t.insert_user(login).users, known),
        t.insert_user(login).id_of(known) == t.id_of(known),
{
    let t1 = t.insert_user(login);
    let p = place_of_login(t.users, known);
    assert(0 <= p < t.users.len() && t.users[p].login == known);
    assert(t1.users[p] == t.users[p]);
    lemma_place_of_login(t1.users, p);
}

/// The id of a known login is known.
proof fn lemma_id_is_known(t: Tables, login: Seq<char>)
    requires
        has_login(t.users, login),
    ensures
        has_id(t.users, t.id_of(login)),
{
    let p = place_of_login(t.users, login);
    assert(0 <= p < t.users.len() && t.users[p].login == login);
    assert(t.users[p].id == t.id_of(login));
}

/// What is the same for everything that a crawl stores.
pub struct CrawlTerms<'a> {
    pub crawler_name: &'a str,
    /// The user that is crawled.
    pub scope: &'a str,
    /// The degree of the discovered users.
    pub degree: i32,
    /// Their priority in the queue.
    pub priority: &'a str,
    pub now: &'a str,
}

impl<'a> View for CrawlTerms<'a> {
    type V = Terms;

    open spec fn view(&self) -> Terms {
        Terms {
            crawler: self.crawler_name@,
            scope: self.scope@,
            degree: self.degree,
            priority: self.priority@,
            now: self.now@,
        }
    }
}

/// What a crawl left behind.
#[derive(Debug, Clone)]
pub struct Persisted {
    /// How many connections were stored or were there already.
    pub connections: usize,
    /// The logins that entered the queue.
    pub newly_queued: Vec<String>,
    /// Something could not be stored.
    pub broken: bool,
}

/// Takes in a discovered user.
fn absorb(db: &mut Db, terms: &CrawlTerms, out: bool, login: &str, so_far: &mut Persisted)
    requires
        old(db).wf(),
        old(so_far).connections < usize::MAX,
    ensures
        final(db).wf(),
        final(db).stored() == old(db).stored(),
        progress(final(db)@, *final(so_far)) == absorbed(
            progress(old(db)@, *old(so_far)),
            terms@,
            out,
            login@,
        ),
        final(so_far).connections <= old(so_far).connections + 1,
{
    let ghost q0 = views(so_far.newly_queued@);
    let room: bool = if out {
        persist_edge(db, terms.scope, login, terms.degree, terms.now)
    } else {
        persist_edge(db, login, terms.scope, terms.degree, terms.now)
    };
    if !room {
        so_far.broken = true;
        return;
    }
    so_far.connections = so_far.connections + 1;
    if !db.has_crawl_state(terms.crawler_name, login) {
        db.insert_pending_scope(terms.crawler_name, login, terms.degree, terms.priority);
        so_far.newly_queued.push(login.to_owned());
        assert(views(so_far.newly_queued@) =~= q0.push(login@));
    }
}

/// The progress that a database and what is counted beside it stand for.
pub open spec fn progress(t: Tables, p: Persisted) -> Progress {
    Progress {
        tables: t,
        connections: p.connections as nat,
        queued: views(p.newly_queued@),
        broken: p.broken,
    }
}

/// Takes in a list of discovered users.
fn absorb_list(
    db: &mut Db,
    terms: &CrawlTerms,
    out: bool,
    list: &Vec<GithubUserSummary>,
    so_far: &mut Persisted,
)
    requires
        old(db).wf(),
        old(so_far).connections + list@.len() <= usize::MAX,
    ensures
        final(db).wf(),
        final(db).stored() == old(db).stored(),
        progress(final(db)@, *final(so_far)) == absorbed_all(
            progress(old(db)@, *old(so_far)),
            terms@,
            out,
            summary_logins(list@),
        ),
        final(so_far).connections <= old(so_far).connections + list@.len(),
{
    let ghost p0 = progress(db@, *so_far);
    let ghost c0 = so_far.connections as int;
    let ghost logins = summary_logins(list@);
    let mut i: usize = 0;
    assert(logins.take(0) =~= Seq::empty());
    while i < list.len()
        invariant
            db.wf(),
            db.stored() == old(db).stored(),
            i <= list@.len(),
            logins == summary_logins(list@),
            c0 + list@.len() <= usize::MAX,
            so_far.connections <= c0 + i,
            progress(db@, *so_far) == absorbed_all(p0, terms@, out, logins.take(i as int)),
        decreases list@.len() - i,
    {
        assert(logins.take(i + 1).drop_last() =~= logins.take(i as int));
        assert(logins[i as int] == list@[i as int].login@);
        absorb(db, terms, out, list[i].login.as_str(), so_far);
        i = i + 1;
    }
    assert(logins.take(i as int) =~= logins);
}

/// Stores what GitHub listed for a user and marks the user as crawled.
pub fn persist(db: &mut Db, terms: &CrawlTerms, result: &ScopeResult) -> (r: Persisted)
    requires
        old(db).wf(),
        result.following@.len() + result.followers@.len() <= usize::MAX,
    ensures
        final(db).wf(),
        final(db).stored() == old(db).stored(),
        progress(final(db)@, r) == persisted(
            old(db)@,
            terms@,
            summary_logins(result.following@),
            summary_logins(result.followers@),
        ),
{
    let mut r = Persisted { connections: 0, newly_queued: Vec::new(), broken: false };
    assert(views(r.newly_queued@) =~= Seq::empty());
    absorb_list(db, terms, true, &result.following, &mut r);
    absorb_list(db, terms, false, &result.followers, &mut r);
    db.mark_crawl_done(terms.crawler_name, terms.scope, terms.now);
    r
}

// ── What holds of it ────────────────────────────────────────────────────────

/// Users and edges are only added, scopes keep their places and keys, and
/// profiles stay as they are.
pub open spec fn grows(t: Tables, u: Tables) -> bool {
    &&& t.users.len() <= u.users.len()
    &&& forall|i: int| 0 <= i < t.users.len() ==> u.users[i] == #[trigger] t.users[i]
    &&& t.edges.len() <= u.edges.len()
    &&& forall|i: int| 0 <= i < t.edges.len() ==> u.edges[i] == #[trigger] t.edges[i]
    &&& t.scopes.len() <= u.scopes.len()
    &&& forall|i: int|
        0 <= i < t.scopes.len() ==> u.scopes[i].crawler == (#[trigger] t.scopes[i]).crawler
            && u.scopes[i].key == t.scopes[i].key
    &&& t.profiles == u.profiles
}

/// What is known stays known: users with their ids, edges, and keys in the queue.
proof fn lemma_grown(t: Tables, u: Tables)
    requires
        grows(t, u),
        u.valid(),
    ensures
        forall|login: Seq<char>| #[trigger]
            has_login(t.users, login) ==> has_login(u.users, login) && u.id_of(login) == t.id_of(
                login,
            ),
        forall|from: i64, to: i64, kind: Seq<char>| #[trigger]
            has_edge(t.edges, from, to, kind) ==> has_edge(u.edges, from, to, kind),
        forall|crawler: Seq<char>, key: Seq<char>| #[trigger]
            has_scope(t.scopes, crawler, key) ==> has_scope(u.scopes, crawler, key),
{
    assert forall|login: Seq<char>| #[trigger] has_login(t.users, login) implies has_login(
        u.users,
        login,
    ) && u.id_of(login) == t.id_of(login) by {
        let p = place_of_login(t.users, login);
        assert(0 <= p < t.users.len() && t.users[p].login == login);
        assert(u.users[p] == t.users[p]);
        lemma_place_of_login(u.users, p);
    }
    assert forall|from: i64, to: i64, kind: Seq<char>| #[trigger]
        has_edge(t.edges, from, to, kind) implies has_edge(u.edges, from, to, kind) by {
        let i = choose|i: int|
            0 <= i < t.edges.len() && edge_is(#[trigger] t.edges[i], from, to, kind);
        assert(u.edges[i] == t.edges[i]);
    }
    assert forall|crawler: Seq<char>, key: Seq<char>| #[trigger]
        has_scope(t.scopes, crawler, key) implies has_scope(u.scopes, crawler, key) by {
        let i = choose|i: int|
            0 <= i < t.scopes.len() && scope_is(#[trigger] t.scopes[i], crawler, key);
        assert(scope_is(u.scopes[i], crawler, key));
    }
}

proof fn lemma_grows_on(t: Tables, u: Tables, v: Tables)
    requires
        grows(t, u),
        grows(u, v),
    ensures
        grows(t, v),
{
    assert forall|i: int| 0 <= i < t.users.len() implies v.users[i] == #[trigger] t.users[i] by {
        assert(u.users[i] == t.users[i]);
    }
    assert forall|i: int| 0 <= i < t.edges.len() implies v.edges[i] == #[trigger] t.edges[i] by {
        assert(u.edges[i] == t.edges[i]);
    }
    assert forall|i: int| 0 <= i < t.scopes.len() implies v.scopes[i].crawler == (
    #[trigger] t.scopes[i]).crawler && v.scopes[i].key == t.scopes[i].key by {
        assert(u.scopes[i].crawler == t.scopes[i].crawler);
    }
}

pub proof fn lemma_insert_user(t: Tables, login: Seq<char>)
    requires
        t.valid(),
        storable(t, login),
    ensures
        t.insert_user(login).valid(),
        grows(t, t.insert_user(login)),
        has_login(t.insert_user(login).users, login),
{
    if !has_login(t.users, login) {
        let id = t.next_id();
        if has_id(t.users, id) {
            let k = choose|k: int| 0 <= k < t.users.len() && (#[trigger] t.users[k]).id == id;
            lemma_top_id(t.users, k);
        }
        law_accepted_change_keeps_validity(t, ChangeModel::AddUser { id, login });
        assert(t.insert_user(login).users[t.users.len() as int].login == login);
    }
}

proof fn lemma_linked(
    t: Tables,
    source: Seq<char>,
    target: Seq<char>,
    degree: i32,
    now: Seq<char>,
)
    requires
        t.valid(),
    ensures
        linked(t, source, target, degree, now).valid(),
        grows(t, linked(t, source, target, degree, now)),
        linked(t, source, target, degree, now).scopes == t.scopes,
        linkable(t, source, target) ==> ({
            let u = linked(t, source, target, degree, now);
            has_login(u.users, source) && has_login(u.users, target) && has_edge(
                u.edges,
                u.id_of(source),
                u.id_of(target),
                "follows"@,
            )
        }),
{
    if storable(t, source) {
        lemma_insert_user(t, source);
        let t1 = t.insert_user(source);
        if storable(t1, target) {
            lemma_insert_user(t1, target);
            let t2 = t1.insert_user(target);
            lemma_grows_on(t, t1, t2);
            lemma_grown(t1, t2);
            lemma_id_is_known(t2, source);
            lemma_id_is_known(t2, target);
            let e = follow_edge(t2.id_of(source), t2.id_of(target), degree, now);
            let u = t2.insert_edge(e);
            if !has_edge(t2.edges, e.from, e.to, e.kind) {
                law_accepted_change_keeps_validity(t2, ChangeModel::AddEdge { edge: e });
                assert(u.edges[t2.edges.len() as int] == e);
                assert(edge_is(u.edges[t2.edges.len() as int], e.from, e.to, e.kind));
                assert(u.users == t2.users);
                assert(u.valid());
            }
            assert(grows(t2, u));
            lemma_grows_on(t, t2, u);
        }
    }
}

proof fn lemma_absorbed(p: Progress, terms: Terms, out: bool, login: Seq<char>)
    requires
        p.tables.valid(),
    ensures
        ({
            let q = absorbed(p, terms, out, login);
            &&& q.tables.valid()
            &&& grows(p.tables, q.tables)
            &&& p.broken ==> q.broken
            &&& q.connections <= p.connections + 1
            &&& !q.broken ==> q.connections == p.connections + 1
            &&& !q.broken ==> connected_to(q.tables, terms, out, login)
            &&& p.queued.is_prefix_of(q.queued)
        }),
{
    let (source, target) = if out {
        (terms.scope, login)
    } else {
        (login, terms.scope)
    };
    let t = linked(p.tables, source, target, terms.degree, terms.now);
    lemma_linked(p.tables, source, target, terms.degree, terms.now);
    let q = absorbed(p, terms, out, login);
    if linkable(p.tables, source, target) && !has_scope(t.scopes, terms.crawler, login) {
        let u = t.insert_pending_scope(terms.crawler, login, terms.degree, terms.priority);
        let scope = u.scopes[t.scopes.len() as int];
        law_accepted_change_keeps_validity(t, ChangeModel::AddScope { scope });
        assert(scope_is(u.scopes[t.scopes.len() as int], terms.crawler, login));
        lemma_grows_on(p.tables, t, u);
    }
}

/// The users are stored and connected, and the discovered one is in the queue.
pub open spec fn connected_to(t: Tables, terms: Terms, out: bool, login: Seq<char>) -> bool {
    &&& has_login(t.users, terms.scope)
    &&& has_login(t.users, login)
    &&& has_scope(t.scopes, terms.crawler, login)
    &&& if out {
        has_edge(t.edges, t.id_of(terms.scope), t.id_of(login), "follows"@)
    } else {
        has_edge(t.edges, t.id_of(login), t.id_of(terms.scope), "follows"@)
    }
}

proof fn lemma_stays_connected(t: Tables, u: Tables, terms: Terms, out: bool, login: Seq<char>)
    requires
        grows(t, u),
        u.valid(),
        connected_to(t, terms, out, login),
    ensures
        connected_to(u, terms, out, login),
{
    lemma_grown(t, u);
}

proof fn lemma_absorbed_all(p: Progress, terms: Terms, out: bool, logins: Seq<Seq<char>>)
    requires
        p.tables.valid(),
    ensures
        ({
            let q = absorbed_all(p, terms, out, logins);
            &&& q.tables.valid()
            &&& grows(p.tables, q.tables)
            &&& p.broken ==> q.broken
            &&& !q.broken ==> q.connections == p.connections + logins.len()
            &&& !q.broken ==> forall|i: int|
                0 <= i < logins.len() ==> connected_to(q.tables, terms, out, #[trigger] logins[i])
        }),
    decreases logins.len(),
{
    if logins.len() > 0 {
        let rest = logins.drop_last();
        lemma_absorbed_all(p, terms, out, rest);
        let m = absorbed_all(p, terms, out, rest);
        let q = absorbed_all(p, terms, out, logins);
        lemma_absorbed(m, terms, out, logins.last());
        lemma_grows_on(p.tables, m.tables, q.tables);
        if !q.broken {
            assert forall|i: int| 0 <= i < logins.len() implies connected_to(
                q.tables,
                terms,
                out,
                #[trigger] logins[i],
            ) by {
                if i < rest.len() {
                    assert(rest[i] == logins[i]);
                    lemma_stays_connected(m.tables, q.tables, terms, out, rest[i]);
                }
            }
        }
    }
}

proof fn lemma_persisted(
    t: Tables,
    terms: Terms,
    following: Seq<Seq<char>>,
    followers: Seq<Seq<char>>,
)
    requires
        t.valid(),
    ensures
        ({
            let p = persisted(t, terms, following, followers);
            &&& p.tables.valid()
            &&& grows(t, p.tables)
            &&& !p.broken ==> p.connections == following.len() + followers.len()
            &&& !p.broken ==> forall|i: int|
                0 <= i < following.len() ==> connected_to(
                    p.tables,
                    terms,
                    true,
                    #[trigger] following[i],
                )
            &&& !p.broken ==> forall|i: int|
                0 <= i < followers.len() ==> connected_to(
                    p.tables,
                    terms,
                    false,
                    #[trigger] followers[i],
                )
        }),
{
    let p0 = Progress { tables: t, connections: 0, queued: Seq::empty(), broken: false };
    let p1 = absorbed_all(p0, terms, true, following);
    let p2 = absorbed_all(p1, terms, false, followers);
    let p = persisted(t, terms, following, followers);
    lemma_absorbed_all(p0, terms, true, following);
    lemma_absorbed_all(p1, terms, false, followers);
    lemma_turn_valid(p2.tables, terms);
    lemma_grows_on(t, p1.tables, p2.tables);
    lemma_grows_on(p1.tables, p2.tables, p.tables);
    lemma_grows_on(t, p2.tables, p.tables);
    if !p.broken {
        assert forall|i: int| 0 <= i < following.len() implies connected_to(
            p.tables,
            terms,
            true,
            #[trigger] following[i],
        ) by {
            lemma_stays_connected(p1.tables, p.tables, terms, true, following[i]);
        }
        assert forall|i: int| 0 <= i < followers.len() implies connected_to(
            p.tables,
            terms,
            false,
            #[trigger] followers[i],
        ) by {
            lemma_stays_connected(p2.tables, p.tables, terms, false, followers[i]);
        }
    }
}

proof fn lemma_turn_valid(t: Tables, terms: Terms)
    requires
        t.valid(),
    ensures
        ({
            let u = t.turn_scope(
                terms.crawler,
                terms.scope,
                |s: ScopeModel| crawled(s, terms.now),
            );
            u.valid() && grows(t, u)
        }),
{
    let u = t.turn_scope(terms.crawler, terms.scope, |s: ScopeModel| crawled(s, terms.now));
    assert forall|a: int, b: int| 0 <= a < b < u.scopes.len() implies !scope_is(
        #[trigger] u.scopes[b],
        (#[trigger] u.scopes[a]).crawler,
        u.scopes[a].key,
    ) by {
        assert(!scope_is(t.scopes[b], t.scopes[a].crawler, t.scopes[a].key));
    }
}

/// Nothing that GitHub listed is lost: unless the ids ran out, after a crawl every
/// listed user is stored and connected with the crawled one in the right
/// direction, is known to the queue, and counts as one connection.
pub proof fn law_crawl_records_everything(
    t: Tables,
    terms: Terms,
    following: Seq<Seq<char>>,
    followers: Seq<Seq<char>>,
)
    requires
        t.valid(),
        !persisted(t, terms, following, followers).broken,
    ensures
        ({
            let p = persisted(t, terms, following, followers);
            &&& p.connections == following.len() + followers.len()
            &&& forall|i: int|
                0 <= i < following.len() ==> connected_to(
                    p.tables,
                    terms,
                    true,
                    #[trigger] following[i],
                )
            &&& forall|i: int|
                0 <= i < followers.len() ==> connected_to(
                    p.tables,
                    terms,
                    false,
                    #[trigger] followers[i],
                )
        }),
{
    lemma_persisted(t, terms, following, followers);
}

/// A crawl only adds: the tables stay valid, no user or edge is changed or lost,
/// and no profile is touched.
pub proof fn law_crawl_only_adds(
    t: Tables,
    terms: Terms,
    following: Seq<Seq<char>>,
    followers: Seq<Seq<char>>,
)
    requires
        t.valid(),
    ensures
        persisted(t, terms, following, followers).tables.valid(),
        grows(t, persisted(t, terms, following, followers).tables),
{
    lemma_persisted(t, terms, following, followers);
}

/// After a crawl the scope is done.
pub proof fn law_crawl_is_done(
    t: Tables,
    terms: Terms,
    following: Seq<Seq<char>>,
    followers: Seq<Seq<char>>,
    i: int,
)
    requires
        t.valid(),
        0 <= i < t.scopes.len(),
        scope_is(t.scopes[i], terms.crawler, terms.scope),
    ensures
        persisted(t, terms, following, followers).tables.scopes[i].status == "done"@,
        persisted(t, terms, following, followers).tables.scopes[i].crawled_at == Some(terms.now),
{
    let p0 = Progress { tables: t, connections: 0, queued: Seq::empty(), broken: false };
    let p1 = absorbed_all(p0, terms, true, following);
    let p2 = absorbed_all(p1, terms, false, followers);
    lemma_absorbed_all(p0, terms, true, following);
    lemma_absorbed_all(p1, terms, false, followers);
    lemma_grows_on(t, p1.tables, p2.tables);
    assert(p2.tables.scopes[i].crawler == t.scopes[i].crawler);
    assert(scope_is(p2.tables.scopes[i], terms.crawler, terms.scope));
}

/// A user that was not known to the queue enters it with the degree and the
/// priority of the crawl, waiting and without failures.
pub proof fn law_discovered_scope_inherits(p: Progress, terms: Terms, out: bool, login: Seq<char>)
    requires
        p.tables.valid(),
        !has_scope(p.tables.scopes, terms.crawler, login),
        !p.broken,
        !absorbed(p, terms, out, login).broken,
    ensures
        absorbed(p, terms, out, login).queued == p.queued.push(login),
        absorbed(p, terms, out, login).tables.scopes == p.tables.scopes.push(
            ScopeModel {
                crawler: terms.crawler,
                key: login,
                status: "pending"@,
                priority: terms.priority,
                degree: terms.degree,
                error_count: 0,
                last_error: None,
                crawled_at: None,
            },
        ),
{
    let (source, target) = if out {
        (terms.scope, login)
    } else {
        (login, terms.scope)
    };
    lemma_linked(p.tables, source, target, terms.degree, terms.now);
}

// ── What a crawl leaves in the rows ─────────────────────────────────────────

/// A row of the table of users has this login and this id.
pub open spec fn named(users: Seq<UserRowModel>, login: Seq<char>, id: i64) -> bool {
    exists|i: int|
        0 <= i < users.len() && (#[trigger] users[i]).login == login && users[i].id == id
}

/// Above every id there are `n` more.
pub open spec fn ids_left(users: Seq<UserRowModel>, n: int) -> bool {
    n <= i64::MAX && forall|i: int|
        0 <= i < users.len() ==> (#[trigger] users[i]).id + n <= i64::MAX
}

/// An edge says that the first user follows the second.
pub open spec fn records(t: Tables, source: Seq<char>, target: Seq<char>) -> bool {
    exists|k: int|
        0 <= k < t.edges.len() && (#[trigger] t.edges[k]).kind == "follows"@ && named(
            t.users,
            source,
            t.edges[k].from,
        ) && named(t.users, target, t.edges[k].to)
}

/// An edge that a crawl has found: active, of the type `follows`, of weight one, with
/// the degree and the time of the crawl, and from the crawled user to one of `outs` or
/// from one of `ins` to the crawled user.
pub open spec fn is_found_edge(
    users: Seq<UserRowModel>,
    terms: Terms,
    outs: Seq<Seq<char>>,
    ins: Seq<Seq<char>>,
    e: EdgeModel,
) -> bool {
    &&& e.kind == "follows"@
    &&& e.weight_bits == 0x3ff0_0000_0000_0000u64
    &&& e.degree == terms.degree
    &&& e.metadata is None
    &&& e.is_active
    &&& e.first_seen_at == Some(terms.now)
    &&& e.last_seen_at == Some(terms.now)
    &&& e.removed_at is None
    &&& (named(users, terms.scope, e.from) && exists|i: int|
        0 <= i < outs.len() && named(users, #[trigger] outs[i], e.to)) || (named(
        users,
        terms.scope,
        e.to,
    ) && exists|i: int| 0 <= i < ins.len() && named(users, #[trigger] ins[i], e.from))
}

/// Between the two tables nothing was added but what these lists hold, and the queue
/// knows each addition to it.
pub open spec fn took_in(
    t: Tables,
    p: Progress,
    terms: Terms,
    outs: Seq<Seq<char>>,
    ins: Seq<Seq<char>>,
) -> bool {
    let u = p.tables;
    &&& t.users.len() <= u.users.len()
    &&& forall|k: int| 0 <= k < t.users.len() ==> #[trigger] u.users[k] == t.users[k]
    &&& forall|k: int|
        t.users.len() <= k < u.users.len() ==> (#[trigger] u.users[k]).login == terms.scope
            || outs.contains(u.users[k].login) || ins.contains(u.users[k].login)
    &&& t.edges.len() <= u.edges.len()
    &&& forall|k: int| 0 <= k < t.edges.len() ==> #[trigger] u.edges[k] == t.edges[k]
    &&& forall|k: int|
        t.edges.len() <= k < u.edges.len() ==> is_found_edge(
            u.users,
            terms,
            outs,
            ins,
            #[trigger] u.edges[k],
        )
    &&& u.scopes.len() == t.scopes.len() + p.queued.len()
    &&& forall|k: int| 0 <= k < t.scopes.len() ==> #[trigger] u.scopes[k] == t.scopes[k]
    &&& forall|k: int|
        0 <= k < p.queued.len() ==> (outs.contains(#[trigger] p.queued[k]) || ins.contains(
            p.queued[k],
        )) && u.scopes[t.scopes.len() + k] == (ScopeModel {
            crawler: terms.crawler,
            key: p.queued[k],
            status: "pending"@,
            priority: terms.priority,
            degree: terms.degree,
            error_count: 0,
            last_error: None,
            crawled_at: None,
        })
    &&& u.history.len() - t.history.len() == u.edges.len() - t.edges.len()
    &&& u.profiles == t.profiles
    &&& u.config == t.config
}

/// The largest id is that of a row.
pub proof fn lemma_top_is_a_row(users: Seq<UserRowModel>) -> (i: int)
    requires
        users.len() > 0,
    ensures
        0 <= i < users.len(),
        users[i].id == top_id(users),
    decreases users.len(),
{
    if users.len() == 1 {
        0
    } else {
        let k = lemma_top_is_a_row(users.drop_last());
        assert(users.drop_last()[k] == users[k]);
        if users.last().id >= top_id(users.drop_last()) {
            users.len() - 1
        } else {
            k
        }
    }
}

proof fn lemma_insert_room(t: Tables, login: Seq<char>, n: int)
    requires
        ids_left(t.users, n),
        n >= 0,
        has_login(t.users, login) || n >= 1,
    ensures
        storable(t, login),
        has_login(t.users, login) ==> ids_left(t.insert_user(login).users, n),
        ids_left(t.insert_user(login).users, n - 1),
        has_login(t.insert_user(login).users, login),
        forall|l: Seq<char>| #[trigger]
            has_login(t.users, l) ==> has_login(t.insert_user(login).users, l),
{
    let u = t.insert_user(login);
    if !has_login(t.users, login) {
        if t.users.len() > 0 {
            let k = lemma_top_is_a_row(t.users);
            assert(t.users[k].id + n <= i64::MAX);
        }
        assert(u.users[t.users.len() as int].login == login);
        assert forall|i: int| 0 <= i < u.users.len() implies (#[trigger] u.users[i]).id + (n - 1)
            <= i64::MAX by {
            if i < t.users.len() {
                assert(u.users[i] == t.users[i]);
            }
        }
        assert forall|l: Seq<char>| #[trigger] has_login(t.users, l) implies has_login(
            u.users,
            l,
        ) by {
            let i = choose|i: int| 0 <= i < t.users.len() && (#[trigger] t.users[i]).login == l;
            assert(u.users[i] == t.users[i]);
        }
    }
}

/// How many ids the crawled user still takes.
spec fn own(users: Seq<UserRowModel>, terms: Terms) -> int {
    if has_login(users, terms.scope) {
        0
    } else {
        1
    }
}

proof fn lemma_absorbed_room(p: Progress, terms: Terms, out: bool, login: Seq<char>, n: int)
    requires
        !p.broken,
        n >= 1,
        ids_left(p.tables.users, n + own(p.tables.users, terms)),
    ensures
        ({
            let q = absorbed(p, terms, out, login);
            &&& !q.broken
            &&& ids_left(q.tables.users, n - 1 + own(q.tables.users, terms))
        }),
{
    let (source, target) = if out {
        (terms.scope, login)
    } else {
        (login, terms.scope)
    };
    let t = p.tables;
    let t1 = t.insert_user(source);
    lemma_insert_room(t, source, n + own(t.users, terms));
    let left = if has_login(t.users, source) {
        n + own(t.users, terms)
    } else {
        n + own(t.users, terms) - 1
    };
    lemma_insert_room(t1, target, left);
}

proof fn lemma_absorbed_all_room(
    p: Progress,
    terms: Terms,
    out: bool,
    logins: Seq<Seq<char>>,
    n: int,
)
    requires
        !p.broken,
        n >= 0,
        ids_left(p.tables.users, logins.len() + n + own(p.tables.users, terms)),
    ensures
        ({
            let q = absorbed_all(p, terms, out, logins);
            &&& !q.broken
            &&& ids_left(q.tables.users, n + own(q.tables.users, terms))
        }),
    decreases logins.len(),
{
    if logins.len() > 0 {
        let rest = logins.drop_last();
        lemma_absorbed_all_room(p, terms, out, rest, n + 1);
        lemma_absorbed_room(
            absorbed_all(p, terms, out, rest),
            terms,
            out,
            logins.last(),
            n + 1,
        );
    }
}

proof fn lemma_named_stays(t: Seq<UserRowModel>, u: Seq<UserRowModel>, login: Seq<char>, id: i64)
    requires
        t.len() <= u.len(),
        forall|k: int| 0 <= k < t.len() ==> #[trigger] u[k] == t[k],
        named(t, login, id),
    ensures
        named(u, login, id),
{
    let i = choose|i: int| 0 <= i < t.len() && (#[trigger] t[i]).login == login && t[i].id == id;
    assert(u[i] == t[i]);
}

proof fn lemma_found_edge_stays(
    t: Seq<UserRowModel>,
    u: Seq<UserRowModel>,
    terms: Terms,
    outs: Seq<Seq<char>>,
    ins: Seq<Seq<char>>,
    outs2: Seq<Seq<char>>,
    ins2: Seq<Seq<char>>,
    e: EdgeModel,
)
    requires
        t.len() <= u.len(),
        forall|k: int| 0 <= k < t.len() ==> #[trigger] u[k] == t[k],
        outs.len() <= outs2.len(),
        forall|k: int| 0 <= k < outs.len() ==> #[trigger] outs2[k] == outs[k],
        ins.len() <= ins2.len(),
        forall|k: int| 0 <= k < ins.len() ==> #[trigger] ins2[k] == ins[k],
        is_found_edge(t, terms, outs, ins, e),
    ensures
        is_found_edge(u, terms, outs2, ins2, e),
{
    if named(t, terms.scope, e.from) && exists|i: int|
        0 <= i < outs.len() && named(t, #[trigger] outs[i], e.to) {
        let i = choose|i: int| 0 <= i < outs.len() && named(t, #[trigger] outs[i], e.to);
        lemma_named_stays(t, u, terms.scope, e.from);
        lemma_named_stays(t, u, outs[i], e.to);
        assert(named(u, outs2[i], e.to));
    } else {
        let i = choose|i: int| 0 <= i < ins.len() && named(t, #[trigger] ins[i], e.from);
        lemma_named_stays(t, u, terms.scope, e.to);
        lemma_named_stays(t, u, ins[i], e.from);
        assert(named(u, ins2[i], e.from));
    }
}

proof fn lemma_id_is_named(t: Tables, login: Seq<char>)
    requires
        has_login(t.users, login),
    ensures
        named(t.users, login, t.id_of(login)),
{
    let p = place_of_login(t.users, login);
    assert(0 <= p < t.users.len() && t.users[p].login == login);
}

#[verifier::rlimit(60)]
proof fn lemma_absorbed_took_in(
    t: Tables,
    p: Progress,
    terms: Terms,
    out: bool,
    login: Seq<char>,
    outs: Seq<Seq<char>>,
    ins: Seq<Seq<char>>,
)
    requires
        took_in(t, p, terms, outs, ins),
        !absorbed(p, terms, out, login).broken,
    ensures
        took_in(
            t,
            absorbed(p, terms, out, login),
            terms,
            if out {
                outs.push(login)
            } else {
                outs
            },
            if out {
                ins
            } else {
                ins.push(login)
            },
        ),
{
    let (source, target) = if out {
        (terms.scope, login)
    } else {
        (login, terms.scope)
    };
    let outs2 = if out {
        outs.push(login)
    } else {
        outs
    };
    let ins2 = if out {
        ins
    } else {
        ins.push(login)
    };
    let v = p.tables;
    let t1 = v.insert_user(source);
    let t2 = t1.insert_user(target);
    let q = absorbed(p, terms, out, login);
    let u = q.tables;
    assert(u.users == t2.users);
    assert(has_login(t1.users, source)) by {
        if !has_login(v.users, source) {
            assert(t1.users[v.users.len() as int].login == source);
        }
    }
    assert(has_login(t2.users, source)) by {
        let i = choose|i: int| 0 <= i < t1.users.len() && (#[trigger] t1.users[i]).login == source;
        assert(t2.users[i] == t1.users[i]);
    }
    assert(has_login(t2.users, target)) by {
        if !has_login(t1.users, target) {
            assert(t2.users[t1.users.len() as int].login == target);
        }
    }
    lemma_id_is_named(t2, source);
    lemma_id_is_named(t2, target);
    if out {
        assert(outs2[outs.len() as int] == login);
    } else {
        assert(ins2[ins.len() as int] == login);
    }
    assert forall|l: Seq<char>| outs.contains(l) implies #[trigger] outs2.contains(l) by {
        let i = choose|i: int| 0 <= i < outs.len() && outs[i] == l;
        assert(outs2[i] == l);
    }
    assert forall|l: Seq<char>| ins.contains(l) implies #[trigger] ins2.contains(l) by {
        let i = choose|i: int| 0 <= i < ins.len() && ins[i] == l;
        assert(ins2[i] == l);
    }
    assert(outs2.contains(login) || ins2.contains(login));
    assert forall|k: int| t.users.len() <= k < u.users.len() implies (
    #[trigger] u.users[k]).login == terms.scope || outs2.contains(u.users[k].login)
        || ins2.contains(u.users[k].login) by {
        if k < v.users.len() {
            assert(u.users[k] == v.users[k]);
        } else {
            assert(u.users[k].login == source || u.users[k].login == target);
        }
    }
    let e = follow_edge(t2.id_of(source), t2.id_of(target), terms.degree, terms.now);
    assert(is_found_edge(u.users, terms, outs2, ins2, e)) by {
        if out {
            assert(named(u.users, outs2[outs.len() as int], e.to));
        } else {
            assert(named(u.users, ins2[ins.len() as int], e.from));
        }
    }
    assert forall|k: int| t.edges.len() <= k < u.edges.len() implies is_found_edge(
        u.users,
        terms,
        outs2,
        ins2,
        #[trigger] u.edges[k],
    ) by {
        if k < v.edges.len() {
            assert(u.edges[k] == v.edges[k]);
            lemma_found_edge_stays(v.users, u.users, terms, outs, ins, outs2, ins2, v.edges[k]);
        } else {
            assert(u.edges[k] == e);
        }
    }
    assert forall|k: int| 0 <= k < q.queued.len() implies (outs2.contains(#[trigger] q.queued[k])
        || ins2.contains(q.queued[k])) && u.scopes[t.scopes.len() + k] == (ScopeModel {
        crawler: terms.crawler,
        key: q.queued[k],
        status: "pending"@,
        priority: terms.priority,
        degree: terms.degree,
        error_count: 0,
        last_error: None,
        crawled_at: None,
    }) by {
        if k < p.queued.len() {
            assert(q.queued[k] == p.queued[k]);
        }
    }
}

proof fn lemma_absorbed_all_took_in(
    t: Tables,
    p: Progress,
    terms: Terms,
    out: bool,
    logins: Seq<Seq<char>>,
    outs: Seq<Seq<char>>,
    ins: Seq<Seq<char>>,
)
    requires
        p.tables.valid(),
        took_in(t, p, terms, outs, ins),
        !absorbed_all(p, terms, out, logins).broken,
    ensures
        took_in(
            t,
            absorbed_all(p, terms, out, logins),
            terms,
            if out {
                outs + logins
            } else {
                outs
            },
            if out {
                ins
            } else {
                ins + logins
            },
        ),
    decreases logins.len(),
{
    if logins.len() > 0 {
        let rest = logins.drop_last();
        let m = absorbed_all(p, terms, out, rest);
        lemma_absorbed_all(p, terms, out, rest);
        lemma_absorbed(m, terms, out, logins.last());
        lemma_absorbed_all_took_in(t, p, terms, out, rest, outs, ins);
        if out {
            lemma_absorbed_took_in(t, m, terms, out, logins.last(), outs + rest, ins);
            assert((outs + rest).push(logins.last()) =~= outs + logins);
        } else {
            lemma_absorbed_took_in(t, m, terms, out, logins.last(), outs, ins + rest);
            assert((ins + rest).push(logins.last()) =~= ins + logins);
        }
    } else {
        assert(outs + logins =~= outs);
        assert(ins + logins =~= ins);
    }
}

/// A crawl breaks off only where the ids run out: while there is an id left for each
/// listed user and for the crawled one, however long the lists are, everything that
/// they hold is recorded. Whom the user follows is connected from the user and who
/// follows the user to the user, each of them waits in the queue or stands there
/// already, and each counts as one connection.
pub proof fn law_crawl_breaks_only_where_ids_run_out(
    t: Tables,
    terms: Terms,
    following: Seq<Seq<char>>,
    followers: Seq<Seq<char>>,
)
    requires
        t.valid(),
        following.len() + followers.len() + 1 <= i64::MAX,
        forall|i: int|
            0 <= i < t.users.len() ==> (#[trigger] t.users[i]).id + following.len()
                + followers.len() + 1 <= i64::MAX,
    ensures
        ({
            let p = persisted(t, terms, following, followers);
            let u = p.tables;
            &&& !p.broken
            &&& p.connections == following.len() + followers.len()
            &&& forall|i: int|
                0 <= i < following.len() ==> records(u, terms.scope, #[trigger] following[i])
            &&& forall|i: int|
                0 <= i < followers.len() ==> records(u, #[trigger] followers[i], terms.scope)
            &&& forall|i: int|
                0 <= i < following.len() ==> stands(u.scopes, terms.crawler, #[trigger] following[i])
            &&& forall|i: int|
                0 <= i < followers.len() ==> stands(u.scopes, terms.crawler, #[trigger] followers[i])
        }),
{
    let p0 = Progress { tables: t, connections: 0, queued: Seq::empty(), broken: false };
    let n = followers.len() as int;
    assert(ids_left(t.users, following.len() + n + own(t.users, terms)));
    lemma_absorbed_all_room(p0, terms, true, following, n);
    let p1 = absorbed_all(p0, terms, true, following);
    lemma_absorbed_all_room(p1, terms, false, followers, 0);
    lemma_persisted(t, terms, following, followers);
    let u = persisted(t, terms, following, followers).tables;
    assert forall|i: int| 0 <= i < following.len() implies records(
        u,
        terms.scope,
        #[trigger] following[i],
    ) && stands(u.scopes, terms.crawler, following[i]) by {
        assert(connected_to(u, terms, true, following[i]));
        lemma_id_is_named(u, terms.scope);
        lemma_id_is_named(u, following[i]);
    }
    assert forall|i: int| 0 <= i < followers.len() implies records(
        u,
        #[trigger] followers[i],
        terms.scope,
    ) && stands(u.scopes, terms.crawler, followers[i]) by {
        assert(connected_to(u, terms, false, followers[i]));
        lemma_id_is_named(u, terms.scope);
        lemma_id_is_named(u, followers[i]);
    }
}

/// What a crawl could not store it tells: where it did not break off, every listed user is
/// connected with the crawled one in the right direction and known to the queue.
pub proof fn law_unbroken_crawl_has_stored_everything(
    t: Tables,
    terms: Terms,
    following: Seq<Seq<char>>,
    followers: Seq<Seq<char>>,
)
    requires
        t.valid(),
        !persisted(t, terms, following, followers).broken,
    ensures
        ({
            let p = persisted(t, terms, following, followers);
            let u = p.tables;
            &&& p.connections == following.len() + followers.len()
            &&& forall|i: int|
                0 <= i < following.len() ==> records(u, terms.scope, #[trigger] following[i])
                    && stands(u.scopes, terms.crawler, following[i])
            &&& forall|i: int|
                0 <= i < followers.len() ==> records(u, #[trigger] followers[i], terms.scope)
                    && stands(u.scopes, terms.crawler, followers[i])
        }),
{
    lemma_persisted(t, terms, following, followers);
    let u = persisted(t, terms, following, followers).tables;
    assert forall|i: int| 0 <= i < following.len() implies records(
        u,
        terms.scope,
        #[trigger] following[i],
    ) && stands(u.scopes, terms.crawler, following[i]) by {
        assert(connected_to(u, terms, true, following[i]));
        lemma_id_is_named(u, terms.scope);
        lemma_id_is_named(u, following[i]);
    }
    assert forall|i: int| 0 <= i < followers.len() implies records(
        u,
        #[trigger] followers[i],
        terms.scope,
    ) && stands(u.scopes, terms.crawler, followers[i]) by {
        assert(connected_to(u, terms, false, followers[i]));
        lemma_id_is_named(u, terms.scope);
        lemma_id_is_named(u, followers[i]);
    }
}

/// A crawl takes the lists in their order, first whom the user follows and then who
/// follows the user: one more at the end of what is listed leaves what the others have
/// left and adds to it, in the table of users, among the edges and to the queue, to which
/// it is added where it was not known there.
pub proof fn law_crawl_takes_the_lists_in_order(
    t: Tables,
    terms: Terms,
    following: Seq<Seq<char>>,
    followers: Seq<Seq<char>>,
    x: Seq<char>,
)
    requires
        t.valid(),
        !persisted(t, terms, following, followers.push(x)).broken,
        !persisted(t, terms, following.push(x), Seq::empty()).broken,
    ensures
        goes_on(
            terms,
            x,
            persisted(t, terms, following, followers),
            persisted(t, terms, following, followers.push(x)),
        ),
        goes_on(
            terms,
            x,
            persisted(t, terms, following, Seq::empty()),
            persisted(t, terms, following.push(x), Seq::empty()),
        ),
{
    let none = Seq::<Seq<char>>::empty();
    let p0 = Progress { tables: t, connections: 0, queued: Seq::empty(), broken: false };
    let p1 = absorbed_all(p0, terms, true, following);
    let p2 = absorbed_all(p1, terms, false, followers);
    lemma_absorbed_all(p0, terms, true, following);
    lemma_absorbed_all(p1, terms, false, followers);
    assert(followers.push(x).drop_last() =~= followers);
    assert(following.push(x).drop_last() =~= following);
    let q2 = absorbed(p2, terms, false, x);
    assert(absorbed_all(p1, terms, false, followers.push(x)) == q2);
    lemma_goes_on(p2, terms, false, x);
    let q1 = absorbed(p1, terms, true, x);
    assert(absorbed_all(p0, terms, true, following.push(x)) == q1);
    assert(absorbed_all(p1, terms, false, none) == p1);
    assert(absorbed_all(q1, terms, false, none) == q1);
    lemma_goes_on(p1, terms, true, x);
}

/// The second crawl has gone on from the first one by one more user.
pub open spec fn goes_on(terms: Terms, x: Seq<char>, p: Progress, q: Progress) -> bool {
    let (t, u) = (p.tables, q.tables);
    &&& q.connections == p.connections + 1
    &&& t.users.len() <= u.users.len() && u.users.take(t.users.len() as int) == t.users
    &&& t.edges.len() <= u.edges.len() <= t.edges.len() + 1
    &&& u.edges.take(t.edges.len() as int) == t.edges
    &&& stands(t.scopes, terms.crawler, x) ==> q.queued == p.queued
    &&& !stands(t.scopes, terms.crawler, x) ==> q.queued == p.queued.push(x)
}

proof fn lemma_goes_on(p: Progress, terms: Terms, out: bool, x: Seq<char>)
    requires
        p.tables.valid(),
        !absorbed(p, terms, out, x).broken,
    ensures
        ({
            let q = absorbed(p, terms, out, x);
            let f = |s: ScopeModel| crawled(s, terms.now);
            goes_on(
                terms,
                x,
                Progress { tables: p.tables.turn_scope(terms.crawler, terms.scope, f), ..p },
                Progress { tables: q.tables.turn_scope(terms.crawler, terms.scope, f), ..q },
            )
        }),
{
    let q = absorbed(p, terms, out, x);
    let f = |s: ScopeModel| crawled(s, terms.now);
    lemma_absorbed(p, terms, out, x);
    let (t, u) = (p.tables, q.tables);
    let (source, target) = if out {
        (terms.scope, x)
    } else {
        (x, terms.scope)
    };
    lemma_linked(t, source, target, terms.degree, terms.now);
    assert(u.users.take(t.users.len() as int) =~= t.users);
    assert(u.edges.take(t.edges.len() as int) =~= t.edges);
    let v = t.turn_scope(terms.crawler, terms.scope, f);
    if has_scope(t.scopes, terms.crawler, x) {
        let i = choose|i: int|
            0 <= i < t.scopes.len() && scope_is(#[trigger] t.scopes[i], terms.crawler, x);
        assert(v.scopes[i].crawler == terms.crawler && v.scopes[i].key == x);
    }
    if stands(v.scopes, terms.crawler, x) {
        let i = choose|i: int|
            0 <= i < v.scopes.len() && (#[trigger] v.scopes[i]).crawler == terms.crawler
                && v.scopes[i].key == x;
        assert(scope_is(t.scopes[i], terms.crawler, x));
    }
}

/// The queue of the crawler has a row for the key.
pub open spec fn stands(scopes: Seq<ScopeModel>, crawler: Seq<char>, key: Seq<char>) -> bool {
    exists|i: int|
        0 <= i < scopes.len() && (#[trigger] scopes[i]).crawler == crawler && scopes[i].key == key
}

proof fn lemma_persisted_took_in(
    t: Tables,
    terms: Terms,
    following: Seq<Seq<char>>,
    followers: Seq<Seq<char>>,
) -> (q: Progress)
    requires
        t.valid(),
        !persisted(t, terms, following, followers).broken,
    ensures
        took_in(t, q, terms, following, followers),
        persisted(t, terms, following, followers).queued == q.queued,
        persisted(t, terms, following, followers).tables == q.tables.turn_scope(
            terms.crawler,
            terms.scope,
            |s: ScopeModel| crawled(s, terms.now),
        ),
{
    let p0 = Progress { tables: t, connections: 0, queued: Seq::empty(), broken: false };
    let p1 = absorbed_all(p0, terms, true, following);
    let none = Seq::<Seq<char>>::empty();
    lemma_absorbed_all(p0, terms, true, following);
    lemma_absorbed_all(p1, terms, false, followers);
    assert(!p1.broken);
    lemma_absorbed_all_took_in(t, p0, terms, true, following, none, none);
    assert(none + following =~= following);
    lemma_absorbed_all_took_in(t, p1, terms, false, followers, following, none);
    assert(none + followers =~= followers);
    absorbed_all(p1, terms, false, followers)
}

/// A crawl that does not break off adds no user and no edge that was not listed: what was
/// there stays, a new user is the crawled one or a listed one, and a new edge is one of
/// those found, each with one entry in the log.
pub proof fn law_crawl_adds_only_what_was_listed(
    t: Tables,
    terms: Terms,
    following: Seq<Seq<char>>,
    followers: Seq<Seq<char>>,
    k: int,
)
    requires
        t.valid(),
        !persisted(t, terms, following, followers).broken,
    ensures
        ({
            let u = persisted(t, terms, following, followers).tables;
            &&& t.users.len() <= u.users.len()
            &&& 0 <= k < t.users.len() ==> u.users[k] == t.users[k]
            &&& t.users.len() <= k < u.users.len() ==> u.users[k].login == terms.scope
                || following.contains(u.users[k].login) || followers.contains(u.users[k].login)
            &&& t.edges.len() <= u.edges.len()
            &&& 0 <= k < t.edges.len() ==> u.edges[k] == t.edges[k]
            &&& t.edges.len() <= k < u.edges.len() ==> is_found_edge(
                u.users,
                terms,
                following,
                followers,
                u.edges[k],
            )
            &&& u.history.len() - t.history.len() == u.edges.len() - t.edges.len()
            &&& u.profiles == t.profiles
            &&& u.config == t.config
        }),
{
    let q = lemma_persisted_took_in(t, terms, following, followers);
    assert(persisted(t, terms, following, followers).tables.users == q.tables.users);
    assert(persisted(t, terms, following, followers).tables.edges == q.tables.edges);
}

/// A crawl that does not break off queues only listed users, each at the end of the queue
/// and waiting, with the degree and the priority of the crawl. The scopes of the crawled
/// user are done, and nothing becomes of the other ones.
pub proof fn law_crawl_queues_only_listed_users(
    t: Tables,
    terms: Terms,
    following: Seq<Seq<char>>,
    followers: Seq<Seq<char>>,
    k: int,
)
    requires
        t.valid(),
        !persisted(t, terms, following, followers).broken,
    ensures
        ({
            let p = persisted(t, terms, following, followers);
            let u = p.tables;
            let n = t.scopes.len();
            &&& u.scopes.len() == n + p.queued.len()
            &&& 0 <= k < n && t.scopes[k].crawler == terms.crawler && t.scopes[k].key == terms.scope
                ==> u.scopes[k] == (ScopeModel {
                status: "done"@,
                crawled_at: Some(terms.now),
                ..t.scopes[k]
            })
            &&& 0 <= k < n && (t.scopes[k].crawler != terms.crawler || t.scopes[k].key
                != terms.scope) ==> u.scopes[k] == t.scopes[k]
            &&& 0 <= k < p.queued.len() ==> following.contains(p.queued[k]) || followers.contains(
                p.queued[k],
            )
            &&& 0 <= k < p.queued.len() && p.queued[k] != terms.scope ==> u.scopes[n + k] == (
            ScopeModel {
                crawler: terms.crawler,
                key: p.queued[k],
                status: "pending"@,
                priority: terms.priority,
                degree: terms.degree,
                error_count: 0,
                last_error: None,
                crawled_at: None,
            })
            &&& 0 <= k < p.queued.len() && p.queued[k] == terms.scope ==> u.scopes[n + k] == (
            ScopeModel {
                crawler: terms.crawler,
                key: terms.scope,
                status: "done"@,
                priority: terms.priority,
                degree: terms.degree,
                error_count: 0,
                last_error: None,
                crawled_at: Some(terms.now),
            })
        }),
{
    let q = lemma_persisted_took_in(t, terms, following, followers);
    let v = q.tables;
    if 0 <= k < t.scopes.len() {
        assert(v.scopes[k] == t.scopes[k]);
    }
    if 0 <= k < q.queued.len() {
        let name = q.queued[k];
        assert(v.scopes[t.scopes.len() + k].key == name);
    }
}

// ── Whom one user follows ───────────────────────────────────────────────────

/// What is left behind once the followed users are taken in, up to the first that
/// cannot be stored.
pub open spec fn absorbed_until(p: Progress, terms: Terms, logins: Seq<Seq<char>>) -> Progress
    decreases logins.len(),
{
    if logins.len() == 0 {
        p
    } else {
        let q = absorbed_until(p, terms, logins.drop_last());
        if q.broken {
            q
        } else {
            absorbed(q, terms, true, logins.last())
        }
    }
}

/// The progress before anything is taken in.
pub open spec fn fresh(t: Tables) -> Progress {
    Progress { tables: t, connections: 0, queued: Seq::empty(), broken: false }
}

/// The ends of a list of edges.
pub open spec fn new_edge_models(s: Seq<NewEdge>, now: Seq<char>) -> Seq<EdgeModel> {
    s.map_values(|e: NewEdge| e.seen(now))
}

proof fn lemma_absorbed_until(p: Progress, terms: Terms, logins: Seq<Seq<char>>)
    requires
        p.tables.valid(),
    ensures
        absorbed_until(p, terms, logins).tables.valid(),
        grows(p.tables, absorbed_until(p, terms, logins).tables),
    decreases logins.len(),
{
    if logins.len() > 0 {
        lemma_absorbed_until(p, terms, logins.drop_last());
        let q = absorbed_until(p, terms, logins.drop_last());
        if !q.broken {
            lemma_absorbed(q, terms, true, logins.last());
            lemma_grows_on(p.tables, q.tables, absorbed(q, terms, true, logins.last()).tables);
        }
    }
}

/// As long as nothing breaks, it makes no difference where it would stop.
proof fn lemma_until_is_all(p: Progress, terms: Terms, logins: Seq<Seq<char>>)
    requires
        p.tables.valid(),
        !absorbed_all(p, terms, true, logins).broken,
    ensures
        absorbed_until(p, terms, logins) == absorbed_all(p, terms, true, logins),
    decreases logins.len(),
{
    if logins.len() > 0 {
        let rest = logins.drop_last();
        lemma_absorbed_all(p, terms, true, rest);
        lemma_absorbed(absorbed_all(p, terms, true, rest), terms, true, logins.last());
        lemma_until_is_all(p, terms, rest);
    }
}

/// What the crawl of whom a user follows comes to, where GitHub's answer is `answer`:
/// the tables before and after it, and what is returned. An unknown user and a failed
/// request change nothing.
pub open spec fn is_crawl_outcome(
    before: Tables,
    after: Tables,
    terms: Terms,
    answer: Result<Vec<GithubUserSummary>, GithubError>,
    r: Result<CrawlResult, CrawlerError>,
) -> bool {
    if !has_login(before.users, terms.scope) {
        &&& r matches Err(CrawlerError::UserNotFound(l))
        &&& l@ == terms.scope
        &&& after == before
    } else {
        match answer {
            Err(e) => {
                &&& r == Err::<CrawlResult, CrawlerError>(CrawlerError::Github(e))
                &&& after == before
            },
            Ok(following) => is_following_outcome(before, after, terms, following@, r),
        }
    }
}

/// What storing whom a known user follows comes to: the tables before and after it,
/// and what is returned.
pub open spec fn is_following_outcome(
    before: Tables,
    after: Tables,
    terms: Terms,
    following: Seq<GithubUserSummary>,
    r: Result<CrawlResult, CrawlerError>,
) -> bool {
    let logins = summary_logins(following);
    let p = absorbed_until(fresh(before), terms, logins);
    if p.broken {
        &&& r matches Err(CrawlerError::Db(e))
        &&& e == DbError::Full
        &&& after == p.tables
    } else {
        &&& r matches Ok(c)
        &&& c.following@ == following
        &&& views(c.newly_queued@) == p.queued
        &&& new_edge_models(c.new_edges@, terms.now) == logins.map_values(
            |l: Seq<char>|
                follow_edge(
                    p.tables.id_of(terms.scope),
                    p.tables.id_of(l),
                    terms.degree,
                    terms.now,
                ),
        )
        &&& after == p.tables.turn_scope(
            terms.crawler,
            terms.scope,
            |s: ScopeModel| crawled(s, terms.now),
        )
    }
}

/// The first step of a crawl, before GitHub is asked: the id of the user, or the
/// refusal of an unknown one, for whom nothing is to be fetched.
pub fn crawl_start(db: &Db, login: &str) -> (r: Result<i64, CrawlerError>)
    requires
        db.wf(),
    ensures
        match db@.user_by_login(login@) {
            Some(u) => r matches Ok(id) && id == u.id,
            None => r matches Err(CrawlerError::UserNotFound(l)) && l@ == login@,
        },
{
    match db.get_user_by_login(login) {
        Some(u) => Ok(u.id),
        None => Err(CrawlerError::UserNotFound(login.to_owned())),
    }
}

/// Where GitHub answers for a known user and ids are left for the listed users, the
/// crawl succeeds and leaves what a crawl of that list without followers leaves; what
/// it returns are the list, the edges along it and those that entered the queue.
pub proof fn law_following_is_stored(
    before: Tables,
    after: Tables,
    terms: Terms,
    list: Vec<GithubUserSummary>,
    r: Result<CrawlResult, CrawlerError>,
)
    requires
        before.valid(),
        exists|i: int|
            0 <= i < before.users.len() && (#[trigger] before.users[i]).login == terms.scope,
        list@.len() + 1 <= i64::MAX,
        forall|i: int|
            0 <= i < before.users.len() ==> (#[trigger] before.users[i]).id + list@.len() + 1
                <= i64::MAX,
        is_crawl_outcome(before, after, terms, Ok(list), r),
    ensures
        ({
            let names = Seq::new(list@.len(), |i: int| list@[i].login@);
            let p = persisted(before, terms, names, Seq::empty());
            &&& !p.broken
            &&& after == p.tables
            &&& r is Ok
            &&& r->Ok_0.following@ == list@
            &&& r->Ok_0.newly_queued@.len() == p.queued.len()
            &&& forall|k: int|
                0 <= k < p.queued.len() ==> #[trigger] p.queued[k] == r->Ok_0.newly_queued@[k]@
            &&& r->Ok_0.new_edges@.len() == list@.len()
            &&& forall|k: int|
                0 <= k < list@.len() ==> {
                    let e = #[trigger] r->Ok_0.new_edges@[k];
                    &&& named(after.users, terms.scope, e.from_user_id)
                    &&& named(after.users, list@[k].login@, e.to_user_id)
                    &&& e.edge_type@ == "follows"@
                    &&& e.degree == terms.degree
                    &&& e.weight_bits == 0x3ff0_0000_0000_0000u64
                    &&& e.metadata is None
                }
        }),
{
    let names = Seq::new(list@.len(), |i: int| list@[i].login@);
    assert(names =~= summary_logins(list@));
    let none = Seq::<Seq<char>>::empty();
    law_crawl_breaks_only_where_ids_run_out(before, terms, names, none);
    let p1 = absorbed_all(fresh(before), terms, true, names);
    assert(absorbed_all(p1, terms, false, none) == p1);
    lemma_until_is_all(fresh(before), terms, names);
    assert(!absorbed_until(fresh(before), terms, names).broken);
    assert(has_login(before.users, terms.scope));
    assert(is_following_outcome(before, after, terms, list@, r));
    lemma_absorbed_all(fresh(before), terms, true, names);
    let c = r->Ok_0;
    let m = new_edge_models(c.new_edges@, terms.now);
    assert(m.len() == names.len());
    assert(views(c.newly_queued@).len() == p1.queued.len());
    assert forall|k: int| 0 <= k < p1.queued.len() implies #[trigger] p1.queued[k]
        == c.newly_queued@[k]@ by {
        assert(views(c.newly_queued@)[k] == p1.queued[k]);
    }
    assert forall|k: int| 0 <= k < list@.len() implies {
        let e = #[trigger] c.new_edges@[k];
        &&& named(after.users, terms.scope, e.from_user_id)
        &&& named(after.users, list@[k].login@, e.to_user_id)
        &&& e.edge_type@ == "follows"@
        &&& e.degree == terms.degree
        &&& e.weight_bits == 0x3ff0_0000_0000_0000u64
        &&& e.metadata is None
    } by {
        let e = c.new_edges@[k];
        assert(m[k] == e.seen(terms.now));
        assert(connected_to(p1.tables, terms, true, names[k]));
        lemma_id_is_named(p1.tables, terms.scope);
        lemma_id_is_named(p1.tables, names[k]);
        assert(after.users == p1.tables.users);
    }
}

/// Where a crawl succeeds, every listed user is stored, and followed by the crawled one;
/// where it fails on a known user that GitHub answered for, no id was left.
pub proof fn law_successful_crawl_has_stored_everybody(
    before: Tables,
    after: Tables,
    terms: Terms,
    list: Vec<GithubUserSummary>,
    r: Result<CrawlResult, CrawlerError>,
    i: int,
)
    requires
        before.valid(),
        is_crawl_outcome(before, after, terms, Ok(list), r),
        0 <= i < list@.len(),
    ensures
        r is Ok ==> records(after, terms.scope, list@[i].login@) && stands(
            after.scopes,
            terms.crawler,
            list@[i].login@,
        ),
        r is Err && (exists|k: int|
            0 <= k < before.users.len() && (#[trigger] before.users[k]).login == terms.scope)
            ==> r->Err_0 is Db && r->Err_0->Db_0 is Full,
{
    let names = summary_logins(list@);
    if r is Ok {
        let p = absorbed_until(fresh(before), terms, names);
        assert(!p.broken);
        lemma_unbroken_until(fresh(before), terms, names);
        lemma_absorbed_all(fresh(before), terms, true, names);
        lemma_turn_valid(p.tables, terms);
        assert(connected_to(p.tables, terms, true, names[i]));
        lemma_stays_connected(p.tables, after, terms, true, names[i]);
        lemma_id_is_named(after, terms.scope);
        lemma_id_is_named(after, names[i]);
    }
}

proof fn lemma_unbroken_until(p: Progress, terms: Terms, logins: Seq<Seq<char>>)
    requires
        !absorbed_until(p, terms, logins).broken,
    ensures
        absorbed_until(p, terms, logins) == absorbed_all(p, terms, true, logins),
    decreases logins.len(),
{
    if logins.len() > 0 {
        lemma_unbroken_until(p, terms, logins.drop_last());
    }
}

/// What is counted beside the database stands in the progress of a crawl, each under its
/// own name, and so do the terms of a crawl in their model.
pub proof fn law_progress_is_what_was_counted(t: Tables, p: Persisted, terms: CrawlTerms)
    ensures
        progress(t, p).tables == t,
        progress(t, p).connections == p.connections,
        progress(t, p).broken == p.broken,
        progress(t, p).queued == views(p.newly_queued@),
        terms@.crawler == terms.crawler_name@ && terms@.scope == terms.scope@,
        terms@.degree == terms.degree && terms@.priority == terms.priority@,
        terms@.now == terms.now@,
{
}

/// A crawl of an unknown user and one that GitHub does not answer change nothing and
/// say why.
pub proof fn law_refused_crawl_changes_nothing(
    before: Tables,
    after: Tables,
    terms: Terms,
    answer: Result<Vec<GithubUserSummary>, GithubError>,
    r: Result<CrawlResult, CrawlerError>,
)
    requires
        is_crawl_outcome(before, after, terms, answer, r),
    ensures
        (forall|i: int|
            0 <= i < before.users.len() ==> (#[trigger] before.users[i]).login != terms.scope)
            ==> after == before && r is Err && r->Err_0 is UserNotFound
            && r->Err_0->UserNotFound_0@ == terms.scope,
        (exists|i: int|
            0 <= i < before.users.len() && (#[trigger] before.users[i]).login == terms.scope)
            && answer is Err ==> after == before && r is Err && r->Err_0 is Github
            && r->Err_0->Github_0 == answer->Err_0,
{
}

impl FollowCrawler {
    /// Stores whom a user follows, by GitHub's answer. The degree of the user is that
    /// of the edges; see [`FollowCrawler::crawl_following`].
    pub fn crawl(
        &self,
        scope_key: &str,
        db: &mut Db,
        answer: Result<Vec<GithubUserSummary>, GithubError>,
        now: &str,
    ) -> (r: Result<CrawlResult, CrawlerError>)
        requires
            old(db).wf(),
        ensures
            final(db).wf(),
            final(db).stored() == old(db).stored(),
            is_crawl_outcome(
                old(db)@,
                final(db)@,
                Terms {
                    crawler: self.key(),
                    scope: scope_key@,
                    degree: next_degree(degree_of(old(db)@, scope_key@) as i32),
                    priority: "normal"@,
                    now: now@,
                },
                answer,
                r,
            ),
    {
        let degree: i32 = current_degree(db, scope_key);
        FollowCrawler::crawl_following(self.name(), db, scope_key, degree, answer, now)
    }

    /// Stores whom a known user follows, by GitHub's answer, puts the discovered users
    /// into the queue with normal priority, and marks the user as crawled. It stops at
    /// the first user that cannot be stored. A failed request stores nothing.
    pub fn crawl_following(
        crawler_name: &str,
        db: &mut Db,
        login: &str,
        current_degree: i32,
        answer: Result<Vec<GithubUserSummary>, GithubError>,
        now: &str,
    ) -> (r: Result<CrawlResult, CrawlerError>)
        requires
            old(db).wf(),
        ensures
            final(db).wf(),
            final(db).stored() == old(db).stored(),
            is_crawl_outcome(
                old(db)@,
                final(db)@,
                Terms {
                    crawler: crawler_name@,
                    scope: login@,
                    degree: next_degree(current_degree),
                    priority: "normal"@,
                    now: now@,
                },
                answer,
                r,
            ),
    {
        let ghost t0 = db@;
        let from: i64 = match crawl_start(db, login) {
            Ok(id) => id,
            Err(e) => {
                return Err(e);
            },
        };
        let following: Vec<GithubUserSummary> = match answer {
            Ok(following) => following,
            Err(e) => {
                return Err(CrawlerError::Github(e));
            },
        };
        let degree: i32 = step_out(current_degree);
        let terms = CrawlTerms { crawler_name, scope: login, degree, priority: "normal", now };
        let ghost tm = terms@;
        let ghost logins = summary_logins(following@);
        let mut edges: Vec<NewEdge> = Vec::new();
        let mut queued: Vec<String> = Vec::new();
        let mut i: usize = 0;
        proof {
            db.law_invariant();
            assert(logins.take(0) =~= Seq::empty());
            assert(views(queued@) =~= Seq::empty());
        }
        while i < following.len()
            invariant
                db.wf(),
                db.stored() == old(db).stored(),
                t0 == old(db)@,
                t0.valid(),
                has_login(t0.users, login@),
                from == t0.id_of(login@),
                terms@ == tm,
                tm == (Terms {
                    crawler: crawler_name@,
                    scope: login@,
                    degree: next_degree(current_degree),
                    priority: "normal"@,
                    now: now@,
                }),
                terms.now@ == now@,
                terms.scope@ == login@,
                degree == tm.degree,
                answer matches Ok(list) && list@ == following@,
                logins == summary_logins(following@),
                i <= following@.len(),
                !absorbed_until(fresh(t0), tm, logins.take(i as int)).broken,
                db@ == absorbed_until(fresh(t0), tm, logins.take(i as int)).tables,
                views(queued@) == absorbed_until(fresh(t0), tm, logins.take(i as int)).queued,
                edges@.len() == i,
                forall|k: int|
                    0 <= k < i ==> has_login(db@.users, #[trigger] logins[k]) && edges@[k].seen(now@)
                        == follow_edge(from, db@.id_of(logins[k]), tm.degree, now@),
            decreases following@.len() - i,
        {
            let ghost before = absorbed_until(fresh(t0), tm, logins.take(i as int));
            let ghost after = absorbed_until(fresh(t0), tm, logins.take(i + 1));
            let ghost name = logins[i as int];
            proof {
                assert(logins.take(i + 1).drop_last() =~= logins.take(i as int));
                assert(name == following@[i as int].login@);
                assert(after == absorbed(before, tm, true, name));
                lemma_absorbed_until(fresh(t0), tm, logins.take(i as int));
                lemma_absorbed(before, tm, true, name);
                lemma_grown(t0, before.tables);
                lemma_grown(before.tables, after.tables);
                lemma_linked(before.tables, login@, name, tm.degree, now@);
            }
            let other: &str = following[i].login.as_str();
            if !persist_edge(db, login, other, degree, now) {
                proof {
                    lemma_broken_stays(fresh(t0), tm, logins, i + 1);
                    assert(after.tables == db@);
                }
                return Err(CrawlerError::Db(DbError::Full));
            }
            let ghost t1 = db@;
            let ghost q0 = views(queued@);
            let to: i64 = match db.get_user_by_login(other) {
                Some(u) => u.id,
                None => 0,
            };
            assert(to == t1.id_of(name));
            let edge = NewEdge {
                from_user_id: from,
                to_user_id: to,
                edge_type: "follows".to_owned(),
                weight_bits: WEIGHT_ONE,
                degree,
                metadata: None,
            };
            edges.push(edge);
            if !db.has_crawl_state(crawler_name, other) {
                db.insert_pending_scope(crawler_name, other, degree, "normal");
                queued.push(other.to_owned());
                assert(views(queued@) =~= q0.push(name));
            }
            proof {
                assert(db@ == after.tables);
                lemma_grown(t1, after.tables);
                assert forall|k: int| 0 <= k < i + 1 implies has_login(
                    db@.users,
                    #[trigger] logins[k],
                ) && edges@[k].seen(now@) == follow_edge(
                    from,
                    db@.id_of(logins[k]),
                    tm.degree,
                    now@,
                ) by {
                    if k < i {
                        assert(has_login(before.tables.users, logins[k]));
                    }
                }
            }
            i = i + 1;
        }
        assert(logins.take(i as int) =~= logins);
        let ghost p = absorbed_until(fresh(t0), tm, logins);
        db.mark_crawl_done(crawler_name, login, now);
        proof {
            lemma_absorbed_until(fresh(t0), tm, logins);
            lemma_grown(t0, p.tables);
            let want = logins.map_values(
                |l: Seq<char>|
                    follow_edge(p.tables.id_of(tm.scope), p.tables.id_of(l), tm.degree, tm.now),
            );
            assert forall|k: int| 0 <= k < logins.len() implies new_edge_models(
                edges@,
                now@,
            )[k] == #[trigger] want[k] by {
                assert(has_login(p.tables.users, logins[k]));
            }
            assert(new_edge_models(edges@, now@) =~= want);
        }
        Ok(CrawlResult { following, new_edges: edges, newly_queued: queued })
    }
}

/// What broke stays broken.
proof fn lemma_broken_stays(p: Progress, terms: Terms, logins: Seq<Seq<char>>, i: int)
    requires
        0 <= i <= logins.len(),
        absorbed_until(p, terms, logins.take(i)).broken,
    ensures
        absorbed_until(p, terms, logins) == absorbed_until(p, terms, logins.take(i)),
    decreases logins.len() - i,
{
    if i == logins.len() {
        assert(logins.take(i) =~= logins);
    } else {
        assert(logins.take(i + 1).drop_last() =~= logins.take(i));
        lemma_broken_stays(p, terms, logins, i + 1);
    }
}

} // verus!
