//! A crawl worker: what it does next, from what it has done and what came back.
use vstd::prelude::*;
use vstd::string::*;

use crate::crawlers::{
    current_degree, degree_of, law_crawl_breaks_only_where_ids_run_out, next_degree, persist, persisted, progress, step_out, storable,
    CrawlTerms, Persisted, Progress, Terms,
};
use crate::db::meaning::{
    law_id_of_a_login, law_new_user_gets_the_next_id, law_room_ends_at_the_largest_id,
    law_user_is_row_and_profile,
};
use crate::db::model::{
    failed, goes_before, has_id, place_of_login, retried, scope_is, with_priority, with_status,
    ChangeModel, ScopeModel, Tables,
};
use crate::db::queue::{claimed, law_queue_is_what_waits, tally, Tally};
use crate::db::scopes::Scope;
use crate::db::Db;
use crate::lists::lemma_filter_holds;
use crate::server::Flags;
use crate::text::{same, views};
use crate::types::{
    event_models, summary_logins, CrawlEvent, CrawlScope, CrawlingWorker, EventModel,
    GithubUserProfile, RateLimit, ScopeResult, WorkerModel,
};
use crate::{HUB_FOLLOWER_THRESHOLD, HUB_FOLLOWING_THRESHOLD};

verus! {

/// How many users somebody follows, and how many follow back.
#[derive(Debug, Clone, Copy, PartialEq, Eq)]
pub struct Counts {
    pub following: i64,
    pub followers: i64,
}

/// Somebody with very many connections in one direction.
pub open spec fn hub(c: Counts) -> bool {
    c.following >= HUB_FOLLOWING_THRESHOLD || c.followers >= HUB_FOLLOWER_THRESHOLD
}

/// Whether somebody has very many connections in one direction.
pub fn is_hub(c: Counts) -> (r: bool)
    ensures
        r == hub(c),
        r == (c.following >= 5000 || c.followers >= 5000),
{
    c.following >= HUB_FOLLOWING_THRESHOLD || c.followers >= HUB_FOLLOWER_THRESHOLD
}

/// What a worker is at.
pub enum Stage {
    /// It is free.
    Ready,
    /// It waits for the profile of the user of this scope.
    NeedsProfile { scope: Scope },
    /// It waits for what GitHub lists for the user of this scope.
    Crawling { scope: Scope, degree: i32, counts: Counts },
}

pub enum StageModel {
    Ready,
    NeedsProfile { scope: ScopeModel },
    Crawling { scope: ScopeModel, degree: i32, counts: Counts },
}

impl View for Stage {
    type V = StageModel;

    open spec fn view(&self) -> StageModel {
        match *self {
            Stage::Ready => StageModel::Ready,
            Stage::NeedsProfile { scope } => StageModel::NeedsProfile { scope: scope@ },
            Stage::Crawling { scope, degree, counts } => StageModel::Crawling {
                scope: scope@,
                degree,
                counts,
            },
        }
    }
}

/// What the caller is to do next.
pub enum Action {
    /// End the worker.
    Exit,
    /// Ask again after this many milliseconds.
    Sleep(u64),
    /// Nothing is left to do: pause the crawling.
    Pause,
    /// Ask again at once.
    Again,
    /// Fetch the profile of this user.
    FetchProfile(String),
    /// Fetch what GitHub lists for this scope.
    Crawl(CrawlScope),
    /// Tell these events; the scope is finished.
    Finished(Vec<CrawlEvent>),
}

pub enum ActionModel {
    Exit,
    Sleep(u64),
    Pause,
    Again,
    FetchProfile(Seq<char>),
    Crawl { key: Seq<char>, degree: i32 },
    Finished(Seq<EventModel>),
}

impl View for Action {
    type V = ActionModel;

    open spec fn view(&self) -> ActionModel {
        match *self {
            Action::Exit => ActionModel::Exit,
            Action::Sleep(ms) => ActionModel::Sleep(ms),
            Action::Pause => ActionModel::Pause,
            Action::Again => ActionModel::Again,
            Action::FetchProfile(login) => ActionModel::FetchProfile(login@),
            Action::Crawl(scope) => ActionModel::Crawl { key: scope.key@, degree: scope.degree },
            Action::Finished(events) => ActionModel::Finished(event_models(events@)),
        }
    }
}

/// What a step of a worker comes to.
pub struct Step {
    pub tables: Tables,
    pub stage: StageModel,
    pub action: ActionModel,
}

/// How long a worker without work waits, in milliseconds.
pub const IDLE_MS: u64 = 500;

/// The counts of the stored profile of a user.
pub open spec fn cached_counts(t: Tables, login: Seq<char>) -> Option<Counts> {
    match t.user_by_login(login) {
        Some(u) => match (u.following, u.followers) {
            (Some(following), Some(followers)) => Some(Counts { following, followers }),
            _ => None,
        },
        None => None,
    }
}

/// A hub goes to the end of the queue when it is met for the first time. Anybody
/// else, and a hub that comes from there, is crawled.
pub open spec fn after_counts(
    t: Tables,
    crawler: Seq<char>,
    scope: ScopeModel,
    counts: Counts,
) -> Step {
    if hub(counts) && scope.priority != "low"@ {
        Step {
            tables: t.turn_scope(
                crawler,
                scope.key,
                |s: ScopeModel| with_priority(s, "low"@),
            ).turn_scope(crawler, scope.key, |s: ScopeModel| with_status(s, "pending"@)),
            stage: StageModel::Ready,
            action: ActionModel::Again,
        }
    } else {
        let degree = degree_of(t, scope.key) as i32;
        Step {
            tables: t,
            stage: StageModel::Crawling { scope, degree, counts },
            action: ActionModel::Crawl { key: scope.key, degree },
        }
    }
}

/// What a free worker does: nothing while the crawling is paused, else it claims
/// the first scope of the queue. Where nothing waits, what others crawl may still
/// lead to more; where nobody crawls either, the crawling pauses.
pub open spec fn ticked(t: Tables, crawler: Seq<char>, flags: Flags) -> Step {
    if flags.shutdown {
        Step { tables: t, stage: StageModel::Ready, action: ActionModel::Exit }
    } else if flags.paused {
        Step { tables: t, stage: StageModel::Ready, action: ActionModel::Sleep(IDLE_MS) }
    } else if t.queue(crawler).len() == 0 {
        Step {
            tables: t,
            stage: StageModel::Ready,
            action: if tally(t, crawler, Tally::Status("in_progress")) == 0 {
                ActionModel::Pause
            } else {
                ActionModel::Sleep(IDLE_MS)
            },
        }
    } else {
        let t1 = claimed(t, crawler);
        let scope = with_status(t.queue(crawler)[0], "in_progress"@);
        match cached_counts(t1, scope.key) {
            Some(counts) => after_counts(t1, crawler, scope, counts),
            None => Step {
                tables: t1,
                stage: StageModel::NeedsProfile { scope },
                action: ActionModel::FetchProfile(scope.key),
            },
        }
    }
}

/// The tables with a fetched profile, as far as there is room for the user.
pub open spec fn with_profile(t: Tables, profile: GithubUserProfile) -> Tables {
    if !storable(t, profile.login@) {
        t
    } else {
        let t1 = t.insert_user(profile.login@);
        let user_id = t1.id_of(profile.login@);
        if user_id > 0 {
            t1.apply(ChangeModel::PutProfile { user_id, profile: profile.facts() })
        } else {
            t1
        }
    }
}

/// The tables once the crawl of a key has failed.
pub open spec fn with_failure(t: Tables, key: Seq<char>, error: Seq<char>) -> Tables {
    t.with_scopes(t.scopes.map_values(|s: ScopeModel| retried(s, key, error)))
}

/// What a worker does with the profile that it waited for.
pub open spec fn profiled(
    t: Tables,
    crawler: Seq<char>,
    scope: ScopeModel,
    answer: Result<GithubUserProfile, String>,
) -> Step {
    match answer {
        Ok(p) => after_counts(
            with_profile(t, p),
            crawler,
            scope,
            Counts { following: p.following, followers: p.followers },
        ),
        Err(e) => Step {
            tables: with_failure(t, scope.key, e@),
            stage: StageModel::Ready,
            action: ActionModel::Again,
        },
    }
}

/// What is the same for everything that the crawl of a scope stores: what a hub
/// leads to has low priority.
pub open spec fn terms_of(
    crawler: Seq<char>,
    scope: ScopeModel,
    degree: i32,
    counts: Counts,
    now: Seq<char>,
) -> Terms {
    Terms {
        crawler,
        scope: scope.key,
        degree: next_degree(degree),
        priority: if hub(counts) {
            "low"@
        } else {
            "normal"@
        },
        now,
    }
}

/// The events of a finished crawl: the user is done, and who entered the queue.
pub open spec fn crawl_events(
    p: Progress,
    scope: Seq<char>,
    degree: i32,
    counts: Counts,
) -> Seq<EventModel> {
    seq![
        EventModel::Done {
            login: scope,
            degree,
            new_connections: p.connections as usize,
            following_count: counts.following,
            followers_count: counts.followers,
        },
    ] + p.queued.map_values(
        |login: Seq<char>|
            EventModel::Queued { login, degree: next_degree(degree), parent_login: scope },
    )
}

/// What a worker does with the lists that it waited for.
pub open spec fn crawled_step(
    t: Tables,
    crawler: Seq<char>,
    scope: ScopeModel,
    degree: i32,
    counts: Counts,
    answer: Result<ScopeResult, String>,
    now: Seq<char>,
) -> Step {
    match answer {
        Ok(lists) => {
            let p = persisted(
                t,
                terms_of(crawler, scope, degree, counts, now),
                summary_logins(lists.following@),
                summary_logins(lists.followers@),
            );
            Step {
                tables: p.tables,
                stage: StageModel::Ready,
                action: ActionModel::Finished(crawl_events(p, scope.key, degree, counts)),
            }
        },
        Err(e) => Step {
            tables: with_failure(t, scope.key, e@),
            stage: StageModel::Ready,
            action: ActionModel::Finished(Seq::empty()),
        },
    }
}

/// While the crawling is paused, or the daemon ends, a free worker leaves the
/// database alone.
pub proof fn law_paused_worker_rests(t: Tables, crawler: Seq<char>, flags: Flags)
    requires
        flags.paused || flags.shutdown,
    ensures
        ticked(t, crawler, flags).tables == t,
        ticked(t, crawler, flags).stage is Ready,
        flags.shutdown <==> ticked(t, crawler, flags).action is Exit,
{
}

/// The crawling pauses by itself exactly when it runs and nothing is left to do:
/// no scope waits for the crawler, and none of its scopes is being crawled.
pub proof fn law_idle_crawl_pauses(t: Tables, crawler: Seq<char>, flags: Flags)
    requires
        t.scopes.len() <= usize::MAX,
    ensures
        ticked(t, crawler, flags).action is Pause <==> !flags.shutdown && !flags.paused && forall|
            s: ScopeModel,
        | #[trigger]
            t.scopes.contains(s) ==> !t.waits(crawler, s) && !(s.crawler == crawler && s.status
                == "in_progress"@),
{
    let p = |s: ScopeModel| s.crawler == crawler && Tally::Status("in_progress").holds(s);
    let crawled = t.scopes.filter(p);
    let q = t.queue(crawler);
    lemma_filter_holds(t.scopes, p);
    if q.len() == 0 && crawled.len() == 0 {
        assert forall|s: ScopeModel| #[trigger] t.scopes.contains(s) implies !t.waits(crawler, s)
            && !(s.crawler == crawler && s.status == "in_progress"@) by {
            law_queue_is_what_waits(t, crawler, s);
            assert(!crawled.contains(s));
        }
    }
    if q.len() > 0 {
        assert(q.contains(q[0]));
        law_queue_is_what_waits(t, crawler, q[0]);
    }
    if crawled.len() > 0 {
        assert(crawled.contains(crawled[0]));
    }
}

/// A hub is put off once: it then waits with low priority, behind everything of
/// high or normal priority, and when its turn comes it is crawled.
pub proof fn law_hub_is_deferred_once(
    t: Tables,
    crawler: Seq<char>,
    scope: ScopeModel,
    counts: Counts,
    i: int,
)
    requires
        t.valid(),
        hub(counts),
        scope.priority != "low"@,
        0 <= i < t.scopes.len(),
        scope_is(t.scopes[i], crawler, scope.key),
    ensures
        ({
            let deferred = after_counts(t, crawler, scope, counts).tables.scopes[i];
            &&& deferred.priority == "low"@
            &&& deferred.status == "pending"@
            &&& forall|s: ScopeModel|
                s.priority == "high"@ || s.priority == "normal"@ ==> #[trigger] goes_before(
                    s,
                    deferred,
                )
            &&& after_counts(t, crawler, deferred, counts).stage is Crawling
        }),
{
    reveal_strlit("high");
    reveal_strlit("normal");
    reveal_strlit("low");
    assert("high"@.len() == 4 && "normal"@.len() == 6 && "low"@.len() == 3);
}

/// What a hub leads to waits with low priority, what anybody else leads to with
/// normal priority.
pub proof fn law_hub_passes_low_priority_on(
    crawler: Seq<char>,
    scope: ScopeModel,
    degree: i32,
    counts: Counts,
    now: Seq<char>,
)
    ensures
        hub(counts) <==> terms_of(crawler, scope, degree, counts, now).priority == "low"@,
        !hub(counts) <==> terms_of(crawler, scope, degree, counts, now).priority == "normal"@,
{
    reveal_strlit("normal");
    reveal_strlit("low");
    assert("normal"@.len() == 6 && "low"@.len() == 3);
}

/// A crawl that fails, at the profile or at the lists, gives its scope back to the
/// queue with the error noted.
pub proof fn law_failed_scope_waits_again(
    t: Tables,
    crawler: Seq<char>,
    scope: ScopeModel,
    degree: i32,
    counts: Counts,
    error: String,
    now: Seq<char>,
    i: int,
)
    requires
        0 <= i < t.scopes.len(),
        t.scopes[i].key == scope.key,
        t.scopes[i].status == "in_progress"@,
    ensures
        ({
            let a = profiled(t, crawler, scope, Err(error)).tables.scopes[i];
            let b = crawled_step(
                t,
                crawler,
                scope,
                degree,
                counts,
                Err(error),
                now,
            ).tables.scopes[i];
            a == failed(t.scopes[i], error@) && b == failed(t.scopes[i], error@)
        }),
{
}

/// Whoever follows five thousand users or is followed by as many is a hub, and nobody
/// else is.
pub proof fn law_hubs_have_thousands_of_connections(c: Counts)
    ensures
        hub(c) <==> c.following >= 5000 || c.followers >= 5000,
{
}

/// The counts of a user are those of the stored profile; without one there are none.
pub proof fn law_counts_are_those_of_the_profile(t: Tables, r: int)
    requires
        t.valid(),
        0 <= r < t.users.len(),
    ensures
        ({
            let (id, login) = (t.users[r].id, t.users[r].login);
            &&& t.profiles.dom().contains(id) ==> cached_counts(t, login) == Some(
                Counts { following: t.profiles[id].following, followers: t.profiles[id].followers },
            )
            &&& !t.profiles.dom().contains(id) ==> cached_counts(t, login) is None
        }),
{
    law_user_is_row_and_profile(t, r);
}

/// Once the counts of a user are known, a hub that has not waited at low priority is put
/// back into the queue at low priority, and the worker asks again; anybody else is
/// crawled at the degree of the user, and the tables stay as they are.
pub proof fn law_counts_decide(
    t: Tables,
    crawler: Seq<char>,
    scope: ScopeModel,
    counts: Counts,
    i: int,
)
    requires
        0 <= i < t.scopes.len(),
    ensures
        ({
            let step = after_counts(t, crawler, scope, counts);
            let u = step.tables;
            if (counts.following >= 5000 || counts.followers >= 5000) && scope.priority != "low"@ {
                &&& step.stage is Ready
                &&& step.action is Again
                &&& u.users == t.users && u.profiles == t.profiles && u.edges == t.edges
                &&& u.history == t.history && u.config == t.config
                &&& u.scopes.len() == t.scopes.len()
                &&& t.scopes[i].crawler == crawler && t.scopes[i].key == scope.key ==> u.scopes[i]
                    == (ScopeModel { priority: "low"@, status: "pending"@, ..t.scopes[i] })
                &&& t.scopes[i].crawler != crawler || t.scopes[i].key != scope.key ==> u.scopes[i]
                    == t.scopes[i]
            } else {
                let degree = degree_of(t, scope.key) as i32;
                &&& u == t
                &&& step.stage == (StageModel::Crawling { scope, degree, counts })
                &&& step.action == (ActionModel::Crawl { key: scope.key, degree })
            }
        }),
{
}

/// A free worker ends with the daemon, rests half a second while the crawling is paused
/// or others are still at work, and else takes the head of the queue: it asks for the
/// profile of a user that has none, and goes on by the counts of one that has.
pub proof fn law_free_worker_takes_the_head(t: Tables, crawler: Seq<char>, flags: Flags, r: int)
    requires
        t.valid(),
        t.scopes.len() <= usize::MAX,
    ensures
        ({
            let step = ticked(t, crawler, flags);
            let q = t.queue(crawler);
            &&& flags.shutdown ==> step.action is Exit && step.stage is Ready && step.tables == t
            &&& !flags.shutdown && flags.paused ==> step.action == ActionModel::Sleep(500)
                && step.stage is Ready && step.tables == t
            &&& !flags.shutdown && !flags.paused && q.len() == 0 ==> step.stage is Ready
                && step.tables == t && step.action == (if exists|i: int|
                0 <= i < t.scopes.len() && (#[trigger] t.scopes[i]).crawler == crawler
                    && t.scopes[i].status == "in_progress"@ {
                ActionModel::Sleep(500)
            } else {
                ActionModel::Pause
            })
            &&& !flags.shutdown && !flags.paused && q.len() > 0 && 0 <= r < t.users.len()
                && t.users[r].login == q[0].key ==> {
                let scope = ScopeModel { status: "in_progress"@, ..q[0] };
                let id = t.users[r].id;
                if t.profiles.dom().contains(id) {
                    step == after_counts(
                        claimed(t, crawler),
                        crawler,
                        scope,
                        Counts {
                            following: t.profiles[id].following,
                            followers: t.profiles[id].followers,
                        },
                    )
                } else {
                    &&& step.tables == claimed(t, crawler)
                    &&& step.stage == (StageModel::NeedsProfile { scope })
                    &&& step.action == ActionModel::FetchProfile(q[0].key)
                }
            }
            &&& q.len() > 0 ==> exists|k: int|
                0 <= k < t.users.len() && (#[trigger] t.users[k]).login == q[0].key
        }),
{
    let p = |s: ScopeModel| s.crawler == crawler && Tally::Status("in_progress").holds(s);
    let q = t.queue(crawler);
    lemma_filter_holds(t.scopes, p);
    let busy = t.scopes.filter(p);
    if busy.len() > 0 {
        assert(busy.contains(busy[0]));
        let i = choose|i: int| 0 <= i < t.scopes.len() && t.scopes[i] == busy[0];
        assert(t.scopes[i].crawler == crawler);
    } else {
        assert forall|i: int| 0 <= i < t.scopes.len() implies !((
        #[trigger] t.scopes[i]).crawler == crawler && t.scopes[i].status == "in_progress"@) by {
            assert(t.scopes.contains(t.scopes[i]));
            assert(!busy.contains(t.scopes[i]));
        }
    }
    if q.len() > 0 {
        assert(q.contains(q[0]));
        law_queue_is_what_waits(t, crawler, q[0]);
        if 0 <= r < t.users.len() && t.users[r].login == q[0].key {
            let t1 = claimed(t, crawler);
            law_user_is_row_and_profile(t, r);
            assert(t1.users == t.users && t1.profiles == t.profiles);
            assert(t1.user_by_login(q[0].key) == t.user_by_login(q[0].key));
            law_counts_are_those_of_the_profile(t, r);
        }
    }
}

/// A fetched profile is stored for its user, who becomes known by it, and what follows is
/// decided by its own counts. Only a user whose id is not positive goes without.
pub proof fn law_fetched_profile_is_stored(
    t: Tables,
    crawler: Seq<char>,
    scope: ScopeModel,
    profile: GithubUserProfile,
    r: int,
)
    requires
        t.valid(),
        forall|i: int| 0 <= i < t.users.len() ==> 0 < (#[trigger] t.users[i]).id < i64::MAX,
    ensures
        ({
            let u = with_profile(t, profile);
            let n = t.users.len() as int;
            let counts = Counts { following: profile.following, followers: profile.followers };
            &&& profiled(t, crawler, scope, Ok(profile)) == after_counts(u, crawler, scope, counts)
            &&& u.edges == t.edges && u.history == t.history && u.scopes == t.scopes
            &&& u.config == t.config
            &&& 0 <= r < n && t.users[r].login == profile.login@ ==> u.users == t.users
                && u.profiles == t.profiles.insert(t.users[r].id, profile.facts())
            &&& (forall|i: int| 0 <= i < n ==> (#[trigger] t.users[i]).login != profile.login@)
                ==> u.users.len() == n + 1 && u.users.take(n) == t.users && u.users[n].login
                == profile.login@ && u.profiles == t.profiles.insert(
                u.users[n].id,
                profile.facts(),
            )
        }),
{
    let n = t.users.len() as int;
    let t1 = t.insert_user(profile.login@);
    law_room_ends_at_the_largest_id(t);
    law_new_user_gets_the_next_id(t, profile.login@);
    crate::crawlers::lemma_insert_user(t, profile.login@);
    if 0 <= r < n && t.users[r].login == profile.login@ {
        law_id_of_a_login(t, r);
    }
    if forall|i: int| 0 <= i < n ==> (#[trigger] t.users[i]).login != profile.login@ {
        law_id_of_a_login(t1, n);
        assert(t1.id_of(profile.login@) == t1.users[n].id);
        if n > 0 {
            assert(t.users[0].id < t1.users[n].id);
        }
    }
}

/// A failure touches the scopes of the key that are being crawled, and nothing else; the
/// worker is free again, and tells nobody of anything.
pub proof fn law_failure_touches_what_is_being_crawled(
    t: Tables,
    crawler: Seq<char>,
    scope: ScopeModel,
    degree: i32,
    counts: Counts,
    error: String,
    now: Seq<char>,
    i: int,
)
    requires
        0 <= i < t.scopes.len(),
    ensures
        ({
            let a = profiled(t, crawler, scope, Err(error));
            let b = crawled_step(t, crawler, scope, degree, counts, Err(error), now);
            let u = a.tables;
            &&& b.tables == u
            &&& a.stage is Ready && b.stage is Ready
            &&& a.action is Again
            &&& b.action == ActionModel::Finished(Seq::empty())
            &&& u.users == t.users && u.profiles == t.profiles && u.edges == t.edges
            &&& u.history == t.history && u.config == t.config
            &&& u.scopes.len() == t.scopes.len()
            &&& t.scopes[i].key != scope.key || t.scopes[i].status != "in_progress"@ ==> u.scopes[i]
                == t.scopes[i]
            &&& t.scopes[i].key == scope.key && t.scopes[i].status == "in_progress"@ ==> {
                &&& u.scopes[i].status == "pending"@
                &&& u.scopes[i].last_error == Some(error@)
                &&& u.scopes[i].crawler == t.scopes[i].crawler && u.scopes[i].key == scope.key
                &&& u.scopes[i].priority == t.scopes[i].priority
                &&& u.scopes[i].degree == t.scopes[i].degree
                &&& u.scopes[i].crawled_at == t.scopes[i].crawled_at
                &&& t.scopes[i].error_count < i64::MAX ==> u.scopes[i].error_count
                    == t.scopes[i].error_count + 1
                &&& t.scopes[i].error_count == i64::MAX ==> u.scopes[i].error_count == i64::MAX
            }
        }),
{
}

/// What came of a crawl is stored one degree further, at low priority where the user is
/// a hub and at normal priority else, and is told: first that the user is done, with the
/// counts of the user and one connection for each listed user, and then in order who
/// entered the queue and through whom.
pub proof fn law_finished_crawl_is_stored_and_told(
    t: Tables,
    crawler: Seq<char>,
    scope: ScopeModel,
    degree: i32,
    counts: Counts,
    lists: ScopeResult,
    now: Seq<char>,
)
    requires
        t.valid(),
        degree < i32::MAX,
        lists.following@.len() + lists.followers@.len() + 1 <= i64::MAX,
        lists.following@.len() + lists.followers@.len() <= usize::MAX,
        forall|i: int|
            0 <= i < t.users.len() ==> (#[trigger] t.users[i]).id + lists.following@.len()
                + lists.followers@.len() + 1 <= i64::MAX,
    ensures
        ({
            let step = crawled_step(t, crawler, scope, degree, counts, Ok(lists), now);
            let terms = Terms {
                crawler,
                scope: scope.key,
                degree: (degree + 1) as i32,
                priority: if counts.following >= 5000 || counts.followers >= 5000 {
                    "low"@
                } else {
                    "normal"@
                },
                now,
            };
            let p = persisted(
                t,
                terms,
                Seq::new(lists.following@.len(), |i: int| lists.following@[i].login@),
                Seq::new(lists.followers@.len(), |i: int| lists.followers@[i].login@),
            );
            &&& !p.broken
            &&& step.tables == p.tables
            &&& step.stage is Ready
            &&& step.action is Finished
            &&& ({
                let told = step.action->Finished_0;
                &&& told.len() == p.queued.len() + 1
                &&& told[0] == (EventModel::Done {
                    login: scope.key,
                    degree,
                    new_connections: (lists.following@.len() + lists.followers@.len()) as usize,
                    following_count: counts.following,
                    followers_count: counts.followers,
                })
                &&& forall|k: int|
                    0 <= k < p.queued.len() ==> told[k + 1] == (EventModel::Queued {
                        login: #[trigger] p.queued[k],
                        degree: (degree + 1) as i32,
                        parent_login: scope.key,
                    })
            })
        }),
{
    let following = Seq::new(lists.following@.len(), |i: int| lists.following@[i].login@);
    let followers = Seq::new(lists.followers@.len(), |i: int| lists.followers@[i].login@);
    assert(following =~= summary_logins(lists.following@));
    assert(followers =~= summary_logins(lists.followers@));
    let terms = terms_of(crawler, scope, degree, counts, now);
    law_crawl_breaks_only_where_ids_run_out(t, terms, following, followers);
}

/// The counts of the stored profile of a user.
fn stored_counts(db: &Db, login: &str) -> (r: Option<Counts>)
    requires
        db.wf(),
    ensures
        r == cached_counts(db@, login@),
{
    match db.get_user_by_login(login) {
        Some(u) => match (u.following, u.followers) {
            (Some(following), Some(followers)) => Some(Counts { following, followers }),
            _ => None,
        },
        None => None,
    }
}

/// Stores a fetched profile.
fn store_profile(db: &mut Db, profile: &GithubUserProfile)
    requires
        old(db).wf(),
    ensures
        final(db).wf(),
        final(db).stored() == old(db).stored(),
        final(db)@ == with_profile(old(db)@, *profile),
{
    match db.insert_user(profile.login.as_str()) {
        Ok(id) => {
            if id > 0 {
                assert(has_id(db@.users, id)) by {
                    let p = place_of_login(db@.users, profile.login@);
                    assert(0 <= p < db@.users.len() && db@.users[p].login == profile.login@);
                }
                match db.upsert_profile(id, profile) {
                    Ok(_) => {},
                    Err(_) => {},
                }
            }
        },
        Err(_) => {},
    }
}

/// One crawl worker.
pub struct Worker {
    pub stage: Stage,
}

impl Worker {
    /// A free worker.
    pub fn new() -> (r: Worker)
        ensures
            r.stage@ == StageModel::Ready,
    {
        Worker { stage: Stage::Ready }
    }

    /// Whom the worker crawls.
    pub fn current(&self) -> (r: Option<CrawlingWorker>)
        ensures
            match self.stage {
                Stage::Crawling { scope, degree, .. } => r is Some && r->0@ == (WorkerModel {
                    login: scope.scope_key@,
                    degree,
                }),
                _ => r is None,
            },
    {
        match &self.stage {
            Stage::Crawling { scope, degree, counts: _ } => Some(
                CrawlingWorker { login: scope.scope_key.clone(), degree: *degree },
            ),
            _ => None,
        }
    }

    /// Puts a hub that is met for the first time back into the queue, or starts
    /// the crawl.
    fn proceed(&mut self, db: &mut Db, crawler_name: &str, scope: Scope, counts: Counts) -> (r:
        Action)
        requires
            old(db).wf(),
        ensures
            final(db).wf(),
            final(db).stored() == old(db).stored(),
            ({
                let s = after_counts(old(db)@, crawler_name@, scope@, counts);
                final(db)@ == s.tables && final(self).stage@ == s.stage && r@ == s.action
            }),
    {
        if is_hub(counts) && !same(scope.priority.as_str(), "low") {
            db.set_priority(crawler_name, scope.scope_key.as_str(), "low");
            db.requeue_pending(crawler_name, scope.scope_key.as_str());
            self.stage = Stage::Ready;
            Action::Again
        } else {
            let degree: i32 = current_degree(db, scope.scope_key.as_str());
            let key = scope.scope_key.clone();
            self.stage = Stage::Crawling { scope, degree, counts };
            Action::Crawl(CrawlScope { key, degree })
        }
    }

    /// What a free worker does.
    pub fn tick(&mut self, db: &mut Db, crawler_name: &str, flags: Flags) -> (r: Action)
        requires
            old(db).wf(),
            old(self).stage is Ready,
        ensures
            final(db).wf(),
            final(db).stored() == old(db).stored(),
            ({
                let s = ticked(old(db)@, crawler_name@, flags);
                final(db)@ == s.tables && final(self).stage@ == s.stage && r@ == s.action
            }),
    {
        if flags.shutdown {
            return Action::Exit;
        }
        if flags.paused {
            return Action::Sleep(IDLE_MS);
        }
        match db.claim_scope(crawler_name) {
            None => if db.get_in_progress_count(crawler_name) == 0 {
                Action::Pause
            } else {
                Action::Sleep(IDLE_MS)
            },
            Some(scope) => {
                match stored_counts(db, scope.scope_key.as_str()) {
                    Some(counts) => self.proceed(db, crawler_name, scope, counts),
                    None => {
                        let login = scope.scope_key.clone();
                        self.stage = Stage::NeedsProfile { scope };
                        Action::FetchProfile(login)
                    },
                }
            },
        }
    }

    /// What a worker does with the profile that it waited for.
    pub fn got_profile(
        &mut self,
        db: &mut Db,
        crawler_name: &str,
        answer: Result<GithubUserProfile, String>,
    ) -> (r: Action)
        requires
            old(db).wf(),
            old(self).stage is NeedsProfile,
        ensures
            final(db).wf(),
            final(db).stored() == old(db).stored(),
            old(self).stage@ matches StageModel::NeedsProfile { scope } && ({
                let s = profiled(old(db)@, crawler_name@, scope, answer);
                final(db)@ == s.tables && final(self).stage@ == s.stage && r@ == s.action
            }),
    {
        let mut stage: Stage = Stage::Ready;
        std::mem::swap(&mut stage, &mut self.stage);
        match stage {
            Stage::NeedsProfile { scope } => match answer {
                Ok(p) => {
                    store_profile(db, &p);
                    let counts = Counts { following: p.following, followers: p.followers };
                    self.proceed(db, crawler_name, scope, counts)
                },
                Err(e) => {
                    db.reset_to_retry(scope.scope_key.as_str(), e.as_str());
                    Action::Again
                },
            },
            _ => Action::Again,
        }
    }

    /// What a worker does with the lists that it waited for.
    pub fn got_lists(
        &mut self,
        db: &mut Db,
        crawler_name: &str,
        answer: Result<ScopeResult, String>,
        now: &str,
    ) -> (r: Action)
        requires
            old(db).wf(),
            old(self).stage is Crawling,
            answer matches Ok(lists) ==> lists.following@.len() + lists.followers@.len()
                <= usize::MAX,
        ensures
            final(db).wf(),
            final(db).stored() == old(db).stored(),
            old(self).stage@ matches StageModel::Crawling { scope, degree, counts } && ({
                let s = crawled_step(
                    old(db)@,
                    crawler_name@,
                    scope,
                    degree,
                    counts,
                    answer,
                    now@,
                );
                final(db)@ == s.tables && final(self).stage@ == s.stage && r@ == s.action
            }),
    {
        let mut stage: Stage = Stage::Ready;
        std::mem::swap(&mut stage, &mut self.stage);
        match stage {
            Stage::Crawling { scope, degree, counts } => match answer {
                Ok(lists) => {
                    let priority: &str = if is_hub(counts) {
                        "low"
                    } else {
                        "normal"
                    };
                    let next: i32 = step_out(degree);
                    let terms = CrawlTerms {
                        crawler_name,
                        scope: scope.scope_key.as_str(),
                        degree: next,
                        priority,
                        now,
                    };
                    let ghost t0 = db@;
                    let left = persist(db, &terms, &lists);
                    let ghost p = progress(db@, left);
                    Action::Finished(events_of(&left, scope.scope_key.as_str(), degree, counts))
                },
                Err(e) => {
                    db.reset_to_retry(scope.scope_key.as_str(), e.as_str());
                    let events: Vec<CrawlEvent> = Vec::new();
                    assert(event_models(events@) =~= Seq::empty());
                    Action::Finished(events)
                },
            },
            _ => Action::Again,
        }
    }
}

/// The events of a finished crawl.
fn events_of(left: &Persisted, scope: &str, degree: i32, counts: Counts) -> (r: Vec<CrawlEvent>)
    ensures
        forall|t: Tables|
            event_models(r@) == crawl_events(
                #[trigger] progress(t, *left),
                scope@,
                degree,
                counts,
            ),
{
    let ghost queued = views(left.newly_queued@);
    let ghost f = |login: Seq<char>|
        EventModel::Queued { login, degree: next_degree(degree), parent_login: scope@ };
    let next: i32 = step_out(degree);
    let mut r: Vec<CrawlEvent> = Vec::new();
    r.push(
        CrawlEvent::UserDone {
            login: scope.to_owned(),
            degree,
            new_connections: left.connections,
            following_count: counts.following,
            followers_count: counts.followers,
        },
    );
    let ghost head = event_models(r@);
    let mut i: usize = 0;
    assert(event_models(r@) =~= head + queued.take(0).map_values(f));
    while i < left.newly_queued.len()
        invariant
            i <= left.newly_queued@.len(),
            queued == views(left.newly_queued@),
            next == next_degree(degree),
            f == (|login: Seq<char>|
                EventModel::Queued { login, degree: next_degree(degree), parent_login: scope@ }),
            event_models(r@) == head + queued.take(i as int).map_values(f),
        decreases left.newly_queued@.len() - i,
    {
        let ghost r0 = event_models(r@);
        assert(queued[i as int] == left.newly_queued@[i as int]@);
        let e = CrawlEvent::UserQueued {
            login: left.newly_queued[i].clone(),
            degree: next,
            parent_login: scope.to_owned(),
        };
        let ghost m = e@;
        r.push(e);
        assert(event_models(r@) =~= r0.push(m));
        assert(m == f(queued[i as int]));
        assert(head + queued.take(i + 1).map_values(f) =~= (head + queued.take(
            i as int,
        ).map_values(f)).push(m));
        i = i + 1;
    }
    assert(queued.take(i as int) =~= queued);
    proof {
        assert forall|t: Tables|
            event_models(r@) == crawl_events(
                #[trigger] progress(t, *left),
                scope@,
                degree,
                counts,
            ) by {
            let p = progress(t, *left);
            assert(p.queued == queued);
            assert(head =~= seq![
                EventModel::Done {
                    login: scope@,
                    degree,
                    new_connections: left.connections,
                    following_count: counts.following,
                    followers_count: counts.followers,
                },
            ]);
        }
    }
    r
}

// ── Rate limit ──────────────────────────────────────────────────────────────

/// How many requests are to be left at least.
pub const LOW_WATER: u32 = 5;

/// How long to wait, in seconds, where the end of the window is not known.
pub const DEFAULT_WAIT: u64 = 60;

/// How many seconds the crawling is to rest: until the window ends where hardly
/// any requests are left, else not at all.
pub fn rate_pause(limit: RateLimit, now: i64) -> (r: Option<u64>)
    ensures
        r == (if limit.remaining >= LOW_WATER {
            None
        } else if limit.reset_at > now {
            Some((limit.reset_at - now) as u64)
        } else {
            Some(DEFAULT_WAIT)
        }),
        r is None <==> limit.remaining >= 5,
        limit.remaining < 5 && limit.reset_at > now ==> r->0 == limit.reset_at - now,
        limit.remaining < 5 && limit.reset_at <= now ==> r->0 == 60,
{
    if limit.remaining >= LOW_WATER {
        None
    } else if limit.reset_at > now {
        Some((limit.reset_at as i128 - now as i128) as u64)
    } else {
        Some(DEFAULT_WAIT)
    }
}

/// Whether a rest goes on, which is asked every second.
pub fn keeps_resting(flags: Flags) -> (r: bool)
    ensures
        r == (!flags.shutdown && !flags.paused),
{
    !flags.shutdown && !flags.paused
}

/// The models of stages and actions keep what they are of.
pub proof fn law_worker_models_keep_the_fields(stage: Stage, action: Action)
    ensures
        match stage {
            Stage::Ready => stage@ is Ready,
            Stage::NeedsProfile { scope } => stage@ == (StageModel::NeedsProfile {
                scope: scope@,
            }),
            Stage::Crawling { scope, degree, counts } => stage@ == (StageModel::Crawling {
                scope: scope@,
                degree,
                counts,
            }),
        },
        match action {
            Action::Exit => action@ is Exit,
            Action::Sleep(ms) => action@ == ActionModel::Sleep(ms),
            Action::Pause => action@ is Pause,
            Action::Again => action@ is Again,
            Action::FetchProfile(login) => action@ == ActionModel::FetchProfile(login@),
            Action::Crawl(scope) => action@ == (ActionModel::Crawl {
                key: scope.key@,
                degree: scope.degree,
            }),
            Action::Finished(events) => action@ == ActionModel::Finished(
                Seq::new(events@.len(), |i: int| events@[i]@),
            ),
        },
{
    if let Action::Finished(events) = action {
        assert(event_models(events@) =~= Seq::new(events@.len(), |i: int| events@[i]@));
    }
}

} // verus!
