//! The types that the modules share.
//!
//! A type that holds text has a model, its view, in which every text is the
//! sequence of its characters.
use vstd::prelude::*;
use vstd::string::*;

verus! {

/// The characters of an optional text.
pub open spec fn opt_text(o: Option<String>) -> Option<Seq<char>> {
    match o {
        Some(s) => Some(s@),
        None => None,
    }
}

/// A copy of an optional text.
pub fn copy_text(o: &Option<String>) -> (r: Option<String>)
    ensures
        opt_text(r) == opt_text(*o),
{
    match o {
        Some(s) => Some(s.clone()),
        None => None,
    }
}

// ── What GitHub returns ─────────────────────────────────────────────────────

/// The full profile of a user.
#[derive(Debug, Clone)]
pub struct GithubUserProfile {
    pub login: String,
    pub name: Option<String>,
    pub avatar_url: Option<String>,
    pub company: Option<String>,
    pub location: Option<String>,
    pub followers: i64,
    pub following: i64,
    pub public_repos: i64,
    pub created_at: Option<String>,
    pub updated_at: Option<String>,
}

/// What a profile says beyond the login.
pub struct ProfileModel {
    pub name: Option<Seq<char>>,
    pub avatar_url: Option<Seq<char>>,
    pub company: Option<Seq<char>>,
    pub location: Option<Seq<char>>,
    pub followers: i64,
    pub following: i64,
    pub public_repos: i64,
    pub created_at: Option<Seq<char>>,
    pub updated_at: Option<Seq<char>>,
}

impl GithubUserProfile {
    pub open spec fn facts(self) -> ProfileModel {
        ProfileModel {
            name: opt_text(self.name),
            avatar_url: opt_text(self.avatar_url),
            company: opt_text(self.company),
            location: opt_text(self.location),
            followers: self.followers,
            following: self.following,
            public_repos: self.public_repos,
            created_at: opt_text(self.created_at),
            updated_at: opt_text(self.updated_at),
        }
    }

    /// A copy of the profile.
    pub fn copy(&self) -> (r: GithubUserProfile)
        ensures
            r.login@ == self.login@,
            r.facts() == self.facts(),
    {
        GithubUserProfile {
            login: self.login.clone(),
            name: copy_text(&self.name),
            avatar_url: copy_text(&self.avatar_url),
            company: copy_text(&self.company),
            location: copy_text(&self.location),
            followers: self.followers,
            following: self.following,
            public_repos: self.public_repos,
            created_at: copy_text(&self.created_at),
            updated_at: copy_text(&self.updated_at),
        }
    }
}

/// The little that a list of followed users or followers says of each of them.
/// It holds no profile, so nothing in it can be mistaken for one.
#[derive(Debug, Clone)]
pub struct GithubUserSummary {
    pub login: String,
    pub avatar_url: Option<String>,
}

/// The logins of a list of summaries.
pub open spec fn summary_logins(s: Seq<GithubUserSummary>) -> Seq<Seq<char>> {
    s.map_values(|g: GithubUserSummary| g.login@)
}

/// How many requests are left in the current window, and when it ends.
#[derive(Debug, Clone, Copy, PartialEq, Eq)]
pub struct RateLimit {
    pub limit: u32,
    /// Remaining requests in the current window.
    pub remaining: u32,
    /// Unix timestamp (seconds) of the end of the window.
    pub reset_at: i64,
}

// ── Rows of the database ────────────────────────────────────────────────────

/// A user together with the profile, as far as one has been fetched.
#[derive(Debug, Clone)]
pub struct User {
    pub id: i64,
    pub login: String,
    pub name: Option<String>,
    pub avatar_url: Option<String>,
    pub company: Option<String>,
    pub location: Option<String>,
    pub followers: Option<i64>,
    pub following: Option<i64>,
    pub public_repos: Option<i64>,
    pub created_at: Option<String>,
    pub updated_at: Option<String>,
}

pub struct UserModel {
    pub id: i64,
    pub login: Seq<char>,
    pub name: Option<Seq<char>>,
    pub avatar_url: Option<Seq<char>>,
    pub company: Option<Seq<char>>,
    pub location: Option<Seq<char>>,
    pub followers: Option<i64>,
    pub following: Option<i64>,
    pub public_repos: Option<i64>,
    pub created_at: Option<Seq<char>>,
    pub updated_at: Option<Seq<char>>,
}

impl View for User {
    type V = UserModel;

    open spec fn view(&self) -> UserModel {
        UserModel {
            id: self.id,
            login: self.login@,
            name: opt_text(self.name),
            avatar_url: opt_text(self.avatar_url),
            company: opt_text(self.company),
            location: opt_text(self.location),
            followers: self.followers,
            following: self.following,
            public_repos: self.public_repos,
            created_at: opt_text(self.created_at),
            updated_at: opt_text(self.updated_at),
        }
    }
}

/// The models of a list of users.
pub open spec fn user_models(s: Seq<User>) -> Seq<UserModel> {
    s.map_values(|u: User| u@)
}

/// The models of lists of users.
pub open spec fn path_models(s: Seq<Vec<User>>) -> Seq<Seq<UserModel>> {
    s.map_values(|p: Vec<User>| user_models(p@))
}

/// An edge to be stored. The weight is kept as the bits of a double.
#[derive(Debug, Clone)]
pub struct NewEdge {
    pub from_user_id: i64,
    pub to_user_id: i64,
    pub edge_type: String,
    pub weight_bits: u64,
    pub degree: i32,
    pub metadata: Option<String>,
}

/// The bits of the double one.
pub const WEIGHT_ONE: u64 = 0x3FF0_0000_0000_0000;

/// A stored edge with its lifetime.
#[derive(Debug, Clone)]
pub struct Edge {
    pub from_user_id: i64,
    pub to_user_id: i64,
    pub edge_type: String,
    pub weight_bits: u64,
    pub degree: i32,
    pub metadata: Option<String>,
    pub is_active: bool,
    pub first_seen_at: Option<String>,
    pub last_seen_at: Option<String>,
    pub removed_at: Option<String>,
}

pub struct EdgeModel {
    pub from: i64,
    pub to: i64,
    pub kind: Seq<char>,
    pub weight_bits: u64,
    pub degree: i32,
    pub metadata: Option<Seq<char>>,
    pub is_active: bool,
    pub first_seen_at: Option<Seq<char>>,
    pub last_seen_at: Option<Seq<char>>,
    pub removed_at: Option<Seq<char>>,
}

impl NewEdge {
    /// The row that the edge becomes when it is first seen at `now`.
    pub open spec fn seen(self, now: Seq<char>) -> EdgeModel {
        EdgeModel {
            from: self.from_user_id,
            to: self.to_user_id,
            kind: self.edge_type@,
            weight_bits: self.weight_bits,
            degree: self.degree,
            metadata: opt_text(self.metadata),
            is_active: true,
            first_seen_at: Some(now),
            last_seen_at: Some(now),
            removed_at: None,
        }
    }
}

impl View for Edge {
    type V = EdgeModel;

    open spec fn view(&self) -> EdgeModel {
        EdgeModel {
            from: self.from_user_id,
            to: self.to_user_id,
            kind: self.edge_type@,
            weight_bits: self.weight_bits,
            degree: self.degree,
            metadata: opt_text(self.metadata),
            is_active: self.is_active,
            first_seen_at: opt_text(self.first_seen_at),
            last_seen_at: opt_text(self.last_seen_at),
            removed_at: opt_text(self.removed_at),
        }
    }
}

impl Edge {
    /// A copy of the edge.
    pub fn copy(&self) -> (r: Edge)
        ensures
            r@ == self@,
    {
        Edge {
            from_user_id: self.from_user_id,
            to_user_id: self.to_user_id,
            edge_type: self.edge_type.clone(),
            weight_bits: self.weight_bits,
            degree: self.degree,
            metadata: copy_text(&self.metadata),
            is_active: self.is_active,
            first_seen_at: copy_text(&self.first_seen_at),
            last_seen_at: copy_text(&self.last_seen_at),
            removed_at: copy_text(&self.removed_at),
        }
    }
}

/// The models of a list of edges.
pub open spec fn edge_models(s: Seq<Edge>) -> Seq<EdgeModel> {
    s.map_values(|e: Edge| e@)
}

/// How many users have edges at a degree.
#[derive(Debug, Clone, Copy, PartialEq, Eq)]
pub struct DegreeDist {
    pub degree: i32,
    pub count: i64,
}

// ── Crawling ────────────────────────────────────────────────────────────────

/// A user to be crawled and the distance from the seed.
#[derive(Debug, Clone)]
pub struct CrawlScope {
    pub key: String,
    pub degree: i32,
}

/// What GitHub listed for a scope.
#[derive(Debug, Clone)]
pub struct ScopeResult {
    pub following: Vec<GithubUserSummary>,
    pub followers: Vec<GithubUserSummary>,
}

/// What crawling the followed users of one user left behind.
#[derive(Debug, Clone)]
pub struct CrawlResult {
    pub following: Vec<GithubUserSummary>,
    pub new_edges: Vec<NewEdge>,
    /// Logins that entered the queue, because they were not known to it.
    pub newly_queued: Vec<String>,
}

/// What a worker is busy with.
#[derive(Debug, Clone)]
pub struct CrawlingWorker {
    pub login: String,
    pub degree: i32,
}

pub struct WorkerModel {
    pub login: Seq<char>,
    pub degree: i32,
}

impl View for CrawlingWorker {
    type V = WorkerModel;

    open spec fn view(&self) -> WorkerModel {
        WorkerModel { login: self.login@, degree: self.degree }
    }
}

/// The models of a list of workers.
pub open spec fn worker_models(s: Seq<CrawlingWorker>) -> Seq<WorkerModel> {
    s.map_values(|w: CrawlingWorker| w@)
}

/// A place in the queue, as shown to a client.
#[derive(Debug, Clone)]
pub struct QueueItem {
    pub login: String,
    pub degree: i32,
    pub priority: String,
}

pub struct QueueModel {
    pub login: Seq<char>,
    pub degree: i32,
    pub priority: Seq<char>,
}

impl View for QueueItem {
    type V = QueueModel;

    open spec fn view(&self) -> QueueModel {
        QueueModel { login: self.login@, degree: self.degree, priority: self.priority@ }
    }
}

/// The models of a list of places in the queue.
pub open spec fn queue_models(s: Seq<QueueItem>) -> Seq<QueueModel> {
    s.map_values(|q: QueueItem| q@)
}

// ── Server state and events ─────────────────────────────────────────────────

/// A snapshot of the daemon.
#[derive(Debug, Clone)]
pub struct StatusData {
    pub users_crawled: u64,
    pub users_queued: u64,
    pub users_retry: u64,
    pub users_error: u64,
    pub current_degree: i32,
    pub api_remaining: u32,
    pub api_limit: u32,
    pub api_reset_at: i64,
    pub uptime_secs: u64,
    /// The login that the first busy worker crawls.
    pub currently_crawling: Option<String>,
    /// Every busy worker.
    pub workers: Vec<CrawlingWorker>,
    pub paused: bool,
    pub pending_normal: Vec<QueueItem>,
    pub pending_hub: Vec<QueueItem>,
    pub pending_retry: Vec<QueueItem>,
    pub pending_normal_count: u64,
    pub pending_hub_count: u64,
    pub pending_retry_count: u64,
}

pub struct StatusModel {
    pub users_crawled: u64,
    pub users_queued: u64,
    pub users_retry: u64,
    pub users_error: u64,
    pub current_degree: i32,
    pub api_remaining: u32,
    pub api_limit: u32,
    pub api_reset_at: i64,
    pub uptime_secs: u64,
    pub currently_crawling: Option<Seq<char>>,
    pub workers: Seq<WorkerModel>,
    pub paused: bool,
    pub pending_normal: Seq<QueueModel>,
    pub pending_hub: Seq<QueueModel>,
    pub pending_retry: Seq<QueueModel>,
    pub pending_normal_count: u64,
    pub pending_hub_count: u64,
    pub pending_retry_count: u64,
}

impl View for StatusData {
    type V = StatusModel;

    open spec fn view(&self) -> StatusModel {
        StatusModel {
            users_crawled: self.users_crawled,
            users_queued: self.users_queued,
            users_retry: self.users_retry,
            users_error: self.users_error,
            current_degree: self.current_degree,
            api_remaining: self.api_remaining,
            api_limit: self.api_limit,
            api_reset_at: self.api_reset_at,
            uptime_secs: self.uptime_secs,
            currently_crawling: opt_text(self.currently_crawling),
            workers: worker_models(self.workers@),
            paused: self.paused,
            pending_normal: queue_models(self.pending_normal@),
            pending_hub: queue_models(self.pending_hub@),
            pending_retry: queue_models(self.pending_retry@),
            pending_normal_count: self.pending_normal_count,
            pending_hub_count: self.pending_hub_count,
            pending_retry_count: self.pending_retry_count,
        }
    }
}

/// Something that happened while crawling.
#[derive(Debug, Clone)]
pub enum CrawlEvent {
    UserDone {
        login: String,
        degree: i32,
        new_connections: usize,
        following_count: i64,
        followers_count: i64,
    },
    UserQueued { login: String, degree: i32, parent_login: String },
}

pub enum EventModel {
    Done {
        login: Seq<char>,
        degree: i32,
        new_connections: usize,
        following_count: i64,
        followers_count: i64,
    },
    Queued { login: Seq<char>, degree: i32, parent_login: Seq<char> },
}

impl View for CrawlEvent {
    type V = EventModel;

    open spec fn view(&self) -> EventModel {
        match *self {
            CrawlEvent::UserDone {
                login,
                degree,
                new_connections,
                following_count,
                followers_count,
            } => EventModel::Done {
                login: login@,
                degree,
                new_connections,
                following_count,
                followers_count,
            },
            CrawlEvent::UserQueued { login, degree, parent_login } => EventModel::Queued {
                login: login@,
                degree,
                parent_login: parent_login@,
            },
        }
    }
}

/// The models of a list of events.
pub open spec fn event_models(s: Seq<CrawlEvent>) -> Seq<EventModel> {
    s.map_values(|e: CrawlEvent| e@)
}

/// What an acknowledgement carries.
#[derive(Debug, Clone)]
pub enum Payload {
    /// A short message.
    Msg(String),
    /// A snapshot of the daemon.
    Status(StatusData),
    /// Anything else.
    Other,
}

pub enum PayloadModel {
    Msg(Seq<char>),
    Status(StatusModel),
    Other,
}

impl View for Payload {
    type V = PayloadModel;

    open spec fn view(&self) -> PayloadModel {
        match *self {
            Payload::Msg(m) => PayloadModel::Msg(m@),
            Payload::Status(s) => PayloadModel::Status(s@),
            Payload::Other => PayloadModel::Other,
        }
    }
}

/// One line from the daemon to a client.
#[derive(Debug, Clone)]
pub enum ServerResponse {
    Ack { payload: Option<Payload> },
    Error { msg: String },
    Event { data: CrawlEvent },
    Bye,
}

pub enum ResponseModel {
    Ack { payload: Option<PayloadModel> },
    Error { msg: Seq<char> },
    Event { data: EventModel },
    Bye,
}

impl View for ServerResponse {
    type V = ResponseModel;

    open spec fn view(&self) -> ResponseModel {
        match *self {
            ServerResponse::Ack { payload } => ResponseModel::Ack {
                payload: match payload {
                    Some(p) => Some(p@),
                    None => None,
                },
            },
            ServerResponse::Error { msg } => ResponseModel::Error { msg: msg@ },
            ServerResponse::Event { data } => ResponseModel::Event { data: data@ },
            ServerResponse::Bye => ResponseModel::Bye,
        }
    }
}

// ── Models ──────────────────────────────────────────────────────────────────

/// A model says the same under each name as the value.
pub proof fn law_models_keep_the_fields(u: User, p: GithubUserProfile, e: Edge, n: NewEdge)
    ensures
        u@.id == u.id && u@.login == u.login@,
        u@.name == opt_text(u.name) && u@.avatar_url == opt_text(u.avatar_url),
        u@.company == opt_text(u.company) && u@.location == opt_text(u.location),
        u@.followers == u.followers && u@.following == u.following,
        u@.public_repos == u.public_repos,
        u@.created_at == opt_text(u.created_at) && u@.updated_at == opt_text(u.updated_at),
        p.facts().name == opt_text(p.name) && p.facts().avatar_url == opt_text(p.avatar_url),
        p.facts().company == opt_text(p.company) && p.facts().location == opt_text(p.location),
        p.facts().followers == p.followers && p.facts().following == p.following,
        p.facts().public_repos == p.public_repos,
        p.facts().created_at == opt_text(p.created_at),
        p.facts().updated_at == opt_text(p.updated_at),
        e@.from == e.from_user_id && e@.to == e.to_user_id && e@.kind == e.edge_type@,
        e@.weight_bits == e.weight_bits && e@.degree == e.degree,
        e@.metadata == opt_text(e.metadata) && e@.is_active == e.is_active,
        e@.first_seen_at == opt_text(e.first_seen_at),
        e@.last_seen_at == opt_text(e.last_seen_at),
        e@.removed_at == opt_text(e.removed_at),
        forall|now: Seq<char>|
            {
                let m = #[trigger] n.seen(now);
                &&& m.from == n.from_user_id && m.to == n.to_user_id && m.kind == n.edge_type@
                &&& m.weight_bits == n.weight_bits && m.degree == n.degree
                &&& m.metadata == opt_text(n.metadata)
                &&& m.is_active
                &&& m.first_seen_at == Some(now) && m.last_seen_at == Some(now)
                &&& m.removed_at is None
            },
{
}

/// The characters of an optional text are those of the text, where there is one.
pub proof fn law_optional_text(s: String)
    ensures
        opt_text(Some(s)) == Some(s@),
        opt_text(None) is None,
{
}

/// The model of a snapshot says the same under each name as the snapshot.
pub proof fn law_snapshot_model_keeps_the_fields(s: StatusData)
    ensures
        s@.users_crawled == s.users_crawled && s@.users_queued == s.users_queued,
        s@.users_retry == s.users_retry && s@.users_error == s.users_error,
        s@.current_degree == s.current_degree,
        s@.api_remaining == s.api_remaining && s@.api_limit == s.api_limit,
        s@.api_reset_at == s.api_reset_at && s@.uptime_secs == s.uptime_secs,
        s@.currently_crawling == opt_text(s.currently_crawling),
        s@.paused == s.paused,
        s@.pending_normal_count == s.pending_normal_count,
        s@.pending_hub_count == s.pending_hub_count,
        s@.pending_retry_count == s.pending_retry_count,
        s@.workers.len() == s.workers@.len(),
        forall|i: int|
            0 <= i < s.workers@.len() ==> (#[trigger] s@.workers[i]).login == s.workers@[i].login@
                && s@.workers[i].degree == s.workers@[i].degree,
        s@.pending_normal == queue_models(s.pending_normal@),
        s@.pending_hub == queue_models(s.pending_hub@),
        s@.pending_retry == queue_models(s.pending_retry@),
{
}

/// The models of a list stand at the places of their values.
pub proof fn law_list_models_keep_the_places(
    users: Seq<User>,
    edges: Seq<Edge>,
    items: Seq<QueueItem>,
    workers: Seq<CrawlingWorker>,
    events: Seq<CrawlEvent>,
    found: Seq<GithubUserSummary>,
    i: int,
)
    ensures
        user_models(users).len() == users.len(),
        0 <= i < users.len() ==> user_models(users)[i] == users[i]@,
        edge_models(edges).len() == edges.len(),
        0 <= i < edges.len() ==> edge_models(edges)[i] == edges[i]@,
        queue_models(items).len() == items.len(),
        0 <= i < items.len() ==> queue_models(items)[i] == (QueueModel {
            login: items[i].login@,
            degree: items[i].degree,
            priority: items[i].priority@,
        }),
        worker_models(workers).len() == workers.len(),
        0 <= i < workers.len() ==> worker_models(workers)[i] == (WorkerModel {
            login: workers[i].login@,
            degree: workers[i].degree,
        }),
        event_models(events).len() == events.len(),
        0 <= i < events.len() ==> event_models(events)[i] == events[i]@,
        summary_logins(found).len() == found.len(),
        0 <= i < found.len() ==> summary_logins(found)[i] == found[i].login@,
{
}

/// The model of an event or an answer is of the same kind and carries the same.
pub proof fn law_message_models_keep_the_fields(e: CrawlEvent, p: Payload, r: ServerResponse)
    ensures
        match e {
            CrawlEvent::UserDone {
                login,
                degree,
                new_connections,
                following_count,
                followers_count,
            } => e@ is Done && e@->Done_login == login@ && e@->Done_degree == degree
                && e@->new_connections == new_connections && e@->following_count
                == following_count && e@->followers_count == followers_count,
            CrawlEvent::UserQueued { login, degree, parent_login } => e@ is Queued
                && e@->Queued_login == login@ && e@->Queued_degree == degree && e@->parent_login
                == parent_login@,
        },
        match p {
            Payload::Msg(m) => p@ is Msg && p@->Msg_0 == m@,
            Payload::Status(s) => p@ is Status && p@->Status_0 == s@,
            Payload::Other => p@ is Other,
        },
        match r {
            ServerResponse::Ack { payload: Some(c) } => r@ is Ack && r@->payload == Some(c@),
            ServerResponse::Ack { payload: None } => r@ is Ack && r@->payload is None,
            ServerResponse::Error { msg } => r@ is Error && r@->msg == msg@,
            ServerResponse::Event { data } => r@ is Event && r@->data == data@,
            ServerResponse::Bye => r@ is Bye,
        },
{
}

} // verus!
