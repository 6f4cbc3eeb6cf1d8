//! The daemon: what a client's request does, what its watchers are sent, and how
//! the database is seeded. Sockets, clocks and GitHub are left to the caller.
use vstd::prelude::*;
use vstd::string::*;

use crate::crawlers::storable;
use crate::db::model::{ChangeModel, ScopeModel, Tables};
use crate::db::queue::{preview, tally, Tally};
use crate::db::{Db, DbError};
use crate::graph::first_of;
use crate::lists::lemma_filter_holds;
use crate::text::{cat2, cat3, same, trim, trimmed, views};
use crate::types::{
    opt_text, worker_models, CrawlEvent, CrawlingWorker, GithubUserProfile, Payload, PayloadModel,
    RateLimit, ResponseModel, ServerResponse, StatusData, StatusModel, WorkerModel,
};

verus! {

// ── Requests ────────────────────────────────────────────────────────────────

/// What serde_json reads in a line: the text under one key and the boolean under
/// another, as far as they are there, or what is wrong with the line.
pub uninterp spec fn json_fields(line: Seq<char>, text: Seq<char>, flag: Seq<char>) -> Result<
    (Option<Seq<char>>, Option<bool>),
    Seq<char>,
>;

/// The model of a line that was read.
pub open spec fn json_model(r: Result<(Option<String>, Option<bool>), String>) -> Result<
    (Option<Seq<char>>, Option<bool>),
    Seq<char>,
> {
    match r {
        Ok((cmd, watch)) => Ok((opt_text(cmd), watch)),
        Err(e) => Err(e@),
    }
}

/// Calls `serde_json::from_str` and picks a text and a boolean out of the value by
/// their keys. What comes out depends on the line and the keys alone and is named
/// by `json_fields`.
#[verifier::external_body]
fn read_json_fields(line: &str, text: &str, flag: &str) -> (r: Result<
    (Option<String>, Option<bool>),
    String,
>)
    ensures
        json_model(r) == json_fields(line@, text@, flag@),
{
    match serde_json::from_str::<serde_json::Value>(line) {
        Ok(value) => Ok((value[text].as_str().map(String::from), value[flag].as_bool())),
        Err(e) => Err(e.to_string()),
    }
}

/// A request of a client.
#[derive(Debug, Clone)]
pub struct Request {
    pub cmd: String,
    pub watch: bool,
}

/// The request that a line holds, by what was read in it.
pub fn request_of(read: Result<(Option<String>, Option<bool>), String>) -> (r: Result<
    Request,
    String,
>)
    ensures
        match json_model(read) {
            Ok((cmd, watch)) => r is Ok && r->Ok_0.cmd@ == (match cmd {
                Some(c) => c,
                None => ""@,
            }) && r->Ok_0.watch == (watch == Some(true)),
            Err(e) => r is Err && r->Err_0@ == "invalid JSON: "@ + e,
        },
{
    match read {
        Ok((cmd, watch)) => {
            let cmd: String = match cmd {
                Some(c) => c,
                None => "".to_owned(),
            };
            let watch: bool = match watch {
                Some(w) => w,
                None => false,
            };
            Ok(Request { cmd, watch })
        },
        Err(e) => Err(cat2("invalid JSON: ", e.as_str())),
    }
}

/// The request that a line holds. A command that is missing or no text is empty.
pub fn parse_request(line: &str) -> (r: Result<Request, String>)
    ensures
        match json_fields(trimmed(line@), "cmd"@, "watch"@) {
            Ok((cmd, watch)) => r is Ok && r->Ok_0.cmd@ == (match cmd {
                Some(c) => c,
                None => ""@,
            }) && r->Ok_0.watch == (watch == Some(true)),
            Err(e) => r is Err && r->Err_0@ == "invalid JSON: "@ + e,
        },
{
    request_of(read_json_fields(trim(line).as_str(), "cmd", "watch"))
}

/// The switches that all parts of the daemon share.
#[derive(Debug, Clone, Copy, PartialEq, Eq)]
pub struct Flags {
    /// No crawling at the moment.
    pub paused: bool,
    /// What is being fetched is to be broken off, since the daemon ends.
    pub abort: bool,
    /// The daemon is to end.
    pub shutdown: bool,
}

impl Flags {
    /// A daemon starts idle.
    pub fn new() -> (r: Flags)
        ensures
            r == (Flags { paused: true, abort: false, shutdown: false }),
    {
        Flags { paused: true, abort: false, shutdown: false }
    }

    /// Pauses the crawling.
    pub fn pause(&mut self)
        ensures
            *final(self) == (Flags { paused: true, ..*old(self) }),
    {
        self.paused = true;
    }

    /// Ends the daemon.
    pub fn stop(&mut self)
        ensures
            *final(self) == (Flags { abort: true, shutdown: true, ..*old(self) }),
    {
        self.abort = true;
        self.shutdown = true;
    }
}

/// What a client is to get.
#[derive(Debug, Clone)]
pub enum Reply {
    /// A snapshot.
    Status,
    /// A snapshot, and from then on events and snapshots.
    Watch,
    /// This answer.
    Answer(ServerResponse),
}

pub enum ReplyModel {
    Status,
    Watch,
    Answer(ResponseModel),
}

impl View for Reply {
    type V = ReplyModel;

    open spec fn view(&self) -> ReplyModel {
        match *self {
            Reply::Status => ReplyModel::Status,
            Reply::Watch => ReplyModel::Watch,
            Reply::Answer(r) => ReplyModel::Answer(r@),
        }
    }
}

/// An acknowledgement with a short message.
pub open spec fn acknowledged(msg: Seq<char>) -> ReplyModel {
    ReplyModel::Answer(ResponseModel::Ack { payload: Some(PayloadModel::Msg(msg)) })
}

/// The switches after a request. A pause lets what is being fetched come to its
/// end.
pub open spec fn flags_after(f: Flags, cmd: Seq<char>) -> Flags {
    if cmd == "start"@ {
        Flags { abort: false, paused: false, ..f }
    } else if cmd == "pause"@ {
        Flags { paused: true, ..f }
    } else {
        f
    }
}

/// What the client gets for a request.
pub open spec fn reply_to(f: Flags, cmd: Seq<char>, watch: bool) -> ReplyModel {
    if cmd == "status"@ {
        if watch {
            ReplyModel::Watch
        } else {
            ReplyModel::Status
        }
    } else if cmd == "start"@ {
        acknowledged(if f.paused {
            "started"@
        } else {
            "already running"@
        })
    } else if cmd == "pause"@ {
        acknowledged(if f.paused {
            "already paused"@
        } else {
            "paused"@
        })
    } else {
        ReplyModel::Answer(ResponseModel::Error { msg: "unknown command: "@ + cmd })
    }
}

fn acknowledge(msg: &str) -> (r: Reply)
    ensures
        r@ == acknowledged(msg@),
{
    Reply::Answer(ServerResponse::Ack { payload: Some(Payload::Msg(msg.to_owned())) })
}

/// Carries out a request: `status` asks, `start` and `pause` switch the crawling
/// on and off, anything else is unknown.
pub fn handle_request(flags: &mut Flags, request: &Request) -> (r: Reply)
    ensures
        *final(flags) == flags_after(*old(flags), request.cmd@),
        r@ == reply_to(*old(flags), request.cmd@, request.watch),
{
    proof {
        reveal_strlit("status");
        reveal_strlit("start");
        reveal_strlit("pause");
        assert("status"@.len() != "start"@.len());
        assert("status"@.len() != "pause"@.len());
        assert("start"@[0] != "pause"@[0]);
    }
    let cmd: &str = request.cmd.as_str();
    if same(cmd, "status") {
        if request.watch {
            Reply::Watch
        } else {
            Reply::Status
        }
    } else if same(cmd, "start") {
        flags.abort = false;
        let was_paused: bool = flags.paused;
        flags.paused = false;
        acknowledge(if was_paused {
            "started"
        } else {
            "already running"
        })
    } else if same(cmd, "pause") {
        let was_paused: bool = flags.paused;
        flags.pause();
        acknowledge(if was_paused {
            "already paused"
        } else {
            "paused"
        })
    } else {
        Reply::Answer(ServerResponse::Error { msg: cat2("unknown command: ", cmd) })
    }
}

/// Starting and pausing are idempotent: a second request of the same kind changes
/// nothing, and says so.
pub proof fn law_start_and_pause_are_idempotent(f: Flags, watch: bool)
    ensures
        flags_after(flags_after(f, "start"@), "start"@) == flags_after(f, "start"@),
        reply_to(flags_after(f, "start"@), "start"@, watch) == acknowledged("already running"@),
        flags_after(flags_after(f, "pause"@), "pause"@) == flags_after(f, "pause"@),
        reply_to(flags_after(f, "pause"@), "pause"@, watch) == acknowledged("already paused"@),
{
    reveal_strlit("status");
    reveal_strlit("start");
    reveal_strlit("pause");
    assert("status"@.len() != "start"@.len());
    assert("status"@.len() != "pause"@.len());
    assert("start"@[0] != "pause"@[0]);
}

/// A pause is undone by a start, and no request ends the daemon or breaks off what
/// is being fetched.
pub proof fn law_start_resumes(f: Flags, cmd: Seq<char>)
    ensures
        flags_after(f, cmd).abort ==> f.abort,
        flags_after(f, "pause"@).abort == f.abort,
        !flags_after(flags_after(f, "pause"@), "start"@).paused,
        !flags_after(flags_after(f, "pause"@), "start"@).abort,
        flags_after(f, cmd).shutdown == f.shutdown,
{
    reveal_strlit("start");
    reveal_strlit("pause");
    assert("start"@[0] != "pause"@[0]);
}

/// Asking changes nothing.
pub proof fn law_status_only_asks(f: Flags)
    ensures
        flags_after(f, "status"@) == f,
{
    reveal_strlit("status");
    reveal_strlit("start");
    reveal_strlit("pause");
    assert("status"@.len() != "start"@.len());
    assert("status"@.len() != "pause"@.len());
}

/// What each request is answered: a question with a snapshot, or with a watch where one
/// is asked for; a switch with whether it changed anything; anything else with an error
/// that repeats it.
pub proof fn law_requests_are_answered(f: Flags, cmd: Seq<char>, watch: bool)
    ensures
        reply_to(f, "status"@, true) is Watch,
        reply_to(f, "status"@, false) is Status,
        f.paused ==> reply_to(f, "start"@, watch) == ReplyModel::Answer(
            ResponseModel::Ack { payload: Some(PayloadModel::Msg("started"@)) },
        ),
        !f.paused ==> reply_to(f, "start"@, watch) == ReplyModel::Answer(
            ResponseModel::Ack { payload: Some(PayloadModel::Msg("already running"@)) },
        ),
        !f.paused ==> reply_to(f, "pause"@, watch) == ReplyModel::Answer(
            ResponseModel::Ack { payload: Some(PayloadModel::Msg("paused"@)) },
        ),
        f.paused ==> reply_to(f, "pause"@, watch) == ReplyModel::Answer(
            ResponseModel::Ack { payload: Some(PayloadModel::Msg("already paused"@)) },
        ),
        cmd != "status"@ && cmd != "start"@ && cmd != "pause"@ ==> reply_to(f, cmd, watch)
            == ReplyModel::Answer(ResponseModel::Error { msg: "unknown command: "@ + cmd }),
{
    reveal_strlit("status");
    reveal_strlit("start");
    reveal_strlit("pause");
    assert("status"@.len() != "start"@.len());
    assert("status"@.len() != "pause"@.len());
    assert("start"@[0] != "pause"@[0]);
}

/// What each request switches: a start the crawling on and a breaking off, a pause the
/// crawling off, and anything else nothing.
pub proof fn law_requests_switch(f: Flags, cmd: Seq<char>)
    ensures
        flags_after(f, "start"@) == (Flags { paused: false, abort: false, shutdown: f.shutdown }),
        flags_after(f, "pause"@) == (Flags { paused: true, abort: f.abort, shutdown: f.shutdown }),
        cmd != "start"@ && cmd != "pause"@ ==> flags_after(f, cmd) == f,
{
    reveal_strlit("start");
    reveal_strlit("pause");
    assert("start"@[0] != "pause"@[0]);
}

// ── Snapshots ───────────────────────────────────────────────────────────────

/// How many scopes of each kind a snapshot shows.
pub const QUEUE_PREVIEW: usize = 5;

/// How many waiting scopes a snapshot counts at most.
pub const QUEUE_COUNT: usize = 10_000_000;

/// The busy ones among the workers, in order.
pub open spec fn busy(workers: Seq<Option<CrawlingWorker>>) -> Seq<WorkerModel>
    decreases workers.len(),
{
    if workers.len() == 0 {
        Seq::empty()
    } else {
        let before = busy(workers.drop_last());
        match workers.last() {
            Some(w) => before.push(w@),
            None => before,
        }
    }
}

/// A snapshot of the daemon.
pub open spec fn snapshot(
    t: Tables,
    crawler: Seq<char>,
    workers: Seq<Option<CrawlingWorker>>,
    api: RateLimit,
    uptime_secs: u64,
    paused: bool,
) -> StatusModel {
    let active = busy(workers);
    StatusModel {
        users_crawled: tally(t, crawler, Tally::Status("done")) as u64,
        users_queued: first_of(t.queue(crawler), QUEUE_COUNT as nat).len() as u64,
        users_retry: tally(t, crawler, Tally::Retry) as u64,
        users_error: tally(t, crawler, Tally::Status("error")) as u64,
        current_degree: if active.len() == 0 {
            0
        } else {
            active[0].degree
        },
        api_remaining: api.remaining,
        api_limit: api.limit,
        api_reset_at: api.reset_at,
        uptime_secs,
        currently_crawling: if active.len() == 0 {
            None
        } else {
            Some(active[0].login)
        },
        workers: active,
        paused,
        pending_normal: preview(t, crawler, Tally::Fresh("normal"), QUEUE_PREVIEW as nat),
        pending_hub: preview(t, crawler, Tally::Fresh("low"), QUEUE_PREVIEW as nat),
        pending_retry: preview(t, crawler, Tally::Retry, QUEUE_PREVIEW as nat),
        pending_normal_count: tally(t, crawler, Tally::Fresh("normal")) as u64,
        pending_hub_count: tally(t, crawler, Tally::Fresh("low")) as u64,
        pending_retry_count: tally(t, crawler, Tally::Retry) as u64,
    }
}

/// One more worker is among the busy ones, behind the others, where it crawls somebody.
pub proof fn law_busy_workers_keep_their_order(
    workers: Seq<Option<CrawlingWorker>>,
    w: CrawlingWorker,
)
    ensures
        workers.len() == 0 ==> busy(workers).len() == 0,
        busy(workers.push(None)) == busy(workers),
        busy(workers.push(Some(w))).len() == busy(workers).len() + 1,
        busy(workers.push(Some(w))).drop_last() == busy(workers),
        busy(workers.push(Some(w))).last().login == w.login@,
        busy(workers.push(Some(w))).last().degree == w.degree,
{
    assert(workers.push(None).drop_last() =~= workers);
    assert(workers.push(Some(w)).drop_last() =~= workers);
    assert(busy(workers.push(Some(w))).drop_last() =~= busy(workers));
}

/// A snapshot shows what is stored and what it is told, each under its own name: the
/// counts of the scopes of the crawler by their state, the length of the queue, the first
/// five of each kind, the first busy worker, and the limits of the requests.
pub proof fn law_snapshot_shows_the_state(
    t: Tables,
    crawler: Seq<char>,
    workers: Seq<Option<CrawlingWorker>>,
    api: RateLimit,
    uptime_secs: u64,
    paused: bool,
)
    requires
        t.scopes.len() <= u64::MAX,
    ensures
        ({
            let s = snapshot(t, crawler, workers, api, uptime_secs, paused);
            &&& s.users_crawled == tally(t, crawler, Tally::Status("done"))
            &&& s.users_retry == tally(t, crawler, Tally::Retry)
            &&& s.users_error == tally(t, crawler, Tally::Status("error"))
            &&& t.queue(crawler).len() <= 10_000_000 ==> s.users_queued == t.queue(crawler).len()
            &&& t.queue(crawler).len() > 10_000_000 ==> s.users_queued == 10_000_000
            &&& s.api_remaining == api.remaining && s.api_limit == api.limit
            &&& s.api_reset_at == api.reset_at
            &&& s.uptime_secs == uptime_secs
            &&& s.paused == paused
            &&& s.workers == busy(workers)
            &&& busy(workers).len() == 0 ==> s.current_degree == 0 && s.currently_crawling is None
            &&& busy(workers).len() > 0 ==> s.current_degree == busy(workers)[0].degree
                && s.currently_crawling == Some(busy(workers)[0].login)
            &&& s.pending_normal == preview(t, crawler, Tally::Fresh("normal"), 5)
            &&& s.pending_hub == preview(t, crawler, Tally::Fresh("low"), 5)
            &&& s.pending_retry == preview(t, crawler, Tally::Retry, 5)
            &&& s.pending_normal_count == tally(t, crawler, Tally::Fresh("normal"))
            &&& s.pending_hub_count == tally(t, crawler, Tally::Fresh("low"))
            &&& s.pending_retry_count == tally(t, crawler, Tally::Retry)
        }),
{
    lemma_filter_holds(
        t.scopes,
        |s: ScopeModel| s.crawler == crawler && Tally::Status("done").holds(s),
    );
    lemma_filter_holds(
        t.scopes,
        |s: ScopeModel| s.crawler == crawler && Tally::Status("error").holds(s),
    );
    lemma_filter_holds(t.scopes, |s: ScopeModel| s.crawler == crawler && Tally::Retry.holds(s));
    lemma_filter_holds(
        t.scopes,
        |s: ScopeModel| s.crawler == crawler && Tally::Fresh("normal").holds(s),
    );
    lemma_filter_holds(
        t.scopes,
        |s: ScopeModel| s.crawler == crawler && Tally::Fresh("low").holds(s),
    );
}

fn busy_of(workers: &Vec<Option<CrawlingWorker>>) -> (r: Vec<CrawlingWorker>)
    ensures
        worker_models(r@) == busy(workers@),
{
    let mut r: Vec<CrawlingWorker> = Vec::new();
    let mut i: usize = 0;
    assert(workers@.take(0) =~= Seq::empty());
    assert(worker_models(r@) =~= Seq::empty());
    while i < workers.len()
        invariant
            i <= workers@.len(),
            worker_models(r@) == busy(workers@.take(i as int)),
        decreases workers@.len() - i,
    {
        let ghost r0 = worker_models(r@);
        assert(workers@.take(i + 1).drop_last() =~= workers@.take(i as int));
        if let Some(w) = &workers[i] {
            let copy = CrawlingWorker { login: w.login.clone(), degree: w.degree };
            let ghost m = copy@;
            r.push(copy);
            assert(worker_models(r@) =~= r0.push(m));
        }
        i = i + 1;
    }
    assert(workers@.take(i as int) =~= workers@);
    r
}

/// A snapshot of the daemon.
pub fn build_status_data(
    db: &Db,
    crawler_name: &str,
    workers: &Vec<Option<CrawlingWorker>>,
    api: RateLimit,
    uptime_secs: u64,
    paused: bool,
) -> (r: StatusData)
    requires
        db.wf(),
    ensures
        r@ == snapshot(db@, crawler_name@, workers@, api, uptime_secs, paused),
{
    let active = busy_of(workers);
    let ghost models = worker_models(active@);
    assert(models.len() == active@.len());
    let (currently_crawling, current_degree): (Option<String>, i32) = if active.len() == 0 {
        (None, 0)
    } else {
        assert(models[0] == active@[0]@);
        (Some(active[0].login.clone()), active[0].degree)
    };
    let queued = db.pending_scopes(crawler_name, QUEUE_COUNT);
    assert(views(queued@).len() == queued@.len());
    let (pending_normal, pending_hub, pending_retry) = db.queue_preview(
        crawler_name,
        QUEUE_PREVIEW,
    );
    let retry: u64 = db.get_retry_count(crawler_name) as u64;
    StatusData {
        users_crawled: db.get_crawled_count(crawler_name) as u64,
        users_queued: queued.len() as u64,
        users_retry: retry,
        users_error: db.get_error_count(crawler_name) as u64,
        current_degree,
        api_remaining: api.remaining,
        api_limit: api.limit,
        api_reset_at: api.reset_at,
        uptime_secs,
        currently_crawling,
        workers: active,
        paused,
        pending_normal,
        pending_hub,
        pending_retry,
        pending_normal_count: db.get_pending_count_by_priority(crawler_name, "normal") as u64,
        pending_hub_count: db.get_pending_count_by_priority(crawler_name, "low") as u64,
        pending_retry_count: retry,
    }
}

/// The answer that carries a snapshot.
pub fn status_response(status: StatusData) -> (r: ServerResponse)
    ensures
        r@ == (ResponseModel::Ack { payload: Some(PayloadModel::Status(status@)) }),
{
    ServerResponse::Ack { payload: Some(Payload::Status(status)) }
}

// ── Watching ────────────────────────────────────────────────────────────────

/// What the wait for the next event came to.
#[derive(Debug, Clone)]
pub enum WatchInput {
    Event(CrawlEvent),
    /// No event can come any more.
    Closed,
    /// Events were missed.
    Lagged,
    /// No event came for a while.
    Timeout,
}

/// What a watcher is sent.
pub open spec fn watch_lines(input: WatchInput, status: StatusModel, shutdown: bool) -> Seq<
    ResponseModel,
> {
    if input is Closed || input is Lagged {
        Seq::empty()
    } else {
        (match input {
            WatchInput::Event(e) => seq![ResponseModel::Event { data: e@ }],
            _ => Seq::empty(),
        }) + seq![ResponseModel::Ack { payload: Some(PayloadModel::Status(status)) }] + (
        if shutdown {
            seq![ResponseModel::Bye]
        } else {
            Seq::empty()
        })
    }
}

/// A watcher is sent an event as it came and behind it a snapshot, without an event the
/// snapshot alone, at the end of the daemon a farewell behind either, and nothing where
/// events were missed or can come no more.
pub proof fn law_watcher_is_sent(e: CrawlEvent, status: StatusModel)
    ensures
        ({
            let shot = ResponseModel::Ack { payload: Some(PayloadModel::Status(status)) };
            let told = ResponseModel::Event { data: e@ };
            &&& watch_lines(WatchInput::Event(e), status, false) == seq![told, shot]
            &&& watch_lines(WatchInput::Event(e), status, true) == seq![
                told,
                shot,
                ResponseModel::Bye,
            ]
            &&& watch_lines(WatchInput::Timeout, status, false) == seq![shot]
            &&& watch_lines(WatchInput::Timeout, status, true) == seq![shot, ResponseModel::Bye]
            &&& forall|shutdown: bool|
                (#[trigger] watch_lines(WatchInput::Closed, status, shutdown)).len() == 0
            &&& forall|shutdown: bool|
                (#[trigger] watch_lines(WatchInput::Lagged, status, shutdown)).len() == 0
        }),
{
    let shot = ResponseModel::Ack { payload: Some(PayloadModel::Status(status)) };
    let told = ResponseModel::Event { data: e@ };
    assert(watch_lines(WatchInput::Event(e), status, false) =~= seq![told, shot]);
    assert(watch_lines(WatchInput::Event(e), status, true) =~= seq![
        told,
        shot,
        ResponseModel::Bye,
    ]);
    assert(watch_lines(WatchInput::Timeout, status, false) =~= seq![shot]);
    assert(watch_lines(WatchInput::Timeout, status, true) =~= seq![shot, ResponseModel::Bye]);
}

/// The models of a list of lines.
pub open spec fn response_models(s: Seq<ServerResponse>) -> Seq<ResponseModel> {
    s.map_values(|r: ServerResponse| r@)
}

/// What a watcher is sent after a wait, and whether the watching goes on: the
/// event, if one came, then a snapshot, and at the end of the daemon a farewell.
pub fn watch_step(input: WatchInput, status: StatusData, shutdown: bool) -> (r: (
    Vec<ServerResponse>,
    bool,
))
    ensures
        response_models(r.0@) == watch_lines(input, status@, shutdown),
        r.1 == (input is Lagged || (!(input is Closed) && !shutdown)),
{
    let mut lines: Vec<ServerResponse> = Vec::new();
    match input {
        WatchInput::Closed => {
            assert(response_models(lines@) =~= watch_lines(input, status@, shutdown));
            return (lines, false);
        },
        WatchInput::Lagged => {
            assert(response_models(lines@) =~= watch_lines(input, status@, shutdown));
            return (lines, true);
        },
        WatchInput::Event(e) => {
            lines.push(ServerResponse::Event { data: e });
        },
        WatchInput::Timeout => {},
    }
    lines.push(status_response(status));
    if shutdown {
        lines.push(ServerResponse::Bye);
    }
    assert(response_models(lines@) =~= watch_lines(input, status@, shutdown));
    (lines, !shutdown)
}

// ── Starting ────────────────────────────────────────────────────────────────

/// What to do about the socket at the start.
#[derive(Debug, Clone)]
pub enum SocketStep {
    /// Bind it.
    Bind,
    /// Remove the file that a former daemon has left, and bind it.
    Replace,
    /// Another daemon is there: end with these words.
    Refuse(String),
}

/// Why a second daemon is refused.
pub open spec fn refusal(path: Seq<char>) -> Seq<char> {
    "Another gh6 crawl instance is already running (socket "@ + path
        + " exists and is live).\nUse 'gh6 stop' to stop it first, or remove the socket file manually."@
}

/// What to do about the socket at `path`, where its file is there or not, and
/// somebody answers on it or not: there is one daemon at a time.
pub fn socket_step(exists: bool, live: bool, path: &str) -> (r: SocketStep)
    ensures
        match r {
            SocketStep::Bind => !exists,
            SocketStep::Replace => exists && !live,
            SocketStep::Refuse(words) => exists && live && words@ == refusal(path@),
        },
{
    if !exists {
        SocketStep::Bind
    } else if live {
        SocketStep::Refuse(
            cat3(
                "Another gh6 crawl instance is already running (socket ",
                path,
                " exists and is live).\nUse 'gh6 stop' to stop it first, or remove the socket file manually.",
            ),
        )
    } else {
        SocketStep::Replace
    }
}

// ── Seeding ─────────────────────────────────────────────────────────────────

/// The login that `gh api /user` printed, or why there is none.
pub fn detected_login(success: bool, stdout: &str, stderr: &str) -> (r: Result<String, String>)
    ensures
        match r {
            Ok(login) => success && login@ == trimmed(stdout@) && login@.len() > 0,
            Err(e) => (!success && e@ == trimmed(stderr@)) || (success && trimmed(stdout@).len()
                == 0 && e@ == "gh returned empty login"@),
        },
{
    if !success {
        return Err(trim(stderr));
    }
    let login = trim(stdout);
    if login.as_str().unicode_len() == 0 {
        return Err("gh returned empty login".to_owned());
    }
    Ok(login)
}

/// The model of a login or of why there is none.
pub open spec fn login_model(r: Result<String, String>) -> Result<Seq<char>, Seq<char>> {
    match r {
        Ok(login) => Ok(login@),
        Err(e) => Err(e@),
    }
}

/// The seed: whom the user named, else who is logged in.
pub fn choose_seed(named: Option<String>, detected: Result<String, String>) -> (r: Result<
    String,
    String,
>)
    ensures
        login_model(r) == match (opt_text(named), login_model(detected)) {
            (Some(login), _) => Ok(login),
            (None, Ok(login)) => Ok(login),
            (None, Err(e)) => Err(
                "Could not auto-detect seed user: "@ + e
                    + ". Run with `gh6d --seed <your-login>` to specify manually."@,
            ),
        },
{
    match named {
        Some(login) => Ok(login),
        None => match detected {
            Ok(login) => Ok(login),
            Err(e) => Err(
                cat3(
                    "Could not auto-detect seed user: ",
                    e.as_str(),
                    ". Run with `gh6d --seed <your-login>` to specify manually.",
                ),
            ),
        },
    }
}

/// Whether the database is still to be seeded.
pub fn needs_seed(db: &Db) -> (r: bool)
    requires
        db.wf(),
    ensures
        r == (db@.users.len() == 0),
{
    db.get_user_count() == 0
}

/// Remembers the seed, for the analyses to start from.
pub fn note_seed(db: &mut Db, seed: &str)
    requires
        old(db).wf(),
    ensures
        final(db).wf(),
        final(db).stored() == old(db).stored(),
        final(db)@ == old(db)@.apply(
            ChangeModel::PutConfig { key: "seed"@, value: seed@ },
        ),
{
    db.set_config("seed", seed)
}

/// Stores the seed with its profile and puts it into the queue, with degree zero
/// and normal priority.
pub fn plant_seed(db: &mut Db, crawler_name: &str, seed: &str, profile: &GithubUserProfile) -> (r:
    Result<i64, DbError>)
    requires
        old(db).wf(),
    ensures
        final(db).wf(),
        final(db).stored() == old(db).stored(),
        match r {
            Ok(id) => storable(old(db)@, profile.login@) && ({
                let known = old(db)@.insert_user(profile.login@);
                id == known.id_of(profile.login@) && final(db)@ == known.apply(
                    ChangeModel::PutProfile { user_id: id, profile: profile.facts() },
                ).insert_pending_scope(crawler_name@, seed@, 0, "normal"@)
            }),
            Err(e) => e == DbError::Full && !storable(old(db)@, profile.login@) && final(db)@
                == old(db)@,
        },
{
    match db.upsert_user(profile) {
        Ok(id) => {
            db.insert_pending_scope(crawler_name, seed, 0, "normal");
            Ok(id)
        },
        Err(e) => Err(e),
    }
}

// ── Models ──────────────────────────────────────────────────────────────────

/// The models of answers keep what they are of.
pub proof fn law_answer_models_keep_the_fields(
    reply: Reply,
    lines: Seq<ServerResponse>,
    cmd: String,
    watch: Option<bool>,
    i: int,
)
    ensures
        match reply {
            Reply::Status => reply@ is Status,
            Reply::Watch => reply@ is Watch,
            Reply::Answer(r) => reply@ == ReplyModel::Answer(r@),
        },
        response_models(lines).len() == lines.len(),
        0 <= i < lines.len() ==> response_models(lines)[i] == lines[i]@,
        json_model(Ok((Some(cmd), watch))) == Ok::<
            (Option<Seq<char>>, Option<bool>),
            Seq<char>,
        >((Some(cmd@), watch)),
        json_model(Ok((None, watch))) == Ok::<(Option<Seq<char>>, Option<bool>), Seq<char>>(
            (None, watch),
        ),
        json_model(Err(cmd)) == Err::<(Option<Seq<char>>, Option<bool>), Seq<char>>(cmd@),
        login_model(Ok(cmd)) == Ok::<Seq<char>, Seq<char>>(cmd@),
        login_model(Err(cmd)) == Err::<Seq<char>, Seq<char>>(cmd@),
{
}

/// A second daemon is told which socket is live and what to do about it.
pub proof fn law_second_daemon_is_refused(path: Seq<char>)
    ensures
        refusal(path) == "Another gh6 crawl instance is already running (socket "@ + path
            + " exists and is live).\nUse 'gh6 stop' to stop it first, or remove the socket file manually."@,
{
}

} // verus!
