//! The command line client: what it prints for the answers of the daemon.
use vstd::prelude::*;
use vstd::string::*;

use crate::db::Db;
use crate::display::{
    blue, cyan, dim, dimmed, display_width, fmt_uptime, green, grouped, in_blue, in_cyan,
    in_green, in_red, in_yellow, num, red, uptime_text, width_of, yellow,
};
use crate::text::{
    blanks, cat2, cat3, cat4, cat5, cat6, cat7, dec, dec_int, decimal, decimal_int, repeat,
};
use crate::types::{
    opt_text, CrawlEvent, EventModel, Payload, PayloadModel, ResponseModel, ServerResponse,
    StatusData, StatusModel,
};

verus! {

/// What is said where no daemon answers.
pub const NOT_RUNNING_MSG: &'static str = "gh6d daemon is not running.";

/// The words for a message of the daemon.
pub fn translate_msg(msg: &str) -> (r: &str)
    ensures
        r@ == msg@,
{
    msg
}

// ── Starting and pausing ────────────────────────────────────────────────────

/// What is printed for the answer to a control command: on success a mark and the
/// message, or a default where there is none; else a complaint.
pub open spec fn control_text(
    mark: Seq<char>,
    default: Seq<char>,
    r: ResponseModel,
) -> Result<Seq<char>, Seq<char>> {
    match r {
        ResponseModel::Ack { payload: Some(PayloadModel::Msg(m)) } => Ok(mark + " "@ + m),
        ResponseModel::Ack { payload: Some(_) } => Ok(mark + " "@ + default),
        ResponseModel::Error { msg } => Err(in_red("✗"@) + " "@ + msg),
        _ => Err(in_yellow("?"@) + " unexpected server response"@),
    }
}

/// The model of a line or a complaint.
pub open spec fn line_model(r: Result<String, String>) -> Result<Seq<char>, Seq<char>> {
    match r {
        Ok(s) => Ok(s@),
        Err(e) => Err(e@),
    }
}

fn control_line(mark: &str, default: &str, resp: &ServerResponse) -> (r: Result<String, String>)
    ensures
        line_model(r) == control_text(mark@, default@, resp@),
{
    match resp {
        ServerResponse::Ack { payload: Some(Payload::Msg(m)) } => Ok(
            cat3(mark, " ", translate_msg(m.as_str())),
        ),
        ServerResponse::Ack { payload: Some(_) } => Ok(cat3(mark, " ", default)),
        ServerResponse::Error { msg } => Err(cat3(red("✗").as_str(), " ", msg.as_str())),
        _ => Err(cat2(yellow("?").as_str(), " unexpected server response")),
    }
}

/// What is printed for the answer to `start`.
pub fn run_line(resp: &ServerResponse) -> (r: Result<String, String>)
    ensures
        line_model(r) == control_text(in_green("▶"@), "crawl started."@, resp@),
{
    control_line(green("▶").as_str(), "crawl started.", resp)
}

/// What is printed for the answer to `pause`.
pub fn pause_line(resp: &ServerResponse) -> (r: Result<String, String>)
    ensures
        line_model(r) == control_text(in_yellow("⏸"@), "crawl paused."@, resp@),
{
    control_line(yellow("⏸").as_str(), "crawl paused.", resp)
}

/// What a control command is answered is printed behind the mark: the message of the
/// daemon as it is, and words of its own where there is none. A refusal and an answer of
/// another kind are complaints.
pub proof fn law_control_answers_are_printed(
    mark: Seq<char>,
    default: Seq<char>,
    words: Seq<char>,
    s: StatusModel,
    e: EventModel,
)
    ensures
        control_text(
            mark,
            default,
            ResponseModel::Ack { payload: Some(PayloadModel::Msg(words)) },
        ) == Ok::<Seq<char>, Seq<char>>(mark + " "@ + words),
        control_text(
            mark,
            default,
            ResponseModel::Ack { payload: Some(PayloadModel::Status(s)) },
        ) == Ok::<Seq<char>, Seq<char>>(mark + " "@ + default),
        control_text(mark, default, ResponseModel::Ack { payload: Some(PayloadModel::Other) })
            == Ok::<Seq<char>, Seq<char>>(mark + " "@ + default),
        control_text(mark, default, ResponseModel::Error { msg: words }) == Err::<
            Seq<char>,
            Seq<char>,
        >(in_red("✗"@) + " "@ + words),
        control_text(mark, default, ResponseModel::Ack { payload: None }) == Err::<
            Seq<char>,
            Seq<char>,
        >(in_yellow("?"@) + " unexpected server response"@),
        control_text(mark, default, ResponseModel::Event { data: e }) == Err::<
            Seq<char>,
            Seq<char>,
        >(in_yellow("?"@) + " unexpected server response"@),
        control_text(mark, default, ResponseModel::Bye) == Err::<Seq<char>, Seq<char>>(
            in_yellow("?"@) + " unexpected server response"@,
        ),
{
}

// ── Progress ────────────────────────────────────────────────────────────────

/// The requests that are left, out of how many.
pub open spec fn api_text(s: StatusModel) -> Seq<char> {
    grouped(decimal(s.api_remaining as nat)) + "/"@ + grouped(decimal(s.api_limit as nat))
}

/// Who is being crawled.
pub open spec fn crawling_login(s: StatusModel) -> Seq<char> {
    match s.currently_crawling {
        Some(login) => login,
        None => "-"@,
    }
}

/// The left part of the progress line without colours.
pub open spec fn left_plain(s: StatusModel) -> Seq<char> {
    "crawled "@ + grouped(decimal(s.users_crawled as nat)) + "  queue "@ + grouped(
        decimal(s.users_queued as nat),
    ) + "  retry "@ + grouped(decimal(s.users_retry as nat)) + "  error "@ + grouped(
        decimal(s.users_error as nat),
    ) + "  "@ + (decimal_int(s.current_degree as int) + "°"@) + "  crawling "@ + crawling_login(s)
}

/// The right part of the progress line without colours.
pub open spec fn right_plain(s: StatusModel) -> Seq<char> {
    "up "@ + uptime_text(s.uptime_secs as nat) + "  API "@ + api_text(s)
}

/// The left part of the progress line.
pub open spec fn left_text(s: StatusModel) -> Seq<char> {
    dimmed("crawled"@) + " "@ + in_green(grouped(decimal(s.users_crawled as nat))) + "  "@ + dimmed(
        "queue"@,
    ) + " "@ + dimmed(grouped(decimal(s.users_queued as nat))) + "  "@ + dimmed("retry"@) + " "@
        + in_yellow(grouped(decimal(s.users_retry as nat))) + "  "@ + dimmed("error"@) + " "@
        + in_red(grouped(decimal(s.users_error as nat))) + "  "@ + in_cyan(
        decimal_int(s.current_degree as int) + "°"@,
    ) + "  "@ + dimmed("crawling"@) + " "@ + in_blue(crawling_login(s))
}

/// The requests that are left in the colour of their number.
pub open spec fn api_colored(s: StatusModel) -> Seq<char> {
    if s.api_remaining >= 1000 {
        in_green(api_text(s))
    } else if s.api_remaining >= 100 {
        in_yellow(api_text(s))
    } else {
        in_red(api_text(s))
    }
}

/// The right part of the progress line.
pub open spec fn right_text(s: StatusModel) -> Seq<char> {
    dimmed("up"@) + " "@ + dimmed(uptime_text(s.uptime_secs as nat)) + "  "@ + dimmed("API"@)
        + " "@ + api_colored(s)
}

/// What is left of `total` columns beside two parts, at least one column.
pub open spec fn gap(total: nat, left: nat, right: nat) -> nat {
    if left + right < total {
        (total - left - right) as nat
    } else {
        1
    }
}

/// What is left of `total` columns beside two parts, at least one column.
pub fn gap_of(total: usize, left: usize, right: usize) -> (r: usize)
    ensures
        r == gap(total as nat, left as nat, right as nat),
{
    if left < total && right < total - left {
        total - left - right
    } else {
        1
    }
}

/// The progress line where its parts have the given widths without colours.
pub open spec fn progress_text(s: StatusModel, left: nat, right: nat, columns: nat) -> Seq<char> {
    if s.paused {
        in_yellow("⏸"@) + " queue "@ + dimmed(grouped(decimal(s.users_queued as nat)))
            + "  waiting for 'gh6 run' …\n"@
    } else {
        left_text(s) + blanks(gap(columns, left, right)) + right_text(s) + "\n"@
    }
}

fn api_of(s: &StatusData) -> (r: String)
    ensures
        r@ == api_text(s@),
{
    cat3(num(s.api_remaining as u64).as_str(), "/", num(s.api_limit as u64).as_str())
}

fn login_of(s: &StatusData) -> (r: String)
    ensures
        r@ == crawling_login(s@),
{
    match &s.currently_crawling {
        Some(login) => login.clone(),
        None => "-".to_owned(),
    }
}

/// The progress line where its parts take the given columns out of `columns`.
pub fn progress_line_with(s: &StatusData, left_w: usize, right_w: usize, columns: usize) -> (r:
    String)
    ensures
        r@ == progress_text(s@, left_w as nat, right_w as nat, columns as nat),
{
    if s.paused {
        return cat4(
            yellow("⏸").as_str(),
            " queue ",
            dim(num(s.users_queued).as_str()).as_str(),
            "  waiting for 'gh6 run' …\n",
        );
    }
    let degree = cat2(dec_int(s.current_degree as i64).as_str(), "°");
    let mut left = cat7(
        dim("crawled").as_str(),
        " ",
        green(num(s.users_crawled).as_str()).as_str(),
        "  ",
        dim("queue").as_str(),
        " ",
        dim(num(s.users_queued).as_str()).as_str(),
    );
    left.append("  ");
    left.append(dim("retry").as_str());
    left.append(" ");
    left.append(yellow(num(s.users_retry).as_str()).as_str());
    left.append("  ");
    left.append(dim("error").as_str());
    left.append(" ");
    left.append(red(num(s.users_error).as_str()).as_str());
    left.append("  ");
    left.append(cyan(degree.as_str()).as_str());
    left.append("  ");
    left.append(dim("crawling").as_str());
    left.append(" ");
    left.append(blue(login_of(s).as_str()).as_str());
    let api = api_of(s);
    let api: String = if s.api_remaining >= 1000 {
        green(api.as_str())
    } else if s.api_remaining >= 100 {
        yellow(api.as_str())
    } else {
        red(api.as_str())
    };
    let right = cat7(
        dim("up").as_str(),
        " ",
        dim(fmt_uptime(s.uptime_secs).as_str()).as_str(),
        "  ",
        dim("API").as_str(),
        " ",
        api.as_str(),
    );
    let pad = repeat(" ", gap_of(columns, left_w, right_w));
    cat4(left.as_str(), pad.as_str(), right.as_str(), "\n")
}

/// The progress line for a terminal of `columns` columns: counters on the left,
/// uptime and requests on the right.
pub fn progress_line(s: &StatusData, columns: usize) -> (r: String)
    ensures
        r@ == progress_text(
            s@,
            display_width(left_plain(s@)),
            display_width(right_plain(s@)),
            columns as nat,
        ),
{
    let degree = cat2(dec_int(s.current_degree as i64).as_str(), "°");
    let mut left = cat7(
        "crawled ",
        num(s.users_crawled).as_str(),
        "  queue ",
        num(s.users_queued).as_str(),
        "  retry ",
        num(s.users_retry).as_str(),
        "  error ",
    );
    left.append(num(s.users_error).as_str());
    left.append("  ");
    left.append(degree.as_str());
    left.append("  crawling ");
    left.append(login_of(s).as_str());
    let right = cat4("up ", fmt_uptime(s.uptime_secs).as_str(), "  API ", api_of(s).as_str());
    progress_line_with(s, width_of(left.as_str()), width_of(right.as_str()), columns)
}

/// The requests that are left are green from a thousand on, yellow from a hundred on, and
/// red below, and stand before how many there are.
pub proof fn law_requests_have_a_colour(s: StatusModel)
    ensures
        api_text(s) == grouped(decimal(s.api_remaining as nat)) + "/"@ + grouped(
            decimal(s.api_limit as nat),
        ),
        s.api_remaining >= 1000 ==> api_colored(s) == in_green(api_text(s)),
        100 <= s.api_remaining < 1000 ==> api_colored(s) == in_yellow(api_text(s)),
        s.api_remaining < 100 ==> api_colored(s) == in_red(api_text(s)),
{
}

/// The two parts of a progress line fill the columns where they leave one at least, and
/// one blank is between them where they do not; while the crawling is paused there is one
/// part only, which shows the queue.
pub proof fn law_progress_line_fills_the_columns(
    s: StatusModel,
    left: nat,
    right: nat,
    columns: nat,
)
    ensures
        left + right < columns ==> left + gap(columns, left, right) + right == columns,
        left + right >= columns ==> gap(columns, left, right) == 1,
        !s.paused ==> progress_text(s, left, right, columns) == left_text(s) + blanks(
            gap(columns, left, right),
        ) + right_text(s) + "\n"@,
        s.paused ==> progress_text(s, left, right, columns) == in_yellow("⏸"@) + " queue "@
            + dimmed(grouped(decimal(s.users_queued as nat))) + "  waiting for 'gh6 run' …\n"@,
        s.currently_crawling is None ==> crawling_login(s) == "-"@,
        s.currently_crawling is Some ==> crawling_login(s) == s.currently_crawling->0,
{
}

// ── Watching ────────────────────────────────────────────────────────────────

/// The degree in brackets.
pub open spec fn tag(degree: i32) -> Seq<char> {
    "["@ + decimal_int(degree as int) + "°]"@
}

/// The degree in brackets.
pub fn tag_of(degree: i32) -> (r: String)
    ensures
        r@ == tag(degree),
{
    cat3("[", dec_int(degree as i64).as_str(), "°]")
}

/// What is printed of a line from the daemon: events and the farewell.
pub open spec fn event_text(r: ResponseModel) -> Option<Seq<char>> {
    match r {
        ResponseModel::Event { data } => Some(
            match data {
                EventModel::Done { login, degree, new_connections, .. } => in_cyan(tag(degree))
                    + " "@ + login + "  "@ + in_green("done"@) + "  +"@ + decimal(
                    new_connections as nat,
                ) + " connections"@,
                EventModel::Queued { login, degree, .. } => dimmed(tag(degree)) + " "@ + login
                    + "  "@ + dimmed("queued"@),
            },
        ),
        ResponseModel::Bye => Some(in_yellow("👋 server shutting down"@)),
        _ => None,
    }
}

/// Who is done is printed with the number of connections, who was queued without one,
/// both behind their degree; the farewell is printed too, and answers are not.
pub proof fn law_events_are_printed(
    login: Seq<char>,
    degree: i32,
    new_connections: usize,
    following_count: i64,
    followers_count: i64,
    parent_login: Seq<char>,
    payload: Option<PayloadModel>,
)
    ensures
        tag(degree) == "["@ + decimal_int(degree as int) + "°]"@,
        event_text(
            ResponseModel::Event {
                data: EventModel::Done {
                    login,
                    degree,
                    new_connections,
                    following_count,
                    followers_count,
                },
            },
        ) == Some(
            in_cyan(tag(degree)) + " "@ + login + "  "@ + in_green("done"@) + "  +"@ + decimal(
                new_connections as nat,
            ) + " connections"@,
        ),
        event_text(
            ResponseModel::Event { data: EventModel::Queued { login, degree, parent_login } },
        ) == Some(dimmed(tag(degree)) + " "@ + login + "  "@ + dimmed("queued"@)),
        event_text(ResponseModel::Bye) == Some(in_yellow("👋 server shutting down"@)),
        event_text(ResponseModel::Error { msg: login }) is None,
        event_text(ResponseModel::Ack { payload }) is None,
{
}

/// What is printed of a line from the daemon.
pub fn print_event(resp: &ServerResponse) -> (r: Option<String>)
    ensures
        opt_text(r) == event_text(resp@),
{
    match resp {
        ServerResponse::Event { data } => match data {
            CrawlEvent::UserDone {
                login,
                degree,
                new_connections,
                following_count: _,
                followers_count: _,
            } => {
                let mut line = cat6(
                    cyan(tag_of(*degree).as_str()).as_str(),
                    " ",
                    login.as_str(),
                    "  ",
                    green("done").as_str(),
                    "  +",
                );
                line.append(dec(*new_connections as u64).as_str());
                line.append(" connections");
                Some(line)
            },
            CrawlEvent::UserQueued { login, degree, parent_login: _ } => Some(
                cat5(
                    dim(tag_of(*degree).as_str()).as_str(),
                    " ",
                    login.as_str(),
                    "  ",
                    dim("queued").as_str(),
                ),
            ),
        },
        ServerResponse::Bye => Some(yellow("👋 server shutting down")),
        _ => None,
    }
}

/// What `status --watch` knows between two lines from the daemon.
pub struct Watcher {
    /// The latest snapshot.
    pub status: Option<StatusData>,
    /// A progress line is on the screen.
    pub has_progress: bool,
}

/// What is to be printed for a line from the daemon, in this order.
pub struct WatchOutput {
    /// The progress line on the screen goes first.
    pub erase: bool,
    /// A line.
    pub line: Option<String>,
    /// A new progress line.
    pub progress: Option<String>,
    /// Nothing more comes.
    pub stop: bool,
}

/// The snapshot that is known after a line from the daemon.
pub open spec fn known_status(before: Option<StatusModel>, r: ResponseModel) -> Option<
    StatusModel,
> {
    match r {
        ResponseModel::Ack { payload: Some(PayloadModel::Status(s)) } => Some(s),
        _ => before,
    }
}

/// The latest snapshot is known, until the next one comes.
pub proof fn law_latest_snapshot_is_known(
    before: Option<StatusModel>,
    s: StatusModel,
    words: Seq<char>,
    e: EventModel,
)
    ensures
        known_status(before, ResponseModel::Ack { payload: Some(PayloadModel::Status(s)) })
            == Some(s),
        known_status(before, ResponseModel::Ack { payload: Some(PayloadModel::Msg(words)) })
            == before,
        known_status(before, ResponseModel::Ack { payload: Some(PayloadModel::Other) }) == before,
        known_status(before, ResponseModel::Ack { payload: None }) == before,
        known_status(before, ResponseModel::Error { msg: words }) == before,
        known_status(before, ResponseModel::Event { data: e }) == before,
        known_status(before, ResponseModel::Bye) == before,
{
}

/// The model of an optional snapshot.
pub open spec fn opt_status(o: Option<StatusData>) -> Option<StatusModel> {
    match o {
        Some(s) => Some(s@),
        None => None,
    }
}

impl Watcher {
    /// Nothing is known yet.
    pub fn new() -> (r: Watcher)
        ensures
            r.status is None,
            !r.has_progress,
    {
        Watcher { status: None, has_progress: false }
    }

    /// What is to be printed for a line from the daemon: the event, and with
    /// `progress` a progress line below it in place of the one that was there.
    pub fn on_response(&mut self, resp: ServerResponse, progress: bool, columns: usize) -> (r:
        WatchOutput)
        ensures
            opt_status(final(self).status) == known_status(opt_status(old(self).status), resp@),
            final(self).has_progress == (old(self).has_progress || (progress
                && final(self).status is Some)),
            r.erase == (progress && old(self).has_progress),
            opt_text(r.line) == event_text(resp@),
            opt_text(r.progress) == (if progress && final(self).status is Some {
                Some(
                    progress_text(
                        final(self).status->0@,
                        display_width(left_plain(final(self).status->0@)),
                        display_width(right_plain(final(self).status->0@)),
                        columns as nat,
                    ),
                )
            } else {
                None
            }),
            r.stop == (resp@ is Bye),
    {
        let erase: bool = progress && self.has_progress;
        let line = print_event(&resp);
        let stop: bool = matches!(resp, ServerResponse::Bye);
        if let ServerResponse::Ack { payload: Some(Payload::Status(s)) } = resp {
            self.status = Some(s);
        }
        let mut bar: Option<String> = None;
        if progress {
            if let Some(s) = &self.status {
                bar = Some(progress_line(s, columns));
            }
            if self.status.is_some() {
                self.has_progress = true;
            }
        }
        WatchOutput { erase, line, progress: bar, stop }
    }
}

// ── Analyses ────────────────────────────────────────────────────────────────

/// Where a route starts: where it was told to, else at the seed.
pub fn route_start(db: &Db, from: Option<String>) -> (r: Option<String>)
    requires
        db.wf(),
    ensures
        opt_text(r) == (if from is Some {
            opt_text(from)
        } else if db@.config.dom().contains("seed"@) {
            Some(db@.config["seed"@])
        } else {
            None
        }),
{
    match from {
        Some(login) => Some(login),
        None => db.get_config("seed"),
    }
}

/// What is printed after an export.
pub fn export_line(users: usize, edges: usize, file: &str) -> (r: String)
    ensures
        r@ == in_green("📦"@) + " "@ + decimal(users as nat) + " users, "@ + decimal(edges as nat)
            + " edges → "@ + dimmed(file@),
{
    cat7(
        green("📦").as_str(),
        " ",
        dec(users as u64).as_str(),
        " users, ",
        dec(edges as u64).as_str(),
        " edges → ",
        dim(file).as_str(),
    )
}

/// The progress line shows each counter under its own name, in its own colour where there
/// are colours, and with the same words where there are none.
pub proof fn law_progress_line_shows_the_counters(s: StatusModel)
    ensures
        left_plain(s) == "crawled "@ + grouped(decimal(s.users_crawled as nat)) + "  queue "@
            + grouped(decimal(s.users_queued as nat)) + "  retry "@ + grouped(
            decimal(s.users_retry as nat),
        ) + "  error "@ + grouped(decimal(s.users_error as nat)) + "  "@ + (decimal_int(
            s.current_degree as int,
        ) + "°"@) + "  crawling "@ + crawling_login(s),
        right_plain(s) == "up "@ + uptime_text(s.uptime_secs as nat) + "  API "@ + api_text(s),
        left_text(s) == dimmed("crawled"@) + " "@ + in_green(
            grouped(decimal(s.users_crawled as nat)),
        ) + "  "@ + dimmed("queue"@) + " "@ + dimmed(grouped(decimal(s.users_queued as nat)))
            + "  "@ + dimmed("retry"@) + " "@ + in_yellow(grouped(decimal(s.users_retry as nat)))
            + "  "@ + dimmed("error"@) + " "@ + in_red(grouped(decimal(s.users_error as nat)))
            + "  "@ + in_cyan(decimal_int(s.current_degree as int) + "°"@) + "  "@ + dimmed(
            "crawling"@,
        ) + " "@ + in_blue(crawling_login(s)),
        right_text(s) == dimmed("up"@) + " "@ + dimmed(uptime_text(s.uptime_secs as nat)) + "  "@
            + dimmed("API"@) + " "@ + api_colored(s),
{
}

/// The models of lines and snapshots keep what they are of.
pub proof fn law_line_models_keep_the_text(words: String, s: StatusData)
    ensures
        line_model(Ok(words)) == Ok::<Seq<char>, Seq<char>>(words@),
        line_model(Err(words)) == Err::<Seq<char>, Seq<char>>(words@),
        opt_status(Some(s)) == Some(s@),
        opt_status(None) is None,
{
}

} // verus!
