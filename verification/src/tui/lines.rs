//! The lines of the monitor, as coloured pieces of text.
use std::collections::VecDeque;

use vstd::prelude::*;
use vstd::string::*;

use super::{less, shown, window, App, AppModel, Panel};
use crate::client::{api_text, crawling_login, gap, gap_of, opt_status, tag, tag_of};
use crate::display::{
    cut, display_width, fmt_uptime, grouped, max_width, nats, num, pad_left, pad_left_with,
    pad_right, padded_left, padded_right, prefix_widths, truncate_str, uptime_text, widest,
    width_of,
};
use crate::text::{
    blanks, cat2, cat3, cat4, dec, dec_int, decimal, decimal_int, join, joined, repeat, same,
    views,
};
use crate::types::{
    event_models, queue_models, worker_models, CrawlEvent, CrawlingWorker, EventModel, QueueItem,
    QueueModel, StatusData, StatusModel, WorkerModel,
};

verus! {

// ── Pieces ──────────────────────────────────────────────────────────────────

/// How a piece of text is shown.
#[derive(Debug, Clone, Copy, PartialEq, Eq, Structural)]
pub enum Tone {
    Plain,
    Dim,
    Bold,
    DimBold,
    Green,
    Yellow,
    Red,
    Cyan,
    Blue,
}

/// A piece of a line.
#[derive(Debug, Clone)]
pub struct Piece {
    pub text: String,
    pub tone: Tone,
}

pub struct PieceModel {
    pub text: Seq<char>,
    pub tone: Tone,
}

impl View for Piece {
    type V = PieceModel;

    open spec fn view(&self) -> PieceModel {
        PieceModel { text: self.text@, tone: self.tone }
    }
}

/// The models of the pieces of a line.
pub open spec fn pieces(line: Seq<Piece>) -> Seq<PieceModel> {
    line.map_values(|p: Piece| p@)
}

/// The models of a list of lines.
pub open spec fn lines(all: Seq<Vec<Piece>>) -> Seq<Seq<PieceModel>> {
    all.map_values(|l: Vec<Piece>| pieces(l@))
}

/// A piece of text with its tone.
pub open spec fn piece(text: Seq<char>, tone: Tone) -> PieceModel {
    PieceModel { text, tone }
}

fn piece_of(text: String, tone: Tone) -> (r: Piece)
    ensures
        r@ == piece(text@, tone),
{
    Piece { text, tone }
}

fn words(text: &str, tone: Tone) -> (r: Piece)
    ensures
        r@ == piece(text@, tone),
{
    Piece { text: String::from_str(text), tone }
}

// ── Tables ──────────────────────────────────────────────────────────────────

/// A degree with its sign.
pub open spec fn degree_text(degree: i32) -> Seq<char> {
    decimal_int(degree as int) + "°"@
}

fn degree_of(degree: i32) -> (r: String)
    ensures
        r@ == degree_text(degree),
{
    cat2(dec_int(degree as i64).as_str(), "°")
}

/// What the two first columns take, with the blanks before each.
pub open spec fn left_width(deg_w: nat, login_w: nat) -> nat {
    2 + deg_w + 2 + login_w
}

/// The blanks between the two first columns and what stands on the right.
fn blanks_between(term_w: usize, deg_w: usize, login_w: usize, right: usize, more: usize) -> (r:
    String)
    ensures
        r@ == blanks(
            gap(term_w as nat, left_width(deg_w as nat, login_w as nat), (right + more) as nat),
        ),
{
    let left: usize = term_w.saturating_sub(4).saturating_sub(deg_w).saturating_sub(
        login_w,
    ).saturating_sub(right).saturating_sub(more);
    repeat(
        " ",
        if left > 0 {
            left
        } else {
            1
        },
    )
}

/// The widths that the two first columns share: that of the widest degree, two at
/// least, and that of the widest login.
pub open spec fn shared_widths(degs: Seq<nat>, logins: Seq<nat>) -> (nat, nat) {
    (
        if widest(degs) > 2 {
            widest(degs)
        } else {
            2
        },
        widest(logins),
    )
}

/// The degree of an event.
pub open spec fn event_degree(e: EventModel) -> i32 {
    match e {
        EventModel::Done { degree, .. } => degree,
        EventModel::Queued { degree, .. } => degree,
    }
}

/// The login of an event.
pub open spec fn event_login(e: EventModel) -> Seq<char> {
    match e {
        EventModel::Done { login, .. } => login,
        EventModel::Queued { login, .. } => login,
    }
}

/// The widths of the degrees of the events.
pub open spec fn degree_widths(events: Seq<EventModel>) -> Seq<nat> {
    events.map_values(|e: EventModel| display_width(degree_text(event_degree(e))))
}

/// The widths of the logins of the events.
pub open spec fn login_widths(events: Seq<EventModel>) -> Seq<nat> {
    events.map_values(|e: EventModel| display_width(event_login(e)))
}

/// The widths that the two first columns share, where degrees and logins have the
/// given widths.
pub fn shared_col_widths_with(degs: &Vec<usize>, logins: &Vec<usize>) -> (r: (usize, usize))
    ensures
        (r.0 as nat, r.1 as nat) == shared_widths(nats(degs@), nats(logins@)),
{
    let deg: usize = max_width(degs);
    (
        if deg > 2 {
            deg
        } else {
            2
        },
        max_width(logins),
    )
}

fn push_widths(events: &VecDeque<CrawlEvent>, degs: &mut Vec<usize>, logins: &mut Vec<usize>)
    ensures
        nats(final(degs)@) == nats(old(degs)@) + degree_widths(event_models(events@)),
        nats(final(logins)@) == nats(old(logins)@) + login_widths(event_models(events@)),
{
    let ghost es = event_models(events@);
    let ghost d0 = nats(degs@);
    let ghost l0 = nats(logins@);
    let mut i: usize = 0;
    assert(d0 + degree_widths(es.take(0)) =~= d0);
    assert(l0 + login_widths(es.take(0)) =~= l0);
    while i < events.len()
        invariant
            i <= events@.len(),
            es == event_models(events@),
            nats(degs@) == d0 + degree_widths(es.take(i as int)),
            nats(logins@) == l0 + login_widths(es.take(i as int)),
        decreases events@.len() - i,
    {
        let ghost d1 = nats(degs@);
        let ghost l1 = nats(logins@);
        assert(es[i as int] == events@[i as int]@);
        match &events[i] {
            CrawlEvent::UserDone { login, degree, .. } => {
                degs.push(width_of(degree_of(*degree).as_str()));
                logins.push(width_of(login.as_str()));
            },
            CrawlEvent::UserQueued { login, degree, .. } => {
                degs.push(width_of(degree_of(*degree).as_str()));
                logins.push(width_of(login.as_str()));
            },
        }
        assert(nats(degs@) =~= d1.push(display_width(degree_text(event_degree(es[i as int])))));
        assert(nats(logins@) =~= l1.push(display_width(event_login(es[i as int]))));
        assert(nats(degs@) =~= d0 + degree_widths(es.take(i + 1)));
        assert(nats(logins@) =~= l0 + login_widths(es.take(i + 1)));
        i = i + 1;
    }
    assert(es.take(i as int) =~= es);
}

impl App {
    /// The widths that the two first columns share in both tables: they fit every
    /// degree and every login.
    pub fn shared_col_widths(&self) -> (r: (usize, usize))
        ensures
            (r.0 as nat, r.1 as nat) == shared_widths(
                degree_widths(self@.done + self@.queue),
                login_widths(self@.done + self@.queue),
            ),
    {
        let mut degs: Vec<usize> = Vec::new();
        let mut logins: Vec<usize> = Vec::new();
        push_widths(&self.done_events, &mut degs, &mut logins);
        push_widths(&self.queue_events, &mut degs, &mut logins);
        assert(nats(degs@) =~= degree_widths(self@.done + self@.queue));
        assert(nats(logins@) =~= login_widths(self@.done + self@.queue));
        shared_col_widths_with(&degs, &logins)
    }
}

/// The header of a table, with its first two labels padded, and what it has on the
/// right.
pub open spec fn table_header(
    deg: Seq<char>,
    login: Seq<char>,
    between: nat,
    right: Seq<char>,
) -> PieceModel {
    piece("  "@ + deg + "  "@ + login + blanks(between) + right, Tone::DimBold)
}

/// The first label, padded to its column.
pub open spec fn degree_label(deg_w: nat) -> Seq<char> {
    padded_right("DEG"@, display_width("DEG"@), deg_w)
}

/// The second label, padded to its column.
pub open spec fn login_label(login_w: nat) -> Seq<char> {
    padded_right("LOGIN"@, display_width("LOGIN"@), login_w)
}

fn table_header_of(deg: &str, login: &str, between: &str, right: &str) -> (r: Piece)
    ensures
        forall|n: nat|
            between@ == #[trigger] blanks(n) ==> r@ == table_header(deg@, login@, n, right@),
{
    let mut text = cat4("  ", deg, "  ", login);
    text.append(between);
    text.append(right);
    piece_of(text, Tone::DimBold)
}

/// The header of the table of done users, where the two first labels are padded
/// already.
pub fn done_header_with(deg: &str, login: &str, deg_w: usize, login_w: usize, term_w: usize) -> (r:
    Piece)
    ensures
        r@ == table_header(
            deg@,
            login@,
            gap(term_w as nat, left_width(deg_w as nat, login_w as nat), 25),
            "  FOLLOWING  FOLLOWERS  NEW"@,
        ),
{
    let between = blanks_between(term_w, deg_w, login_w, 25, 0);
    table_header_of(deg, login, between.as_str(), "  FOLLOWING  FOLLOWERS  NEW")
}

/// The header of the table of done users.
pub fn done_header(deg_w: usize, login_w: usize, term_w: usize) -> (r: Piece)
    ensures
        r@ == table_header(
            degree_label(deg_w as nat),
            login_label(login_w as nat),
            gap(term_w as nat, left_width(deg_w as nat, login_w as nat), 25),
            "  FOLLOWING  FOLLOWERS  NEW"@,
        ),
{
    let deg = pad_right("DEG", deg_w);
    let login = pad_right("LOGIN", login_w);
    done_header_with(deg.as_str(), login.as_str(), deg_w, login_w, term_w)
}

/// The header of the table of discovered users, where the two first labels are
/// padded already.
pub fn queue_header_with(deg: &str, login: &str, deg_w: usize, login_w: usize, term_w: usize) -> (r:
    Piece)
    ensures
        r@ == table_header(
            deg@,
            login@,
            gap(term_w as nat, left_width(deg_w as nat, login_w as nat), 3),
            "VIA"@,
        ),
{
    let between = blanks_between(term_w, deg_w, login_w, 3, 0);
    table_header_of(deg, login, between.as_str(), "VIA")
}

/// The header of the table of discovered users.
pub fn queue_header(deg_w: usize, login_w: usize, term_w: usize) -> (r: Piece)
    ensures
        r@ == table_header(
            degree_label(deg_w as nat),
            login_label(login_w as nat),
            gap(term_w as nat, left_width(deg_w as nat, login_w as nat), 3),
            "VIA"@,
        ),
{
    let deg = pad_right("DEG", deg_w);
    let login = pad_right("LOGIN", login_w);
    queue_header_with(deg.as_str(), login.as_str(), deg_w, login_w, term_w)
}

/// What every row of a table starts with: the padded degree, the padded login and
/// the blanks up to what stands on the right, which takes `right` columns.
pub open spec fn row_start(deg: Seq<char>, login: Seq<char>, between: nat) -> Seq<PieceModel> {
    seq![
        piece("  "@, Tone::Plain),
        piece(deg, Tone::Cyan),
        piece("  "@, Tone::Plain),
        piece(login, Tone::Blue),
        piece(blanks(between), Tone::Plain),
    ]
}

/// A degree, padded to its column.
pub open spec fn degree_cell(degree: i32, deg_w: nat) -> Seq<char> {
    padded_left(degree_text(degree), display_width(degree_text(degree)), deg_w)
}

/// A login, padded to its column.
pub open spec fn login_cell(login: Seq<char>, login_w: nat) -> Seq<char> {
    padded_right(login, display_width(login), login_w)
}

/// A number in a column of nine characters.
pub open spec fn number_cell(n: nat) -> Seq<char> {
    padded_left(grouped(decimal(n)), grouped(decimal(n)).len(), 9)
}

fn number_cell_of(n: u64) -> (r: String)
    ensures
        r@ == number_cell(n as nat),
{
    let s = num(n);
    pad_left_with(s.as_str(), s.as_str().unicode_len(), 9)
}

/// How many connections are new.
pub open spec fn new_text(n: nat) -> Seq<char> {
    "+"@ + decimal(n)
}

/// A done user and the columns of the table.
pub struct DoneFmt<'a> {
    pub degree: i32,
    pub login: &'a str,
    pub new_connections: usize,
    pub following_count: i64,
    pub followers_count: i64,
    pub deg_w: usize,
    pub login_w: usize,
    pub term_w: usize,
}

/// The row of a done user, with its padded degree and login, and where the number
/// of new connections takes `new_w` columns.
pub open spec fn done_row(
    deg: Seq<char>,
    login: Seq<char>,
    new_w: nat,
    new_connections: nat,
    following: nat,
    followers: nat,
    left: nat,
    term_w: nat,
) -> Seq<PieceModel> {
    row_start(deg, login, gap(term_w, left, 22 + new_w)) + seq![
        piece(number_cell(following), Tone::Dim),
        piece("  "@, Tone::Plain),
        piece(number_cell(followers), Tone::Dim),
        piece("  "@, Tone::Plain),
        piece(new_text(new_connections), Tone::Green),
    ]
}

/// The row of a done user, with its padded degree and login, and where the number
/// of new connections takes `new_w` columns.
pub fn done_line_with(cfg: &DoneFmt, deg: &str, login: &str, new_w: usize) -> (r: Vec<Piece>)
    ensures
        pieces(r@) == done_row(
            deg@,
            login@,
            new_w as nat,
            cfg.new_connections as nat,
            (cfg.following_count as u64) as nat,
            (cfg.followers_count as u64) as nat,
            left_width(cfg.deg_w as nat, cfg.login_w as nat),
            cfg.term_w as nat,
        ),
{
    let between = blanks_between(cfg.term_w, cfg.deg_w, cfg.login_w, 22, new_w);
    let new = cat2("+", dec(cfg.new_connections as u64).as_str());
    let r = vec![
        words("  ", Tone::Plain),
        words(deg, Tone::Cyan),
        words("  ", Tone::Plain),
        words(login, Tone::Blue),
        piece_of(between, Tone::Plain),
        piece_of(number_cell_of(cfg.following_count as u64), Tone::Dim),
        words("  ", Tone::Plain),
        piece_of(number_cell_of(cfg.followers_count as u64), Tone::Dim),
        words("  ", Tone::Plain),
        piece_of(new, Tone::Green),
    ];
    assert(pieces(r@) =~= done_row(
        deg@,
        login@,
        new_w as nat,
        cfg.new_connections as nat,
        (cfg.following_count as u64) as nat,
        (cfg.followers_count as u64) as nat,
        left_width(cfg.deg_w as nat, cfg.login_w as nat),
        cfg.term_w as nat,
    ));
    r
}

/// The row of a done user.
pub fn format_done_line(cfg: &DoneFmt) -> (r: Vec<Piece>)
    ensures
        pieces(r@) == done_row(
            degree_cell(cfg.degree, cfg.deg_w as nat),
            login_cell(cfg.login@, cfg.login_w as nat),
            display_width(new_text(cfg.new_connections as nat)),
            cfg.new_connections as nat,
            (cfg.following_count as u64) as nat,
            (cfg.followers_count as u64) as nat,
            left_width(cfg.deg_w as nat, cfg.login_w as nat),
            cfg.term_w as nat,
        ),
{
    let deg = pad_left(degree_of(cfg.degree).as_str(), cfg.deg_w);
    let login = pad_right(cfg.login, cfg.login_w);
    let new = cat2("+", dec(cfg.new_connections as u64).as_str());
    done_line_with(cfg, deg.as_str(), login.as_str(), width_of(new.as_str()))
}

/// From whom a user was discovered.
pub open spec fn via_text(parent: Seq<char>) -> Seq<char> {
    "via "@ + parent
}

/// The row of a discovered user, with its padded degree and login, and where the
/// text on the right takes `via_w` columns.
pub open spec fn queue_row(
    deg: Seq<char>,
    login: Seq<char>,
    via_w: nat,
    parent: Seq<char>,
    left: nat,
    term_w: nat,
) -> Seq<PieceModel> {
    row_start(deg, login, gap(term_w, left, via_w)) + seq![piece(via_text(parent), Tone::Dim)]
}

/// The row of a discovered user, with its padded degree and login, and where the
/// text on the right takes `via_w` columns.
pub fn queue_line_with(
    deg: &str,
    login: &str,
    via_w: usize,
    parent_login: &str,
    deg_w: usize,
    login_w: usize,
    term_w: usize,
) -> (r: Vec<Piece>)
    ensures
        pieces(r@) == queue_row(
            deg@,
            login@,
            via_w as nat,
            parent_login@,
            left_width(deg_w as nat, login_w as nat),
            term_w as nat,
        ),
{
    let between = blanks_between(term_w, deg_w, login_w, via_w, 0);
    let r = vec![
        words("  ", Tone::Plain),
        words(deg, Tone::Cyan),
        words("  ", Tone::Plain),
        words(login, Tone::Blue),
        piece_of(between, Tone::Plain),
        piece_of(cat2("via ", parent_login), Tone::Dim),
    ];
    assert(pieces(r@) =~= queue_row(
        deg@,
        login@,
        via_w as nat,
        parent_login@,
        left_width(deg_w as nat, login_w as nat),
        term_w as nat,
    ));
    r
}

/// The row of a discovered user.
pub fn format_queue_line(
    degree: i32,
    login: &str,
    parent_login: &str,
    deg_w: usize,
    login_w: usize,
    term_w: usize,
) -> (r: Vec<Piece>)
    ensures
        pieces(r@) == queue_row(
            degree_cell(degree, deg_w as nat),
            login_cell(login@, login_w as nat),
            display_width(via_text(parent_login@)),
            parent_login@,
            left_width(deg_w as nat, login_w as nat),
            term_w as nat,
        ),
{
    let deg = pad_left(degree_of(degree).as_str(), deg_w);
    let cell = pad_right(login, login_w);
    let via = cat2("via ", parent_login);
    queue_line_with(
        deg.as_str(),
        cell.as_str(),
        width_of(via.as_str()),
        parent_login,
        deg_w,
        login_w,
        term_w,
    )
}

/// The row of an event in the table of the panel: a done user among the done, a
/// discovered one among the discovered, nothing else.
pub open spec fn row_in(
    panel: Panel,
    e: EventModel,
    deg_w: nat,
    login_w: nat,
    term_w: nat,
) -> Option<Seq<PieceModel>> {
    match (panel, e) {
        (
            Panel::Done,
            EventModel::Done { login, degree, new_connections, following_count, followers_count },
        ) => Some(
            done_row(
                degree_cell(degree, deg_w),
                login_cell(login, login_w),
                display_width(new_text(new_connections as nat)),
                new_connections as nat,
                (following_count as u64) as nat,
                (followers_count as u64) as nat,
                left_width(deg_w, login_w),
                term_w,
            ),
        ),
        (Panel::Queue, EventModel::Queued { login, degree, parent_login }) => Some(
            queue_row(
                degree_cell(degree, deg_w),
                login_cell(login, login_w),
                display_width(via_text(parent_login)),
                parent_login,
                left_width(deg_w, login_w),
                term_w,
            ),
        ),
        _ => None,
    }
}

/// The rows of the events in the table of the panel.
pub open spec fn rows_in(
    panel: Panel,
    events: Seq<EventModel>,
    deg_w: nat,
    login_w: nat,
    term_w: nat,
) -> Seq<Seq<PieceModel>>
    decreases events.len(),
{
    if events.len() == 0 {
        Seq::empty()
    } else {
        let before = rows_in(panel, events.drop_last(), deg_w, login_w, term_w);
        match row_in(panel, events.last(), deg_w, login_w, term_w) {
            Some(row) => before.push(row),
            None => before,
        }
    }
}

/// So many empty lines.
pub open spec fn empty_lines(n: nat) -> Seq<Seq<PieceModel>> {
    Seq::new(n, |i: int| Seq::<PieceModel>::empty())
}

/// The header of the table of the panel.
pub open spec fn header_of(panel: Panel, deg_w: nat, login_w: nat, term_w: nat) -> PieceModel {
    match panel {
        Panel::Done => table_header(
            degree_label(deg_w),
            login_label(login_w),
            gap(term_w, left_width(deg_w, login_w), 25),
            "  FOLLOWING  FOLLOWERS  NEW"@,
        ),
        Panel::Queue => table_header(
            degree_label(deg_w),
            login_label(login_w),
            gap(term_w, left_width(deg_w, login_w), 3),
            "VIA"@,
        ),
    }
}

/// The lines of a table in `height` lines: its header, and below it, at the
/// bottom, the rows of the events that the scrolling shows.
pub open spec fn table_lines(
    panel: Panel,
    events: Seq<EventModel>,
    scroll: nat,
    height: nat,
    deg_w: nat,
    login_w: nat,
    term_w: nat,
) -> Seq<Seq<PieceModel>> {
    if height == 0 {
        Seq::empty()
    } else {
        let data = (height - 1) as nat;
        let visible = shown(events, scroll, data);
        seq![seq![header_of(panel, deg_w, login_w, term_w)]] + empty_lines(
            less(data, visible.len()),
        ) + rows_in(panel, visible, deg_w, login_w, term_w)
    }
}

fn row_of(panel: Panel, e: &CrawlEvent, deg_w: usize, login_w: usize, term_w: usize) -> (r: Option<
    Vec<Piece>,
>)
    ensures
        r is Some <==> row_in(panel, e@, deg_w as nat, login_w as nat, term_w as nat) is Some,
        r is Some ==> pieces(r->0@) == row_in(
            panel,
            e@,
            deg_w as nat,
            login_w as nat,
            term_w as nat,
        )->0,
{
    match panel {
        Panel::Done => match e {
            CrawlEvent::UserDone {
                login,
                degree,
                new_connections,
                following_count,
                followers_count,
            } => Some(
                format_done_line(
                    &DoneFmt {
                        degree: *degree,
                        login: login.as_str(),
                        new_connections: *new_connections,
                        following_count: *following_count,
                        followers_count: *followers_count,
                        deg_w,
                        login_w,
                        term_w,
                    },
                ),
            ),
            CrawlEvent::UserQueued { .. } => None,
        },
        Panel::Queue => match e {
            CrawlEvent::UserDone { .. } => None,
            CrawlEvent::UserQueued { login, degree, parent_login } => Some(
                format_queue_line(
                    *degree,
                    login.as_str(),
                    parent_login.as_str(),
                    deg_w,
                    login_w,
                    term_w,
                ),
            ),
        },
    }
}

/// Where the window starts and ends.
fn window_of(total: usize, scroll: usize, height: usize) -> (r: (usize, usize))
    ensures
        (r.0 as nat, r.1 as nat) == window(total as nat, scroll as nat, height as nat),
        r.0 <= r.1 <= total,
{
    let end: usize = total.saturating_sub(scroll);
    (end.saturating_sub(height), end)
}

fn push_empty(out: &mut Vec<Vec<Piece>>, n: usize)
    ensures
        lines(final(out)@) == lines(old(out)@) + empty_lines(n as nat),
{
    let ghost l0 = lines(out@);
    let mut i: usize = 0;
    assert(l0 + empty_lines(0) =~= l0);
    while i < n
        invariant
            i <= n,
            lines(out@) == l0 + empty_lines(i as nat),
        decreases n - i,
    {
        let ghost l1 = lines(out@);
        let line: Vec<Piece> = Vec::new();
        assert(pieces(line@) =~= Seq::empty());
        out.push(line);
        assert(lines(out@) =~= l1.push(Seq::empty()));
        assert(lines(out@) =~= l0 + empty_lines((i + 1) as nat));
        i = i + 1;
    }
}

/// The lines of a table in `height` lines: its header, and below it, at the
/// bottom, the rows of the events that the scrolling shows.
fn table_lines_of(
    panel: Panel,
    events: &VecDeque<CrawlEvent>,
    scroll: usize,
    height: usize,
    deg_w: usize,
    login_w: usize,
    term_w: usize,
) -> (r: Vec<Vec<Piece>>)
    ensures
        lines(r@) == table_lines(
            panel,
            event_models(events@),
            scroll as nat,
            height as nat,
            deg_w as nat,
            login_w as nat,
            term_w as nat,
        ),
{
    let mut out: Vec<Vec<Piece>> = Vec::new();
    if height == 0 {
        assert(lines(out@) =~= Seq::empty());
        return out;
    }
    let ghost es = event_models(events@);
    let (start, end) = window_of(events.len(), scroll, height - 1);
    let ghost visible = shown(es, scroll as nat, (height - 1) as nat);
    let header = vec![
        match panel {
            Panel::Done => done_header(deg_w, login_w, term_w),
            Panel::Queue => queue_header(deg_w, login_w, term_w),
        },
    ];
    assert(pieces(header@) =~= seq![
        header_of(panel, deg_w as nat, login_w as nat, term_w as nat),
    ]);
    out.push(header);
    assert(lines(out@) =~= seq![
        seq![header_of(panel, deg_w as nat, login_w as nat, term_w as nat)],
    ]);
    push_empty(&mut out, (height - 1).saturating_sub(end - start));
    let ghost head = lines(out@);
    let mut i: usize = start;
    assert(visible.take(0) =~= Seq::empty());
    assert(head + Seq::<Seq<PieceModel>>::empty() =~= head);
    while i < end
        invariant
            start <= i <= end <= events@.len(),
            es == event_models(events@),
            visible == es.subrange(start as int, end as int),
            lines(out@) == head + rows_in(
                panel,
                visible.take(i - start),
                deg_w as nat,
                login_w as nat,
                term_w as nat,
            ),
        decreases end - i,
    {
        let ghost l0 = lines(out@);
        let ghost before = visible.take(i - start);
        let ghost after = visible.take(i - start + 1);
        assert(after.drop_last() =~= before);
        assert(after.last() == es[i as int]);
        assert(es[i as int] == events@[i as int]@);
        if let Some(row) = row_of(panel, &events[i], deg_w, login_w, term_w) {
            let ghost m = pieces(row@);
            out.push(row);
            assert(lines(out@) =~= l0.push(m));
            assert(lines(out@) =~= head + rows_in(
                panel,
                before,
                deg_w as nat,
                login_w as nat,
                term_w as nat,
            ).push(m));
        }
        i = i + 1;
    }
    assert(visible.take(end - start) =~= visible);
    out
}

impl App {
    /// The lines of the table of done users.
    pub fn done_lines(&self, height: usize, term_w: usize, deg_w: usize, login_w: usize) -> (r: Vec<
        Vec<Piece>,
    >)
        ensures
            lines(r@) == table_lines(
                Panel::Done,
                self@.done,
                self@.done_scroll,
                height as nat,
                deg_w as nat,
                login_w as nat,
                term_w as nat,
            ),
    {
        table_lines_of(
            Panel::Done,
            &self.done_events,
            self.done_scroll,
            height,
            deg_w,
            login_w,
            term_w,
        )
    }

    /// The lines of the table of discovered users.
    pub fn queue_lines(
        &self,
        height: usize,
        term_w: usize,
        deg_w: usize,
        login_w: usize,
    ) -> (r: Vec<Vec<Piece>>)
        ensures
            lines(r@) == table_lines(
                Panel::Queue,
                self@.queue,
                self@.queue_scroll,
                height as nat,
                deg_w as nat,
                login_w as nat,
                term_w as nat,
            ),
    {
        table_lines_of(
            Panel::Queue,
            &self.queue_events,
            self.queue_scroll,
            height,
            deg_w,
            login_w,
            term_w,
        )
    }
}

/// A table takes exactly the lines that it is given.
pub proof fn law_table_fills_its_lines(
    m: AppModel,
    height: nat,
    deg_w: nat,
    login_w: nat,
    term_w: nat,
)
    requires
        m.valid(),
    ensures
        table_lines(Panel::Done, m.done, m.done_scroll, height, deg_w, login_w, term_w).len()
            == height,
        table_lines(Panel::Queue, m.queue, m.queue_scroll, height, deg_w, login_w, term_w).len()
            == height,
{
    if height > 0 {
        let data = (height - 1) as nat;
        lemma_rows(Panel::Done, shown(m.done, m.done_scroll, data), deg_w, login_w, term_w);
        lemma_rows(Panel::Queue, shown(m.queue, m.queue_scroll, data), deg_w, login_w, term_w);
    }
}

/// Events of its kind have one row each in a table.
proof fn lemma_rows(panel: Panel, events: Seq<EventModel>, deg_w: nat, login_w: nat, term_w: nat)
    requires
        forall|i: int|
            0 <= i < events.len() ==> match panel {
                Panel::Done => (#[trigger] events[i]) is Done,
                Panel::Queue => events[i] is Queued,
            },
    ensures
        rows_in(panel, events, deg_w, login_w, term_w).len() == events.len(),
    decreases events.len(),
{
    if events.len() > 0 {
        lemma_rows(panel, events.drop_last(), deg_w, login_w, term_w);
        assert(events.last() == events[events.len() - 1]);
    }
}

// ── What comes next ─────────────────────────────────────────────────────────

/// What is said before the first snapshot.
pub open spec fn connecting() -> PieceModel {
    piece("connecting..."@, Tone::Dim)
}

/// How many scopes wait, by kind.
pub open spec fn upcoming_pieces(s: StatusModel) -> Seq<PieceModel> {
    seq![
        piece("  Upcoming  "@, Tone::Dim),
        piece("normal:"@ + decimal(s.pending_normal_count as nat), Tone::Green),
        piece("  "@, Tone::Dim),
        piece("hub:"@ + decimal(s.pending_hub_count as nat), Tone::Yellow),
        piece("  "@, Tone::Dim),
        piece("retry:"@ + decimal(s.pending_retry_count as nat), Tone::Red),
    ]
}

/// How many scopes wait, by kind.
pub fn upcoming_title(s: &StatusData) -> (r: Vec<Piece>)
    ensures
        pieces(r@) == upcoming_pieces(s@),
{
    let r = vec![
        words("  Upcoming  ", Tone::Dim),
        piece_of(cat2("normal:", dec(s.pending_normal_count).as_str()), Tone::Green),
        words("  ", Tone::Dim),
        piece_of(cat2("hub:", dec(s.pending_hub_count).as_str()), Tone::Yellow),
        words("  ", Tone::Dim),
        piece_of(cat2("retry:", dec(s.pending_retry_count).as_str()), Tone::Red),
    ];
    assert(pieces(r@) =~= upcoming_pieces(s@));
    r
}

/// A login and its degree.
pub open spec fn login_and_degree(login: Seq<char>, degree: i32) -> Seq<char> {
    login + (" ("@ + decimal_int(degree as int) + "°)"@)
}

/// The tone of a priority.
pub open spec fn priority_tone(priority: Seq<char>) -> Tone {
    if priority == "low"@ {
        Tone::Yellow
    } else if priority == "retry"@ {
        Tone::Red
    } else {
        Tone::Plain
    }
}

/// A waiting scope: with its degree where there are twelve columns, else the login
/// cut to fit.
pub open spec fn waiting(item: QueueModel, short: Seq<char>, width: nat) -> PieceModel {
    piece(
        if width >= 12 {
            login_and_degree(item.login, item.degree)
        } else {
            short
        },
        priority_tone(item.priority),
    )
}

/// The login of a waiting scope, cut to the columns.
pub open spec fn short_login(item: QueueModel, width: nat) -> Seq<char> {
    cut(item.login, prefix_widths(item.login), width)
}

/// The parentheses with a degree in them.
fn parens_of(degree: i32) -> (r: String)
    ensures
        r@ == " ("@ + decimal_int(degree as int) + "°)"@,
{
    cat3(" (", dec_int(degree as i64).as_str(), "°)")
}

/// A waiting scope, where `short` is its login cut to the columns.
pub fn upcoming_item_with(item: &QueueItem, short: &str, width: usize) -> (r: Piece)
    ensures
        r@ == waiting(item@, short@, width as nat),
{
    let text: String = if width >= 12 {
        cat2(item.login.as_str(), parens_of(item.degree).as_str())
    } else {
        String::from_str(short)
    };
    let tone = if same(item.priority.as_str(), "low") {
        Tone::Yellow
    } else if same(item.priority.as_str(), "retry") {
        Tone::Red
    } else {
        Tone::Plain
    };
    piece_of(text, tone)
}

/// The lines of a column of waiting scopes: as many as fit, then dashes.
pub open spec fn column_lines(items: Seq<QueueModel>, height: nat, width: nat) -> Seq<PieceModel> {
    let n = if items.len() < height {
        items.len()
    } else {
        height
    };
    Seq::new(
        height,
        |i: int|
            if i < n {
                waiting(items[i], short_login(items[i], width), width)
            } else {
                piece("—"@, Tone::Dim)
            },
    )
}

/// The lines of a column of waiting scopes: as many as fit, then dashes.
pub fn upcoming_column(items: &[QueueItem], height: usize, width: usize) -> (r: Vec<Piece>)
    ensures
        pieces(r@) == column_lines(queue_models(items@), height as nat, width as nat),
{
    let ghost all = column_lines(queue_models(items@), height as nat, width as nat);
    let mut r: Vec<Piece> = Vec::new();
    let mut i: usize = 0;
    while i < height
        invariant
            i <= height,
            all == column_lines(queue_models(items@), height as nat, width as nat),
            pieces(r@) =~= all.take(i as int),
        decreases height - i,
    {
        let ghost r0 = pieces(r@);
        if i < items.len() {
            let item = &items[i];
            assert(queue_models(items@)[i as int] == item@);
            let short = truncate_str(item.login.as_str(), width);
            r.push(upcoming_item_with(item, short.as_str(), width));
        } else {
            r.push(words("—", Tone::Dim));
        }
        assert(pieces(r@) =~= r0.push(all[i as int]));
        i = i + 1;
    }
    assert(all.take(i as int) =~= all);
    r
}

// ── Workers ─────────────────────────────────────────────────────────────────

/// How many busy workers are shown.
pub const SHOWN_WORKERS: usize = 5;

/// The busy workers that are shown.
pub open spec fn shown_workers(workers: Seq<WorkerModel>) -> Seq<WorkerModel> {
    workers.take(
        if workers.len() < SHOWN_WORKERS {
            workers.len() as int
        } else {
            SHOWN_WORKERS as int
        },
    )
}

/// The busy workers in words.
pub open spec fn worker_texts(workers: Seq<WorkerModel>) -> Seq<Seq<char>> {
    workers.map_values(|w: WorkerModel| login_and_degree(w.login, w.degree))
}

/// How many more there are.
pub open spec fn more_text(sep: Seq<char>, total: nat) -> Seq<char> {
    if total > SHOWN_WORKERS {
        sep + "+"@ + decimal((total - SHOWN_WORKERS) as nat) + " more"@
    } else {
        Seq::empty()
    }
}

/// The workers line without tones, with `sep` between the workers.
pub open spec fn workers_text(workers: Seq<WorkerModel>, sep: Seq<char>) -> Seq<char> {
    "crawling "@ + joined(worker_texts(shown_workers(workers)), sep) + more_text(
        sep,
        workers.len(),
    )
}

/// The pieces of the workers, two blanks between each two of them.
pub open spec fn worker_pieces(workers: Seq<WorkerModel>) -> Seq<PieceModel>
    decreases workers.len(),
{
    if workers.len() == 0 {
        Seq::empty()
    } else {
        let w = workers.last();
        let before = worker_pieces(workers.drop_last());
        let gapped = if workers.len() == 1 {
            before
        } else {
            before.push(piece("  "@, Tone::Plain))
        };
        gapped.push(piece(w.login, Tone::Blue)).push(
            piece(" ("@ + decimal_int(w.degree as int) + "°)"@, Tone::Cyan),
        )
    }
}

/// How many more there are, as a piece.
pub open spec fn more_pieces(total: nat) -> Seq<PieceModel> {
    if total > SHOWN_WORKERS {
        seq![piece(more_text("  "@, total), Tone::Dim)]
    } else {
        Seq::empty()
    }
}

/// What is said while the crawl is paused: how many users wait in the queue, and
/// what for.
pub open spec fn paused_pieces(s: StatusModel) -> Seq<PieceModel> {
    seq![
        piece("⏸ "@, Tone::Yellow),
        piece("queue "@, Tone::Dim),
        piece(grouped(decimal(s.users_queued as nat)), Tone::Dim),
        piece("  waiting for "@, Tone::Dim),
        piece("gh6 run"@, Tone::Bold),
    ]
}

fn paused_line(s: &StatusData) -> (r: Vec<Piece>)
    ensures
        pieces(r@) == paused_pieces(s@),
{
    let r = vec![
        words("⏸ ", Tone::Yellow),
        words("queue ", Tone::Dim),
        piece_of(num(s.users_queued), Tone::Dim),
        words("  waiting for ", Tone::Dim),
        words("gh6 run", Tone::Bold),
    ];
    assert(pieces(r@) =~= paused_pieces(s@));
    r
}

/// The workers line where it takes `wide` columns with two blanks between the
/// workers, `tight` columns with commas, and is `short` when cut to `term_w`.
pub open spec fn workers_line_pieces(
    status: Option<StatusModel>,
    wide: nat,
    tight: nat,
    short: Seq<char>,
    term_w: nat,
) -> Seq<PieceModel> {
    match status {
        None => seq![connecting()],
        Some(s) => if s.paused {
            paused_pieces(s)
        } else if s.workers.len() == 0 {
            seq![piece("idle"@, Tone::Dim)]
        } else if wide <= term_w {
            seq![piece("crawling "@, Tone::Dim)] + worker_pieces(shown_workers(s.workers))
                + more_pieces(s.workers.len())
        } else if tight > term_w {
            seq![piece(short, Tone::Dim)]
        } else {
            seq![piece(workers_text(s.workers, ", "@), Tone::Dim)]
        },
    }
}

fn shown_count(workers: &Vec<CrawlingWorker>) -> (n: usize)
    ensures
        n <= workers@.len(),
        shown_workers(worker_models(workers@)) == worker_models(workers@).take(n as int),
{
    if workers.len() < SHOWN_WORKERS {
        workers.len()
    } else {
        SHOWN_WORKERS
    }
}

fn more_of(sep: &str, total: usize) -> (r: String)
    ensures
        r@ == more_text(sep@, total as nat),
{
    if total > SHOWN_WORKERS {
        cat4(sep, "+", dec((total - SHOWN_WORKERS) as u64).as_str(), " more")
    } else {
        String::new()
    }
}

fn workers_text_of(workers: &Vec<CrawlingWorker>, sep: &str) -> (r: String)
    ensures
        r@ == workers_text(worker_models(workers@), sep@),
{
    let ghost all = worker_models(workers@);
    let n: usize = shown_count(workers);
    let mut texts: Vec<String> = Vec::new();
    let mut i: usize = 0;
    while i < n
        invariant
            i <= n <= workers@.len(),
            all == worker_models(workers@),
            views(texts@) =~= worker_texts(all.take(i as int)),
        decreases n - i,
    {
        let ghost t0 = views(texts@);
        let w = &workers[i];
        assert(all[i as int] == w@);
        texts.push(cat2(w.login.as_str(), parens_of(w.degree).as_str()));
        assert(views(texts@) =~= t0.push(login_and_degree(w@.login, w@.degree)));
        i = i + 1;
    }
    assert(views(texts@) == worker_texts(shown_workers(all)));
    cat3(
        "crawling ",
        join(texts.as_slice(), sep).as_str(),
        more_of(sep, workers.len()).as_str(),
    )
}

/// The workers line where it takes `wide` columns with two blanks between the
/// workers, `tight` columns with commas, and is `short` when cut to `term_w`.
pub fn workers_line_with(
    s: &StatusData,
    wide: usize,
    tight: usize,
    short: &str,
    term_w: usize,
) -> (r: Vec<Piece>)
    ensures
        pieces(r@) == workers_line_pieces(
            Some(s@),
            wide as nat,
            tight as nat,
            short@,
            term_w as nat,
        ),
{
    let ghost expected = workers_line_pieces(
        Some(s@),
        wide as nat,
        tight as nat,
        short@,
        term_w as nat,
    );
    if s.paused {
        return paused_line(s);
    }
    if s.workers.len() == 0 {
        let r = vec![words("idle", Tone::Dim)];
        assert(pieces(r@) =~= expected);
        return r;
    }
    if wide <= term_w {
        let ghost all = worker_models(s.workers@);
        let n: usize = shown_count(&s.workers);
        let mut r = vec![words("crawling ", Tone::Dim)];
        let ghost head = pieces(r@);
        assert(head =~= seq![piece("crawling "@, Tone::Dim)]);
        let mut i: usize = 0;
        assert(all.take(0) =~= Seq::empty());
        assert(head + Seq::<PieceModel>::empty() =~= head);
        while i < n
            invariant
                i <= n <= s.workers@.len(),
                all == worker_models(s.workers@),
                pieces(r@) == head + worker_pieces(all.take(i as int)),
            decreases n - i,
        {
            let ghost before = worker_pieces(all.take(i as int));
            let w = &s.workers[i];
            let ghost after = all.take(i + 1);
            assert(after.drop_last() =~= all.take(i as int));
            assert(after.last() == w@);
            let ghost gapped = if i == 0 {
                before
            } else {
                before.push(piece("  "@, Tone::Plain))
            };
            if i > 0 {
                let ghost r0 = pieces(r@);
                r.push(words("  ", Tone::Plain));
                assert(pieces(r@) =~= r0.push(piece("  "@, Tone::Plain)));
            }
            assert(pieces(r@) =~= head + gapped);
            let ghost r1 = pieces(r@);
            r.push(words(w.login.as_str(), Tone::Blue));
            r.push(piece_of(parens_of(w.degree), Tone::Cyan));
            assert(pieces(r@) =~= r1.push(piece(w@.login, Tone::Blue)).push(
                piece(" ("@ + decimal_int(w@.degree as int) + "°)"@, Tone::Cyan),
            ));
            assert(pieces(r@) =~= head + worker_pieces(after));
            i = i + 1;
        }
        let ghost r2 = pieces(r@);
        if s.workers.len() > SHOWN_WORKERS {
            r.push(piece_of(more_of("  ", s.workers.len()), Tone::Dim));
            assert(pieces(r@) =~= r2.push(piece(more_text("  "@, all.len()), Tone::Dim)));
        }
        assert(pieces(r@) =~= expected);
        return r;
    }
    if tight > term_w {
        let r = vec![words(short, Tone::Dim)];
        assert(pieces(r@) =~= expected);
        return r;
    }
    let r = vec![piece_of(workers_text_of(&s.workers, ", "), Tone::Dim)];
    assert(pieces(r@) =~= expected);
    r
}

impl App {
    /// The latest snapshot.
    pub fn snapshot(&self) -> (r: &Option<StatusData>)
        ensures
            opt_status(*r) == self@.status,
    {
        &self.status
    }

    /// What is said of the waiting scopes above their columns.
    pub fn upcoming_head(&self) -> (r: Vec<Piece>)
        ensures
            pieces(r@) == match self@.status {
                Some(s) => upcoming_pieces(s),
                None => seq![connecting()],
            },
    {
        match &self.status {
            Some(s) => upcoming_title(s),
            None => {
                let r = vec![words("connecting...", Tone::Dim)];
                assert(pieces(r@) =~= seq![connecting()]);
                r
            },
        }
    }

    /// Whom the workers crawl, in `term_w` columns.
    pub fn workers_line(&self, term_w: usize) -> (r: Vec<Piece>)
        ensures
            pieces(r@) == workers_line_pieces(
                self@.status,
                display_width(wide_text(self@.status)),
                display_width(tight_text(self@.status)),
                cut(
                    tight_text(self@.status),
                    prefix_widths(tight_text(self@.status)),
                    term_w as nat,
                ),
                term_w as nat,
            ),
    {
        match &self.status {
            Some(s) => {
                let wide = workers_text_of(&s.workers, "  ");
                let tight = workers_text_of(&s.workers, ", ");
                let short = truncate_str(tight.as_str(), term_w);
                workers_line_with(
                    s,
                    width_of(wide.as_str()),
                    width_of(tight.as_str()),
                    short.as_str(),
                    term_w,
                )
            },
            None => {
                let r = vec![words("connecting...", Tone::Dim)];
                assert(pieces(r@) =~= seq![connecting()]);
                r
            },
        }
    }
}

/// The workers line with two blanks between the workers.
pub open spec fn wide_text(status: Option<StatusModel>) -> Seq<char> {
    match status {
        Some(s) => workers_text(s.workers, "  "@),
        None => Seq::empty(),
    }
}

/// The workers line with commas between the workers.
pub open spec fn tight_text(status: Option<StatusModel>) -> Seq<char> {
    match status {
        Some(s) => workers_text(s.workers, ", "@),
        None => Seq::empty(),
    }
}

// ── Counters ────────────────────────────────────────────────────────────────

/// The counters of the queue.
pub open spec fn counter_pieces(s: StatusModel) -> Seq<PieceModel> {
    seq![
        piece("crawled "@, Tone::Dim),
        piece(grouped(decimal(s.users_crawled as nat)), Tone::Green),
        piece("  queue "@, Tone::Dim),
        piece(grouped(decimal(s.users_queued as nat)), Tone::Dim),
        piece("  retry "@, Tone::Dim),
        piece(grouped(decimal(s.users_retry as nat)), Tone::Yellow),
        piece("  error "@, Tone::Dim),
        piece(grouped(decimal(s.users_error as nat)), Tone::Red),
    ]
}

/// The counters of the queue.
pub fn counters(s: &StatusData) -> (r: Vec<Piece>)
    ensures
        pieces(r@) == counter_pieces(s@),
{
    let r = vec![
        words("crawled ", Tone::Dim),
        piece_of(num(s.users_crawled), Tone::Green),
        words("  queue ", Tone::Dim),
        piece_of(num(s.users_queued), Tone::Dim),
        words("  retry ", Tone::Dim),
        piece_of(num(s.users_retry), Tone::Yellow),
        words("  error ", Tone::Dim),
        piece_of(num(s.users_error), Tone::Red),
    ];
    assert(pieces(r@) =~= counter_pieces(s@));
    r
}

/// The tone of the number of requests that are left.
pub open spec fn quota_tone(remaining: u32) -> Tone {
    if remaining >= 1000 {
        Tone::Green
    } else if remaining >= 100 {
        Tone::Yellow
    } else {
        Tone::Red
    }
}

/// The uptime and the requests that are left.
pub open spec fn quota_pieces(s: StatusModel) -> Seq<PieceModel> {
    seq![
        piece("up "@, Tone::Dim),
        piece(uptime_text(s.uptime_secs as nat), Tone::Dim),
        piece("  API "@, Tone::Dim),
        piece(api_text(s), quota_tone(s.api_remaining)),
    ]
}

/// The uptime and the requests that are left.
pub fn quota(s: &StatusData) -> (r: Vec<Piece>)
    ensures
        pieces(r@) == quota_pieces(s@),
{
    let api = cat3(num(s.api_remaining as u64).as_str(), "/", num(s.api_limit as u64).as_str());
    let tone = if s.api_remaining >= 1000 {
        Tone::Green
    } else if s.api_remaining >= 100 {
        Tone::Yellow
    } else {
        Tone::Red
    };
    let r = vec![
        words("up ", Tone::Dim),
        piece_of(fmt_uptime(s.uptime_secs), Tone::Dim),
        words("  API ", Tone::Dim),
        piece_of(api, tone),
    ];
    assert(pieces(r@) =~= quota_pieces(s@));
    r
}

// ── Log ─────────────────────────────────────────────────────────────────────

/// What an event says on the left of a log line.
pub open spec fn log_left(e: EventModel) -> Seq<char> {
    tag(event_degree(e)) + " "@ + event_login(e)
}

/// What an event says on the right of a log line.
pub open spec fn log_right(e: EventModel) -> Seq<char> {
    match e {
        EventModel::Done { new_connections, .. } => "done  +"@ + decimal(new_connections as nat)
            + " connections"@,
        EventModel::Queued { .. } => "queued"@,
    }
}

/// The tone of what an event says on the right of a log line.
pub open spec fn log_tone(e: EventModel) -> Tone {
    match e {
        EventModel::Done { .. } => Tone::Green,
        EventModel::Queued { .. } => Tone::Dim,
    }
}

/// The log line of an event, where its two sides take the given columns.
pub open spec fn log_line(e: EventModel, left: nat, right: nat, term_w: nat) -> Seq<PieceModel> {
    seq![
        piece(tag(event_degree(e)), Tone::Cyan),
        piece(" "@, Tone::Plain),
        piece(event_login(e), Tone::Blue),
        piece(blanks(gap(term_w, left, right)), Tone::Plain),
        piece(log_right(e), log_tone(e)),
    ]
}

fn log_right_of(e: &CrawlEvent) -> (r: String)
    ensures
        r@ == log_right(e@),
{
    match e {
        CrawlEvent::UserDone { new_connections, .. } => cat3(
            "done  +",
            dec(*new_connections as u64).as_str(),
            " connections",
        ),
        CrawlEvent::UserQueued { .. } => String::from_str("queued"),
    }
}

/// The log line of an event, where its two sides take the given columns.
pub fn event_line_with(e: &CrawlEvent, left: usize, right: usize, term_w: usize) -> (r: Vec<Piece>)
    ensures
        pieces(r@) == log_line(e@, left as nat, right as nat, term_w as nat),
{
    let (degree, login, tone): (i32, &String, Tone) = match e {
        CrawlEvent::UserDone { login, degree, .. } => (*degree, login, Tone::Green),
        CrawlEvent::UserQueued { login, degree, .. } => (*degree, login, Tone::Dim),
    };
    let r = vec![
        piece_of(tag_of(degree), Tone::Cyan),
        words(" ", Tone::Plain),
        words(login.as_str(), Tone::Blue),
        piece_of(repeat(" ", gap_of(term_w, left, right)), Tone::Plain),
        piece_of(log_right_of(e), tone),
    ];
    assert(pieces(r@) =~= log_line(e@, left as nat, right as nat, term_w as nat));
    r
}

/// The log line of an event in `term_w` columns: degree and login on the left, what
/// happened on the right.
pub fn format_event_line(e: &CrawlEvent, term_w: usize) -> (r: Vec<Piece>)
    ensures
        pieces(r@) == log_line(
            e@,
            display_width(log_left(e@)),
            display_width(log_right(e@)),
            term_w as nat,
        ),
{
    let left = match e {
        CrawlEvent::UserDone { login, degree, .. } => cat3(
            tag_of(*degree).as_str(),
            " ",
            login.as_str(),
        ),
        CrawlEvent::UserQueued { login, degree, .. } => cat3(
            tag_of(*degree).as_str(),
            " ",
            login.as_str(),
        ),
    };
    let right = log_right_of(e);
    event_line_with(e, width_of(left.as_str()), width_of(right.as_str()), term_w)
}

/// The log of the events that the scrolling shows, at the bottom of `height` lines.
pub open spec fn log_lines(events: Seq<EventModel>, scroll: nat, height: nat, term_w: nat) -> Seq<
    Seq<PieceModel>,
> {
    let visible = shown(events, scroll, height);
    empty_lines(less(height, visible.len())) + visible.map_values(
        |e: EventModel|
            log_line(e, display_width(log_left(e)), display_width(log_right(e)), term_w),
    )
}

/// The log of the events that the scrolling shows, at the bottom of `height` lines.
pub fn render_events(
    events: &VecDeque<CrawlEvent>,
    scroll: usize,
    height: usize,
    term_w: usize,
) -> (r: Vec<Vec<Piece>>)
    ensures
        lines(r@) == log_lines(
            event_models(events@),
            scroll as nat,
            height as nat,
            term_w as nat,
        ),
{
    let ghost es = event_models(events@);
    let ghost all = log_lines(es, scroll as nat, height as nat, term_w as nat);
    let (start, end) = window_of(events.len(), scroll, height);
    let mut out: Vec<Vec<Piece>> = Vec::new();
    assert(lines(out@) =~= Seq::empty());
    let pad: usize = height.saturating_sub(end - start);
    push_empty(&mut out, pad);
    assert(lines(out@) =~= all.take(pad as int));
    let mut i: usize = start;
    while i < end
        invariant
            start <= i <= end <= events@.len(),
            es == event_models(events@),
            (start as nat, end as nat) == window(es.len(), scroll as nat, height as nat),
            pad == less(height as nat, (end - start) as nat),
            all == log_lines(es, scroll as nat, height as nat, term_w as nat),
            lines(out@) == all.take(pad + i - start),
        decreases end - i,
    {
        let ghost l0 = lines(out@);
        assert(es[i as int] == events@[i as int]@);
        let line = format_event_line(&events[i], term_w);
        let ghost m = pieces(line@);
        assert(all[pad + i - start] == m);
        out.push(line);
        assert(lines(out@) =~= l0.push(m));
        assert(lines(out@) =~= all.take(pad + i + 1 - start));
        i = i + 1;
    }
    assert(all.take(pad + end - start) =~= all);
    out
}

/// Below the log: the first busy worker, by login and degree.
pub open spec fn first_worker_pieces(status: Option<StatusModel>) -> Seq<PieceModel> {
    match status {
        None => seq![connecting()],
        Some(s) => if s.paused {
            paused_pieces(s)
        } else {
            seq![
                piece("crawling "@, Tone::Dim),
                piece(crawling_login(s), Tone::Blue),
                piece(" ("@ + decimal_int(s.current_degree as int) + "°)"@, Tone::Cyan),
            ]
        },
    }
}

/// Below the log: the first busy worker, by login and degree.
pub fn first_worker_line(status: &Option<StatusData>) -> (r: Vec<Piece>)
    ensures
        pieces(r@) == first_worker_pieces(opt_status(*status)),
{
    let ghost expected = first_worker_pieces(opt_status(*status));
    let s = match status {
        None => {
            let r = vec![words("connecting...", Tone::Dim)];
            assert(pieces(r@) =~= expected);
            return r;
        },
        Some(s) => s,
    };
    if s.paused {
        return paused_line(s);
    }
    let login: String = match &s.currently_crawling {
        Some(login) => login.clone(),
        None => String::from_str("-"),
    };
    let r = vec![
        words("crawling ", Tone::Dim),
        piece_of(login, Tone::Blue),
        piece_of(parens_of(s.current_degree), Tone::Cyan),
    ];
    assert(pieces(r@) =~= expected);
    r
}

// ── What is seen on the screen ──────────────────────────────────────────────

/// A degree has its sign, and an event its own degree and login.
pub proof fn law_event_facts(
    login: Seq<char>,
    degree: i32,
    new_connections: usize,
    following_count: i64,
    followers_count: i64,
    parent_login: Seq<char>,
)
    ensures
        degree_text(degree) == decimal_int(degree as int) + "°"@,
        ({
            let e = EventModel::Done {
                login,
                degree,
                new_connections,
                following_count,
                followers_count,
            };
            &&& event_degree(e) == degree && event_login(e) == login
            &&& log_left(e) == tag(degree) + " "@ + login
            &&& log_right(e) == "done  +"@ + decimal(new_connections as nat) + " connections"@
            &&& log_tone(e) == Tone::Green
        }),
        ({
            let e = EventModel::Queued { login, degree, parent_login };
            &&& event_degree(e) == degree && event_login(e) == login
            &&& log_left(e) == tag(degree) + " "@ + login
            &&& log_right(e) == "queued"@
            &&& log_tone(e) == Tone::Dim
        }),
        via_text(parent_login) == "via "@ + parent_login,
        new_text(new_connections as nat) == "+"@ + decimal(new_connections as nat),
        login_and_degree(login, degree) == login + (" ("@ + decimal_int(degree as int) + "°)"@),
{
}

/// The two first columns are as wide as their widest cells, that of the degrees two at
/// least, and have two blanks before each.
pub proof fn law_first_columns_fit(degs: Seq<nat>, logins: Seq<nat>, events: Seq<EventModel>)
    ensures
        shared_widths(degs, logins).0 >= 2,
        forall|i: int|
            0 <= i < degs.len() ==> #[trigger] degs[i] <= shared_widths(degs, logins).0,
        shared_widths(degs, logins).0 == 2 || degs.contains(shared_widths(degs, logins).0),
        forall|i: int|
            0 <= i < logins.len() ==> #[trigger] logins[i] <= shared_widths(degs, logins).1,
        logins.len() > 0 ==> logins.contains(shared_widths(degs, logins).1),
        left_width(shared_widths(degs, logins).0, shared_widths(degs, logins).1) == shared_widths(
            degs,
            logins,
        ).0 + shared_widths(degs, logins).1 + 4,
        degree_widths(events).len() == events.len() && login_widths(events).len() == events.len(),
        forall|i: int|
            0 <= i < events.len() ==> #[trigger] degree_widths(events)[i] == display_width(
                degree_text(event_degree(events[i])),
            ),
        forall|i: int|
            0 <= i < events.len() ==> #[trigger] login_widths(events)[i] == display_width(
                event_login(events[i]),
            ),
{
    crate::display::law_widest_is_one_of_them(degs);
    crate::display::law_widest_is_one_of_them(logins);
}

/// A row starts with the degree and the login in their columns, and ends at the right
/// border: with the numbers of a done user, or with whom a discovered one came from.
pub proof fn law_rows(
    deg: Seq<char>,
    login: Seq<char>,
    right: nat,
    n: nat,
    following: nat,
    followers: nat,
    parent: Seq<char>,
    left: nat,
    term_w: nat,
)
    ensures
        row_start(deg, login, n) == seq![
            piece("  "@, Tone::Plain),
            piece(deg, Tone::Cyan),
            piece("  "@, Tone::Plain),
            piece(login, Tone::Blue),
            piece(blanks(n), Tone::Plain),
        ],
        number_cell(n) == padded_left(grouped(decimal(n)), grouped(decimal(n)).len(), 9),
        done_row(deg, login, right, n, following, followers, left, term_w) == row_start(
            deg,
            login,
            gap(term_w, left, right + 22),
        ) + seq![
            piece(number_cell(following), Tone::Dim),
            piece("  "@, Tone::Plain),
            piece(number_cell(followers), Tone::Dim),
            piece("  "@, Tone::Plain),
            piece("+"@ + decimal(n), Tone::Green),
        ],
        queue_row(deg, login, right, parent, left, term_w) == row_start(
            deg,
            login,
            gap(term_w, left, right),
        ) + seq![piece("via "@ + parent, Tone::Dim)],
{
    assert(22 + right == right + 22);
}

/// A done user has a row among the done and none among the discovered, with the numbers of
/// its event; a discovered one the other way round.
pub proof fn law_rows_belong_to_a_panel(
    login: Seq<char>,
    degree: i32,
    new_connections: usize,
    following_count: i64,
    followers_count: i64,
    parent_login: Seq<char>,
    deg_w: nat,
    login_w: nat,
    term_w: nat,
)
    requires
        following_count >= 0,
        followers_count >= 0,
    ensures
        ({
            let e = EventModel::Done {
                login,
                degree,
                new_connections,
                following_count,
                followers_count,
            };
            &&& row_in(Panel::Queue, e, deg_w, login_w, term_w) is None
            &&& row_in(Panel::Done, e, deg_w, login_w, term_w) == Some(
                done_row(
                    degree_cell(degree, deg_w),
                    login_cell(login, login_w),
                    display_width("+"@ + decimal(new_connections as nat)),
                    new_connections as nat,
                    following_count as nat,
                    followers_count as nat,
                    deg_w + login_w + 4,
                    term_w,
                ),
            )
        }),
        ({
            let e = EventModel::Queued { login, degree, parent_login };
            &&& row_in(Panel::Done, e, deg_w, login_w, term_w) is None
            &&& row_in(Panel::Queue, e, deg_w, login_w, term_w) == Some(
                queue_row(
                    degree_cell(degree, deg_w),
                    login_cell(login, login_w),
                    display_width("via "@ + parent_login),
                    parent_login,
                    deg_w + login_w + 4,
                    term_w,
                ),
            )
        }),
        degree_cell(degree, deg_w) == padded_left(
            degree_text(degree),
            display_width(degree_text(degree)),
            deg_w,
        ),
        login_cell(login, login_w) == padded_right(login, display_width(login), login_w),
{
    assert(left_width(deg_w, login_w) == deg_w + login_w + 4);
}

/// The rows come in the order of the events; one that has no row in the panel is left out.
pub proof fn law_rows_come_in_order(
    panel: Panel,
    events: Seq<EventModel>,
    e: EventModel,
    deg_w: nat,
    login_w: nat,
    term_w: nat,
)
    ensures
        events.len() == 0 ==> rows_in(panel, events, deg_w, login_w, term_w).len() == 0,
        match row_in(panel, e, deg_w, login_w, term_w) {
            Some(row) => rows_in(panel, events.push(e), deg_w, login_w, term_w) == rows_in(
                panel,
                events,
                deg_w,
                login_w,
                term_w,
            ).push(row),
            None => rows_in(panel, events.push(e), deg_w, login_w, term_w) == rows_in(
                panel,
                events,
                deg_w,
                login_w,
                term_w,
            ),
        },
{
    assert(events.push(e).drop_last() =~= events);
}

/// A table has its header on top and its rows at the bottom, with empty lines between them
/// where the rows are fewer than the lines.
pub proof fn law_tables(
    panel: Panel,
    events: Seq<EventModel>,
    scroll: nat,
    height: nat,
    deg_w: nat,
    login_w: nat,
    term_w: nat,
)
    ensures
        height == 0 ==> table_lines(
            panel,
            events,
            scroll,
            height,
            deg_w,
            login_w,
            term_w,
        ).len() == 0,
        height > 0 ==> ({
            let visible = shown(events, scroll, (height - 1) as nat);
            let n = if visible.len() + 1 < height {
                (height - 1 - visible.len()) as nat
            } else {
                0
            };
            table_lines(panel, events, scroll, height, deg_w, login_w, term_w) == seq![
                seq![header_of(panel, deg_w, login_w, term_w)],
            ] + Seq::new(n, |i: int| Seq::<PieceModel>::empty()) + rows_in(
                panel,
                visible,
                deg_w,
                login_w,
                term_w,
            )
        }),
        header_of(Panel::Done, deg_w, login_w, term_w) == piece(
            "  "@ + padded_right("DEG"@, display_width("DEG"@), deg_w) + "  "@ + padded_right(
                "LOGIN"@,
                display_width("LOGIN"@),
                login_w,
            ) + blanks(gap(term_w, deg_w + login_w + 4, 25)) + "  FOLLOWING  FOLLOWERS  NEW"@,
            Tone::DimBold,
        ),
        header_of(Panel::Queue, deg_w, login_w, term_w) == piece(
            "  "@ + padded_right("DEG"@, display_width("DEG"@), deg_w) + "  "@ + padded_right(
                "LOGIN"@,
                display_width("LOGIN"@),
                login_w,
            ) + blanks(gap(term_w, deg_w + login_w + 4, 3)) + "VIA"@,
            Tone::DimBold,
        ),
{
    assert(left_width(deg_w, login_w) == deg_w + login_w + 4);
    if height > 0 {
        let visible = shown(events, scroll, (height - 1) as nat);
        assert(less((height - 1) as nat, visible.len()) == (if visible.len() + 1 < height {
            (height - 1 - visible.len()) as nat
        } else {
            0
        }));
    }
}

/// Each number of waiting scopes has its own name and tone.
pub proof fn law_upcoming(s: StatusModel)
    ensures
        ({
            let p = upcoming_pieces(s);
            &&& p.len() == 6
            &&& p[0] == piece("  Upcoming  "@, Tone::Dim)
            &&& p[1] == piece("normal:"@ + decimal(s.pending_normal_count as nat), Tone::Green)
            &&& p[2] == piece("  "@, Tone::Dim)
            &&& p[3] == piece("hub:"@ + decimal(s.pending_hub_count as nat), Tone::Yellow)
            &&& p[4] == piece("  "@, Tone::Dim)
            &&& p[5] == piece("retry:"@ + decimal(s.pending_retry_count as nat), Tone::Red)
        }),
        connecting() == piece("connecting..."@, Tone::Dim),
{
}

/// A waiting scope is yellow at low priority, red where it has failed, and plain else; it
/// has its degree where there are twelve columns, and else as much of its login as fits.
pub proof fn law_waiting_scopes(item: QueueModel, short: Seq<char>, width: nat)
    ensures
        waiting(item, short, width).tone == (if item.priority == "low"@ {
            Tone::Yellow
        } else if item.priority == "retry"@ {
            Tone::Red
        } else {
            Tone::Plain
        }),
        width >= 12 ==> waiting(item, short, width).text == item.login + (" ("@ + decimal_int(
            item.degree as int,
        ) + "°)"@),
        width < 12 ==> waiting(item, short, width).text == short,
        short_login(item, width) == cut(item.login, prefix_widths(item.login), width),
{
}

/// A column has a line for each scope as far as there are lines, and dashes below.
pub proof fn law_columns_of_scopes(items: Seq<QueueModel>, height: nat, width: nat, i: int)
    requires
        0 <= i < height,
    ensures
        column_lines(items, height, width).len() == height,
        i < items.len() ==> column_lines(items, height, width)[i] == waiting(
            items[i],
            short_login(items[i], width),
            width,
        ),
        i >= items.len() ==> column_lines(items, height, width)[i] == piece("—"@, Tone::Dim),
{
}

/// Up to five workers are named, and of more it is said how many there are.
pub proof fn law_five_workers_are_named(
    workers: Seq<WorkerModel>,
    w: WorkerModel,
    sep: Seq<char>,
    total: nat,
)
    ensures
        workers.len() <= 5 ==> shown_workers(workers) == workers,
        workers.len() > 5 ==> shown_workers(workers) == workers.take(5),
        total <= 5 ==> more_text(sep, total).len() == 0 && more_pieces(total).len() == 0,
        total > 5 ==> more_text(sep, total) == sep + "+"@ + decimal((total - 5) as nat) + " more"@,
        total > 5 ==> more_pieces(total) == seq![
            piece("  "@ + "+"@ + decimal((total - 5) as nat) + " more"@, Tone::Dim),
        ],
        worker_texts(workers.push(w)) == worker_texts(workers).push(
            w.login + (" ("@ + decimal_int(w.degree as int) + "°)"@),
        ),
        workers_text(workers, sep) == "crawling "@ + joined(
            worker_texts(shown_workers(workers)),
            sep,
        ) + more_text(sep, workers.len()),
{
    if workers.len() <= 5 {
        assert(shown_workers(workers) =~= workers);
    }
    assert(worker_texts(workers.push(w)) =~= worker_texts(workers).push(
        w.login + (" ("@ + decimal_int(w.degree as int) + "°)"@),
    ));
}

/// The workers stand one behind the other, each with its degree, and two blanks between
/// each two of them.
pub proof fn law_worker_pieces(workers: Seq<WorkerModel>, w: WorkerModel)
    ensures
        worker_pieces(Seq::empty()).len() == 0,
        ({
            let last = seq![
                piece(w.login, Tone::Blue),
                piece(" ("@ + decimal_int(w.degree as int) + "°)"@, Tone::Cyan),
            ];
            &&& workers.len() == 0 ==> worker_pieces(workers.push(w)) == last
            &&& workers.len() > 0 ==> worker_pieces(workers.push(w)) == worker_pieces(workers).push(
                piece("  "@, Tone::Plain),
            ) + last
        }),
{
    let last = seq![
        piece(w.login, Tone::Blue),
        piece(" ("@ + decimal_int(w.degree as int) + "°)"@, Tone::Cyan),
    ];
    assert(workers.push(w).drop_last() =~= workers);
    if workers.len() == 0 {
        assert(worker_pieces(workers).len() == 0);
        assert(worker_pieces(workers.push(w)) =~= last);
    } else {
        assert(worker_pieces(workers.push(w)) =~= worker_pieces(workers).push(
            piece("  "@, Tone::Plain),
        ) + last);
    }
}

/// The line of the workers: what is awaited before the first snapshot, what for while the
/// crawling is paused, that nobody works, and else the workers, in colours where these fit,
/// else with commas, and cut where that does not fit either.
pub proof fn law_workers_line(
    s: StatusModel,
    wide: nat,
    tight: nat,
    short: Seq<char>,
    term_w: nat,
)
    ensures
        workers_line_pieces(None, wide, tight, short, term_w) == seq![
            piece("connecting..."@, Tone::Dim),
        ],
        s.paused ==> workers_line_pieces(Some(s), wide, tight, short, term_w) == paused_pieces(s),
        !s.paused && s.workers.len() == 0 ==> workers_line_pieces(
            Some(s),
            wide,
            tight,
            short,
            term_w,
        ) == seq![piece("idle"@, Tone::Dim)],
        !s.paused && s.workers.len() > 0 && wide <= term_w ==> workers_line_pieces(
            Some(s),
            wide,
            tight,
            short,
            term_w,
        ) == seq![piece("crawling "@, Tone::Dim)] + worker_pieces(shown_workers(s.workers))
            + more_pieces(s.workers.len()),
        !s.paused && s.workers.len() > 0 && wide > term_w && tight <= term_w
            ==> workers_line_pieces(Some(s), wide, tight, short, term_w) == seq![
            piece(workers_text(s.workers, ", "@), Tone::Dim),
        ],
        !s.paused && s.workers.len() > 0 && wide > term_w && tight > term_w
            ==> workers_line_pieces(Some(s), wide, tight, short, term_w) == seq![
            piece(short, Tone::Dim),
        ],
        wide_text(Some(s)) == workers_text(s.workers, "  "@),
        tight_text(Some(s)) == workers_text(s.workers, ", "@),
        wide_text(None).len() == 0 && tight_text(None).len() == 0,
{
}

/// Each counter has its own name and tone, and so have the uptime and the requests that
/// are left: green from a thousand on, yellow from a hundred on, red below.
pub proof fn law_counters(s: StatusModel)
    ensures
        ({
            let p = counter_pieces(s);
            &&& p.len() == 8
            &&& p[0] == piece("crawled "@, Tone::Dim)
            &&& p[1] == piece(grouped(decimal(s.users_crawled as nat)), Tone::Green)
            &&& p[2] == piece("  queue "@, Tone::Dim)
            &&& p[3] == piece(grouped(decimal(s.users_queued as nat)), Tone::Dim)
            &&& p[4] == piece("  retry "@, Tone::Dim)
            &&& p[5] == piece(grouped(decimal(s.users_retry as nat)), Tone::Yellow)
            &&& p[6] == piece("  error "@, Tone::Dim)
            &&& p[7] == piece(grouped(decimal(s.users_error as nat)), Tone::Red)
        }),
        ({
            let p = quota_pieces(s);
            &&& p.len() == 4
            &&& p[0] == piece("up "@, Tone::Dim)
            &&& p[1] == piece(uptime_text(s.uptime_secs as nat), Tone::Dim)
            &&& p[2] == piece("  API "@, Tone::Dim)
            &&& p[3].text == api_text(s)
            &&& s.api_remaining >= 1000 ==> p[3].tone == Tone::Green
            &&& 100 <= s.api_remaining < 1000 ==> p[3].tone == Tone::Yellow
            &&& s.api_remaining < 100 ==> p[3].tone == Tone::Red
        }),
        ({
            let p = paused_pieces(s);
            &&& p.len() == 5
            &&& p[0] == piece("⏸ "@, Tone::Yellow)
            &&& p[1] == piece("queue "@, Tone::Dim)
            &&& p[2] == piece(grouped(decimal(s.users_queued as nat)), Tone::Dim)
            &&& p[3] == piece("  waiting for "@, Tone::Dim)
            &&& p[4] == piece("gh6 run"@, Tone::Bold)
        }),
{
}

/// A line of the log has the degree and the login of its event on the left, and what came
/// of it on the right; the log stands at the bottom of its lines, the newest event last.
pub proof fn law_log(
    events: Seq<EventModel>,
    e: EventModel,
    scroll: nat,
    height: nat,
    left: nat,
    right: nat,
    term_w: nat,
    i: int,
)
    ensures
        log_line(e, left, right, term_w) == seq![
            piece(tag(event_degree(e)), Tone::Cyan),
            piece(" "@, Tone::Plain),
            piece(event_login(e), Tone::Blue),
            piece(blanks(gap(term_w, left, right)), Tone::Plain),
            piece(log_right(e), log_tone(e)),
        ],
        ({
            let visible = shown(events, scroll, height);
            let all = log_lines(events, scroll, height, term_w);
            &&& visible.len() <= height
            &&& all.len() == height
            &&& 0 <= i < height - visible.len() ==> all[i].len() == 0
            &&& height - visible.len() <= i < height ==> ({
                let e = visible[i - (height - visible.len())];
                all[i] == log_line(
                    e,
                    display_width(log_left(e)),
                    display_width(log_right(e)),
                    term_w,
                )
            })
        }),
{
    crate::tui::law_window_is_counted_from_the_end(events.len(), scroll, height);
}

/// Below the log stands whom the first worker crawls and at what degree.
pub proof fn law_first_worker(s: StatusModel)
    ensures
        first_worker_pieces(None) == seq![piece("connecting..."@, Tone::Dim)],
        s.paused ==> first_worker_pieces(Some(s)) == paused_pieces(s),
        !s.paused ==> first_worker_pieces(Some(s)) == seq![
            piece("crawling "@, Tone::Dim),
            piece(crawling_login(s), Tone::Blue),
            piece(" ("@ + decimal_int(s.current_degree as int) + "°)"@, Tone::Cyan),
        ],
{
}

/// A piece keeps its text and its tone.
pub proof fn law_pieces_keep_text_and_tone(line: Seq<Piece>, text: Seq<char>, tone: Tone, i: int)
    ensures
        piece(text, tone).text == text && piece(text, tone).tone == tone,
        pieces(line).len() == line.len(),
        0 <= i < line.len() ==> pieces(line)[i].text == line[i].text@ && pieces(line)[i].tone
            == line[i].tone,
{
}

} // verus!
