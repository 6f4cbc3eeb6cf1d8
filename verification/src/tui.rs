//! The live monitor: its state, what keys and messages do to it, and the lines
//! that it shows. Drawing them on a terminal is left to the caller.
//!
//! It has five panels: what is done, what was discovered, what comes next, whom
//! the workers crawl, and counters.
use std::collections::VecDeque;

use vstd::prelude::*;

use crate::client::{known_status, opt_status};
use crate::types::{
    event_models, CrawlEvent, EventModel, Payload, PayloadModel, ResponseModel, ServerResponse,
    StatusData, StatusModel,
};

pub mod lines;

verus! {

/// How many events a panel keeps.
pub const MAX_EVENTS: usize = 9999;

/// How many rows the panel of done users has at most, its header included.
pub const DONE_MAX_ROWS: usize = 15;

/// How many lines a page has.
pub const PAGE: usize = 10;

// ── State ───────────────────────────────────────────────────────────────────

/// A panel that can be scrolled.
#[derive(Debug, Clone, Copy, PartialEq, Eq, Structural)]
pub enum Panel {
    Done,
    Queue,
}

/// A key that was pressed.
#[derive(Debug, Clone, Copy, PartialEq, Eq, Structural)]
pub enum Key {
    Char(char),
    Esc,
    Tab,
    Up,
    Down,
    PageUp,
    PageDown,
    Other,
}

/// The state of the monitor.
pub struct App {
    /// What is done, newest at the back.
    done_events: VecDeque<CrawlEvent>,
    /// What was discovered, newest at the back.
    queue_events: VecDeque<CrawlEvent>,
    /// The latest snapshot.
    status: Option<StatusData>,
    /// How many events below the last shown one there are.
    done_scroll: usize,
    queue_scroll: usize,
    /// The panel that the keys go to.
    focus: Panel,
    /// The monitor is to end.
    quit: bool,
}

pub struct AppModel {
    pub done: Seq<EventModel>,
    pub queue: Seq<EventModel>,
    pub status: Option<StatusModel>,
    pub done_scroll: nat,
    pub queue_scroll: nat,
    pub focus: Panel,
    pub quit: bool,
}

impl View for App {
    type V = AppModel;

    closed spec fn view(&self) -> AppModel {
        AppModel {
            done: event_models(self.done_events@),
            queue: event_models(self.queue_events@),
            status: opt_status(self.status),
            done_scroll: self.done_scroll as nat,
            queue_scroll: self.queue_scroll as nat,
            focus: self.focus,
            quit: self.quit,
        }
    }
}

/// The furthest that a panel with so many events can be scrolled.
pub open spec fn scroll_end(events: nat) -> nat {
    if events == 0 {
        0
    } else {
        (events - 1) as nat
    }
}

impl AppModel {
    /// The buffers are not over their size and hold events of their kind, and no
    /// panel is scrolled beyond its first event.
    pub open spec fn valid(self) -> bool {
        &&& forall|i: int| 0 <= i < self.done.len() ==> (#[trigger] self.done[i]) is Done
        &&& forall|i: int| 0 <= i < self.queue.len() ==> (#[trigger] self.queue[i]) is Queued
        &&& self.done.len() <= MAX_EVENTS
        &&& self.queue.len() <= MAX_EVENTS
        &&& self.done_scroll <= scroll_end(self.done.len())
        &&& self.queue_scroll <= scroll_end(self.queue.len())
    }

    /// The monitor with the focused panel scrolled by `f`, which is told how far
    /// it is scrolled and how far it can be.
    pub open spec fn scrolled(self, f: spec_fn(nat, nat) -> nat) -> AppModel {
        match self.focus {
            Panel::Done => AppModel {
                done_scroll: f(self.done_scroll, scroll_end(self.done.len())),
                ..self
            },
            Panel::Queue => AppModel {
                queue_scroll: f(self.queue_scroll, scroll_end(self.queue.len())),
                ..self
            },
        }
    }

    /// The monitor after a key.
    pub open spec fn keyed(self, key: Key) -> AppModel {
        match key {
            Key::Char('q') | Key::Esc => AppModel { quit: true, ..self },
            Key::Tab => AppModel {
                focus: match self.focus {
                    Panel::Done => Panel::Queue,
                    Panel::Queue => Panel::Done,
                },
                ..self
            },
            Key::Char('j') | Key::Down => self.scrolled(
                |at: nat, end: nat| less(at, 1),
            ),
            Key::Char('k') | Key::Up => self.scrolled(|at: nat, end: nat| more(at, 1, end)),
            Key::PageDown => self.scrolled(|at: nat, end: nat| less(at, PAGE as nat)),
            Key::PageUp => self.scrolled(|at: nat, end: nat| more(at, PAGE as nat, end)),
            Key::Char('g') => self.scrolled(|at: nat, end: nat| end),
            Key::Char('G') => self.scrolled(|at: nat, end: nat| 0nat),
            _ => self,
        }
    }

    /// The monitor after a message of the daemon.
    pub open spec fn told(self, r: ResponseModel) -> AppModel {
        match r {
            ResponseModel::Ack { .. } => AppModel { status: known_status(self.status, r), ..self },
            ResponseModel::Event { data } => match data {
                EventModel::Done { .. } => AppModel {
                    done: kept(self.done, data),
                    done_scroll: followed(self.done_scroll, kept(self.done, data).len()),
                    ..self
                },
                EventModel::Queued { .. } => AppModel {
                    queue: kept(self.queue, data),
                    queue_scroll: followed(self.queue_scroll, kept(self.queue, data).len()),
                    ..self
                },
            },
            ResponseModel::Bye => AppModel { quit: true, ..self },
            ResponseModel::Error { .. } => self,
        }
    }
}

/// `n` less, zero at least.
pub open spec fn less(at: nat, n: nat) -> nat {
    if at < n {
        0
    } else {
        (at - n) as nat
    }
}

/// `n` more, `end` at most.
pub open spec fn more(at: nat, n: nat, end: nat) -> nat {
    if at + n > end {
        end
    } else {
        at + n
    }
}

/// The buffer with one more event; the oldest goes where it is full.
pub open spec fn kept(events: Seq<EventModel>, e: EventModel) -> Seq<EventModel> {
    if events.len() >= MAX_EVENTS {
        events.drop_first().push(e)
    } else {
        events.push(e)
    }
}

/// A buffer is never over its size, and it keeps the newest events: the last one is
/// the event that came, and before it stand the newest of the others in their order.
pub proof fn law_buffer_keeps_the_newest(events: Seq<EventModel>, e: EventModel)
    requires
        events.len() <= MAX_EVENTS,
    ensures
        kept(events, e).len() == if events.len() < MAX_EVENTS {
            events.len() + 1
        } else {
            MAX_EVENTS as nat
        },
        kept(events, e).last() == e,
        kept(events, e).drop_last() == events.skip(
            events.len() + 1 - kept(events, e).len(),
        ),
{
    assert(kept(events, e).drop_last() =~= events.skip(events.len() + 1 - kept(events, e).len()));
}

/// How far a panel is scrolled after an event has come: at the end it stays
/// there, else what is shown stays.
pub open spec fn followed(at: nat, events: nat) -> nat {
    if at == 0 {
        0
    } else {
        more(at, 1, scroll_end(events))
    }
}

/// Keys and messages keep the monitor valid.
pub proof fn law_monitor_stays_valid(m: AppModel, key: Key, r: ResponseModel)
    requires
        m.valid(),
    ensures
        m.keyed(key).valid(),
        m.told(r).valid(),
{
}

/// Who looks at earlier events keeps seeing the same ones while new ones come in,
/// as long as the buffer does not drop one of them.
pub proof fn law_scrolled_view_stays(
    events: Seq<EventModel>,
    scroll: nat,
    e: EventModel,
    height: nat,
)
    requires
        events.len() <= MAX_EVENTS,
        0 < scroll <= scroll_end(events.len()),
        events.len() < MAX_EVENTS || window(events.len(), scroll, height).0 > 0,
    ensures
        shown(kept(events, e), followed(scroll, kept(events, e).len()), height) == shown(
            events,
            scroll,
            height,
        ),
{
    assert(shown(kept(events, e), followed(scroll, kept(events, e).len()), height) =~= shown(
        events,
        scroll,
        height,
    ));
}

/// Who looks at the latest event sees the new one when it comes in.
pub proof fn law_end_follows(events: Seq<EventModel>, e: EventModel, height: nat)
    requires
        height > 0,
    ensures
        followed(0, kept(events, e).len()) == 0,
        shown(kept(events, e), 0, height).last() == e,
{
}

impl App {
    /// The monitor is valid.
    pub open spec fn wf(&self) -> bool {
        self@.valid()
    }

    /// Nothing is known yet.
    pub fn new() -> (r: App)
        ensures
            r.wf(),
            r@ == (AppModel {
                done: Seq::empty(),
                queue: Seq::empty(),
                status: None,
                done_scroll: 0,
                queue_scroll: 0,
                focus: Panel::Done,
                quit: false,
            }),
    {
        let r = App {
            done_events: VecDeque::with_capacity(MAX_EVENTS),
            queue_events: VecDeque::with_capacity(MAX_EVENTS),
            status: None,
            done_scroll: 0,
            queue_scroll: 0,
            focus: Panel::Done,
            quit: false,
        };
        assert(r@.done =~= Seq::empty());
        assert(r@.queue =~= Seq::empty());
        r
    }

    /// Whether the monitor is to end.
    pub fn quits(&self) -> (r: bool)
        ensures
            r == self@.quit,
    {
        self.quit
    }

    /// Ends the monitor.
    pub fn close(&mut self)
        ensures
            final(self)@ == (AppModel { quit: true, ..old(self)@ }),
    {
        self.quit = true;
    }

    /// The panel that the keys go to.
    pub fn focused(&self) -> (r: Panel)
        ensures
            r == self@.focus,
    {
        self.focus
    }

    /// How many done users are kept.
    pub fn done_count(&self) -> (r: usize)
        ensures
            r == self@.done.len(),
    {
        assert(self@.done.len() == self.done_events@.len());
        self.done_events.len()
    }

    /// Handles a key. Returns whether the monitor is to end on account of it.
    pub fn handle_key(&mut self, key: Key) -> (r: bool)
        requires
            old(self).wf(),
        ensures
            final(self).wf(),
            final(self)@ == old(self)@.keyed(key),
            r == (key == Key::Char('q') || key == Key::Esc),
    {
        let done_end: usize = if self.done_events.len() == 0 {
            0
        } else {
            self.done_events.len() - 1
        };
        let queue_end: usize = if self.queue_events.len() == 0 {
            0
        } else {
            self.queue_events.len() - 1
        };
        assert(self@.done.len() == self.done_events@.len());
        assert(self@.queue.len() == self.queue_events@.len());
        match key {
            Key::Char('q') | Key::Esc => {
                self.quit = true;
                return true;
            },
            Key::Tab => {
                self.focus = match self.focus {
                    Panel::Done => Panel::Queue,
                    Panel::Queue => Panel::Done,
                };
            },
            Key::Char('j') | Key::Down => match self.focus {
                Panel::Done => {
                    self.done_scroll = self.done_scroll.saturating_sub(1);
                },
                Panel::Queue => {
                    self.queue_scroll = self.queue_scroll.saturating_sub(1);
                },
            },
            Key::Char('k') | Key::Up => match self.focus {
                Panel::Done => {
                    if self.done_scroll < done_end {
                        self.done_scroll = self.done_scroll + 1;
                    }
                },
                Panel::Queue => {
                    if self.queue_scroll < queue_end {
                        self.queue_scroll = self.queue_scroll + 1;
                    }
                },
            },
            Key::PageDown => match self.focus {
                Panel::Done => {
                    self.done_scroll = self.done_scroll.saturating_sub(PAGE);
                },
                Panel::Queue => {
                    self.queue_scroll = self.queue_scroll.saturating_sub(PAGE);
                },
            },
            Key::PageUp => match self.focus {
                Panel::Done => {
                    self.done_scroll = if self.done_scroll + PAGE > done_end {
                        done_end
                    } else {
                        self.done_scroll + PAGE
                    };
                },
                Panel::Queue => {
                    self.queue_scroll = if self.queue_scroll + PAGE > queue_end {
                        queue_end
                    } else {
                        self.queue_scroll + PAGE
                    };
                },
            },
            Key::Char('g') => match self.focus {
                Panel::Done => {
                    self.done_scroll = done_end;
                },
                Panel::Queue => {
                    self.queue_scroll = queue_end;
                },
            },
            Key::Char('G') => match self.focus {
                Panel::Done => {
                    self.done_scroll = 0;
                },
                Panel::Queue => {
                    self.queue_scroll = 0;
                },
            },
            _ => {},
        }
        false
    }

    /// Keeps a done user; the oldest goes where the buffer is full.
    pub fn push_done(&mut self, event: CrawlEvent)
        ensures
            old(self).wf() && event@ is Done ==> final(self).wf(),
            final(self)@ == (AppModel { done: kept(old(self)@.done, event@), ..old(self)@ }),
    {
        let ghost d0 = self.done_events@;
        let ghost m = event@;
        assert(self@.done.len() == d0.len());
        if self.done_events.len() >= MAX_EVENTS {
            self.done_events.pop_front();
            assert(event_models(self.done_events@) =~= event_models(d0).drop_first());
        }
        let ghost d1 = self.done_events@;
        self.done_events.push_back(event);
        assert(event_models(self.done_events@) =~= event_models(d1).push(m));
    }

    /// Keeps a discovered user; the oldest goes where the buffer is full.
    pub fn push_queue(&mut self, event: CrawlEvent)
        ensures
            old(self).wf() && event@ is Queued ==> final(self).wf(),
            final(self)@ == (AppModel { queue: kept(old(self)@.queue, event@), ..old(self)@ }),
    {
        let ghost d0 = self.queue_events@;
        let ghost m = event@;
        assert(self@.queue.len() == d0.len());
        if self.queue_events.len() >= MAX_EVENTS {
            self.queue_events.pop_front();
            assert(event_models(self.queue_events@) =~= event_models(d0).drop_first());
        }
        let ghost d1 = self.queue_events@;
        self.queue_events.push_back(event);
        assert(event_models(self.queue_events@) =~= event_models(d1).push(m));
    }

    /// Keeps an event in the buffer of its kind.
    fn push_event(&mut self, event: CrawlEvent)
        requires
            old(self).wf(),
        ensures
            final(self)@ == (match event@ {
                EventModel::Done { .. } => AppModel {
                    done: kept(old(self)@.done, event@),
                    ..old(self)@
                },
                EventModel::Queued { .. } => AppModel {
                    queue: kept(old(self)@.queue, event@),
                    ..old(self)@
                },
            }),
    {
        match event {
            CrawlEvent::UserDone { .. } => self.push_done(event),
            CrawlEvent::UserQueued { .. } => self.push_queue(event),
        }
    }

    /// Replaces the snapshot.
    fn update_status(&mut self, s: StatusData)
        ensures
            final(self)@ == (AppModel { status: Some(s@), ..old(self)@ }),
    {
        self.status = Some(s);
    }

    /// Takes in a message of the daemon.
    pub fn handle_response(&mut self, resp: ServerResponse)
        requires
            old(self).wf(),
        ensures
            final(self).wf(),
            final(self)@ == old(self)@.told(resp@),
    {
        proof {
            law_monitor_stays_valid(self@, Key::Other, resp@);
        }
        match resp {
            ServerResponse::Ack { payload: Some(Payload::Status(s)) } => self.update_status(s),
            ServerResponse::Event { data } => {
                let done: bool = matches!(data, CrawlEvent::UserDone { .. });
                self.push_event(data);
                assert(self@.done.len() == self.done_events@.len());
                assert(self@.queue.len() == self.queue_events@.len());
                if done {
                    if self.done_scroll > 0 {
                        let end: usize = self.done_events.len() - 1;
                        self.done_scroll = if self.done_scroll + 1 > end {
                            end
                        } else {
                            self.done_scroll + 1
                        };
                    }
                } else {
                    if self.queue_scroll > 0 {
                        let end: usize = self.queue_events.len() - 1;
                        self.queue_scroll = if self.queue_scroll + 1 > end {
                            end
                        } else {
                            self.queue_scroll + 1
                        };
                    }
                }
            },
            ServerResponse::Bye => {
                self.quit = true;
            },
            _ => {},
        }
    }
}

// ── Layout ──────────────────────────────────────────────────────────────────

/// How many lines the panels below the two tables take.
pub const FIXED_LINES: usize = 8;

/// The heights of the two tables on a terminal of so many lines: what is done
/// gets what it needs, up to its maximum and so that one line is left, what was
/// discovered gets the rest, one line at least.
pub fn heights(lines: usize, done: usize) -> (r: (usize, usize))
    requires
        done < usize::MAX,
    ensures
        ({
            let flex = less(lines as nat, FIXED_LINES as nat);
            let rows = if done + 1 < DONE_MAX_ROWS {
                (done + 1) as nat
            } else {
                DONE_MAX_ROWS as nat
            };
            let done_h = if rows < less(flex, 1) {
                rows
            } else {
                less(flex, 1)
            };
            &&& r.0 == done_h
            &&& r.1 == if flex - done_h > 1 {
                flex - done_h
            } else {
                1
            }
        }),
        r.0 <= 15,
        r.0 <= done + 1,
        lines >= 9 ==> r.0 + r.1 + 8 == lines,
        lines < 9 ==> r.0 == 0 && r.1 == 1,
        lines >= 9 && r.0 < 15 && r.0 < done + 1 ==> r.1 == 1,
{
    let flex: usize = lines.saturating_sub(FIXED_LINES);
    let rows: usize = if done + 1 < DONE_MAX_ROWS {
        done + 1
    } else {
        DONE_MAX_ROWS
    };
    let left: usize = flex.saturating_sub(1);
    let done_h: usize = if rows < left {
        rows
    } else {
        left
    };
    let queue_h: usize = flex - done_h;
    (
        done_h,
        if queue_h > 1 {
            queue_h
        } else {
            1
        },
    )
}

/// Which events are shown in so many lines: from which to before which.
pub open spec fn window(total: nat, scroll: nat, height: nat) -> (nat, nat) {
    let end = less(total, scroll);
    (less(end, height), end)
}

/// The events that are shown in so many lines.
pub open spec fn shown(events: Seq<EventModel>, scroll: nat, height: nat) -> Seq<EventModel> {
    let (start, end) = window(events.len(), scroll, height);
    events.subrange(start as int, end as int)
}

/// Which events are shown: the newest ones behind which as many are left as the panel is
/// scrolled, as many as there are lines, and fewer where there are no more.
pub proof fn law_window_is_counted_from_the_end(total: nat, scroll: nat, height: nat)
    ensures
        ({
            let (from, to) = window(total, scroll, height);
            &&& scroll <= total ==> to + scroll == total
            &&& scroll > total ==> to == 0
            &&& height <= to ==> to - from == height
            &&& height > to ==> from == 0
        }),
{
}

/// The events that are shown stand in a row in the buffer.
pub proof fn law_shown_events_stand_in_a_row(
    events: Seq<EventModel>,
    scroll: nat,
    height: nat,
    i: int,
)
    requires
        scroll <= events.len(),
        height <= events.len() - scroll,
        0 <= i < height,
    ensures
        shown(events, scroll, height).len() == height,
        shown(events, scroll, height)[i] == events[events.len() - scroll - height + i],
{
}

// ── What keys and messages do ───────────────────────────────────────────────

/// A panel with events can be scrolled to its first one.
pub proof fn law_scrolling_ends_at_the_first_event(events: nat)
    ensures
        events > 0 ==> scroll_end(events) + 1 == events,
        scroll_end(0) == 0,
{
}

/// The keys move the focused panel and no other: by one or ten events, down towards the
/// newest one and up towards the first one, neither further, or all the way.
pub proof fn law_keys_scroll_the_focused_panel(m: AppModel, key: Key)
    requires
        m.valid(),
    ensures
        m.focus == Panel::Done ==> m.keyed(key).queue_scroll == m.queue_scroll,
        m.focus == Panel::Queue ==> m.keyed(key).done_scroll == m.done_scroll,
        m.keyed(key).done == m.done && m.keyed(key).queue == m.queue && m.keyed(key).status
            == m.status,
        ({
            let (n, at) = match m.focus {
                Panel::Done => (m.done.len(), m.done_scroll),
                Panel::Queue => (m.queue.len(), m.queue_scroll),
            };
            let to = match m.focus {
                Panel::Done => m.keyed(key).done_scroll,
                Panel::Queue => m.keyed(key).queue_scroll,
            };
            &&& key == Key::Down || key == Key::Char('j') ==> to == (if at > 0 {
                at - 1
            } else {
                0
            })
            &&& key == Key::Up || key == Key::Char('k') ==> to == (if at + 1 < n {
                (at + 1) as int
            } else {
                at as int
            })
            &&& key == Key::PageDown ==> to == (if at > 10 {
                at - 10
            } else {
                0
            })
            &&& key == Key::PageUp && at + 10 < n ==> to == at + 10
            &&& key == Key::PageUp && at + 10 >= n && n > 0 ==> to == n - 1
            &&& key == Key::Char('g') && n > 0 ==> to == n - 1
            &&& key == Key::Char('G') ==> to == 0
            &&& n == 0 ==> to == 0
            &&& key == Key::Tab || key == Key::Esc || key == Key::Char('q') || key == Key::Other
                ==> to == at
        }),
{
}

/// The tabulator changes the focus and nothing else does; `q` and escape end the monitor
/// and no other key does; a key that means nothing changes nothing.
pub proof fn law_other_keys(m: AppModel, key: Key, c: char)
    ensures
        m.keyed(Key::Tab).focus != m.focus,
        m.keyed(Key::Tab).keyed(Key::Tab) == m,
        key != Key::Tab ==> m.keyed(key).focus == m.focus,
        m.keyed(key).quit <==> m.quit || key == Key::Esc || key == Key::Char('q'),
        m.keyed(Key::Other) == m,
        c != 'q' && c != 'j' && c != 'k' && c != 'g' && c != 'G' ==> m.keyed(Key::Char(c)) == m,
{
}

/// A buffer that holds fewer than nine thousand nine hundred and ninety-nine events grows
/// by the new one; a full one loses its first.
pub proof fn law_buffer_grows_up_to_its_size(events: Seq<EventModel>, e: EventModel)
    ensures
        events.len() < 9999 ==> kept(events, e) == events.push(e),
        events.len() >= 9999 ==> kept(events, e) == events.skip(1).push(e),
{
    if events.len() >= 9999 {
        assert(events.drop_first() =~= events.skip(1));
    }
}

/// A message goes where it belongs: a snapshot is the one that is known from then on, who
/// is done joins the done ones and who was queued the discovered ones, the farewell ends
/// the monitor, and anything else changes nothing.
pub proof fn law_messages_go_where_they_belong(
    m: AppModel,
    s: StatusModel,
    words: Seq<char>,
    e: EventModel,
)
    ensures
        m.told(ResponseModel::Ack { payload: Some(PayloadModel::Status(s)) }) == (AppModel {
            status: Some(s),
            ..m
        }),
        m.told(ResponseModel::Ack { payload: Some(PayloadModel::Msg(words)) }) == m,
        m.told(ResponseModel::Ack { payload: Some(PayloadModel::Other) }) == m,
        m.told(ResponseModel::Ack { payload: None }) == m,
        m.told(ResponseModel::Error { msg: words }) == m,
        m.told(ResponseModel::Bye) == (AppModel { quit: true, ..m }),
        ({
            let after = m.told(ResponseModel::Event { data: e });
            &&& after.status == m.status && after.focus == m.focus && after.quit == m.quit
            &&& e is Done ==> after.done == kept(m.done, e) && after.queue == m.queue
                && after.queue_scroll == m.queue_scroll
            &&& e is Queued ==> after.queue == kept(m.queue, e) && after.done == m.done
                && after.done_scroll == m.done_scroll
            &&& e is Done && m.done_scroll == 0 ==> after.done_scroll == 0
            &&& e is Queued && m.queue_scroll == 0 ==> after.queue_scroll == 0
            &&& e is Done && m.done_scroll > 0 && m.done_scroll + 1 < after.done.len()
                ==> after.done_scroll == m.done_scroll + 1
            &&& e is Queued && m.queue_scroll > 0 && m.queue_scroll + 1 < after.queue.len()
                ==> after.queue_scroll == m.queue_scroll + 1
            &&& e is Done && m.done_scroll > 0 && m.done_scroll + 1 >= after.done.len()
                ==> after.done_scroll == after.done.len() - 1
            &&& e is Queued && m.queue_scroll > 0 && m.queue_scroll + 1 >= after.queue.len()
                ==> after.queue_scroll == after.queue.len() - 1
        }),
{
}

} // verus!
