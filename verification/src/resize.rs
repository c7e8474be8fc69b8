//! ACK-based terminal resizing, with at most one resize in flight.
//!
//! The client asks the server for a size and resizes its own canvas only
//! when the server acknowledges it, so the shell and the canvas never
//! disagree for long. While a request is in flight, newer sizes are only
//! remembered; the latest one is sent when the acknowledgement arrives.
//! Two requests are never sent less than `RESIZE_MIN_INTERVAL_MS` apart: a
//! size held back by that spacing stays wanted until `retry`.

use vstd::prelude::*;

use crate::protocol::ClientMsg;
use crate::settings::{RESIZE_AUTO_REDRAW_MS, RESIZE_MIN_INTERVAL_MS};

verus! {

/// Client-side resize state.
pub struct ResizeState {
    pub in_flight: bool,
    pub desired: Option<(u16, u16)>,
    /// When the last resize request was sent (ms), if one was.
    pub last_sent: Option<u64>,
}

/// What the client does after an acknowledgement.
pub struct AckEffect {
    /// Resize the local terminal to this size.
    pub resize_terminal: Option<(u16, u16)>,
    /// Send this to the server.
    pub send: Option<ClientMsg>,
}

/// Whether a resize request may go out at `now` (ms): none was sent yet,
/// or the last one went out at least `RESIZE_MIN_INTERVAL_MS` earlier.
pub open spec fn may_send(s: ResizeState, now: u64) -> bool {
    match s.last_sent {
        None => true,
        Some(t) => t <= now && now - t >= RESIZE_MIN_INTERVAL_MS,
    }
}

/// The state after trying to send the wanted size at `now`: it goes out
/// only when the spacing allows, else it stays wanted.
pub open spec fn send_next(s: ResizeState, now: u64) -> ResizeState {
    if s.desired is Some && may_send(s, now) {
        ResizeState { in_flight: true, desired: s.desired, last_sent: Some(now) }
    } else {
        s
    }
}

/// The request sent by that attempt.
pub open spec fn sent_msg(s: ResizeState, now: u64) -> Option<ClientMsg> {
    match s.desired {
        Some((c, r)) => if may_send(s, now) {
            Some(ClientMsg::Resize { cols: c, rows: r })
        } else {
            None
        },
        None => None,
    }
}

/// Spacing between two states: when a request was sent at `now`, the
/// spacing allowed it and `now` is recorded; otherwise the time of the last
/// request is kept.
pub open spec fn spaced(before: ResizeState, after: ResizeState, sent: bool, now: u64) -> bool {
    if sent {
        may_send(before, now) && after.last_sent == Some(now)
    } else {
        after.last_sent == before.last_sent
    }
}

/// Whether a list of messages holds a resize request.
pub open spec fn has_resize(msgs: Seq<ClientMsg>) -> bool {
    exists|i: int| 0 <= i < msgs.len() && #[trigger] msgs[i] is Resize
}

impl ResizeState {
    /// No request in flight, no size wanted, none sent yet.
    pub fn new() -> (res: Self)
        ensures
            !res.in_flight,
            res.desired is None,
            res.last_sent is None,
    {
        ResizeState { in_flight: false, desired: None, last_sent: None }
    }

    /// Sends the wanted size at `now` (ms), if there is one and the spacing
    /// allows it, and marks it in flight.
    pub fn send_next_resize(&mut self, now: u64) -> (res: Option<ClientMsg>)
        ensures
            *final(self) == send_next(*old(self), now),
            res == sent_msg(*old(self), now),
            spaced(*old(self), *final(self), res is Some, now),
    {
        let allowed = match self.last_sent {
            None => true,
            Some(t) => t <= now && now - t >= RESIZE_MIN_INTERVAL_MS as u64,
        };
        if !allowed {
            return None;
        }
        match self.desired {
            Some((cols, rows)) => {
                self.in_flight = true;
                self.last_sent = Some(now);
                Some(ClientMsg::Resize { cols, rows })
            },
            None => None,
        }
    }

    /// Whether a wanted size is held back by the spacing: nothing is in
    /// flight, yet a size is wanted. `retry` sends it later.
    pub fn is_deferred(&self) -> (res: bool)
        ensures
            res == (!self.in_flight && self.desired is Some),
    {
        !self.in_flight && self.desired.is_some()
    }

    /// Sends a size held back by the spacing, when nothing is in flight and
    /// the spacing now allows it.
    pub fn retry(&mut self, now: u64) -> (res: Option<ClientMsg>)
        ensures
            *final(self) == retry_next(*old(self), now),
            res == if old(self).in_flight {
                None
            } else {
                sent_msg(*old(self), now)
            },
            spaced(*old(self), *final(self), res is Some, now),
    {
        if self.in_flight {
            None
        } else {
            self.send_next_resize(now)
        }
    }

    /// The server acknowledged the size `cols` x `rows`; the terminal is
    /// currently `term_cols` x `term_rows`; it is `now` (ms). The terminal
    /// follows the acknowledged size; if a different size has been wanted
    /// meanwhile, it is requested next (as soon as the spacing allows), else
    /// nothing is wanted any more.
    pub fn on_ack(&mut self, cols: u16, rows: u16, term_cols: u16, term_rows: u16, now: u64) -> (res: AckEffect)
        ensures
            *final(self) == ack_next(*old(self), cols, rows, now),
            res.resize_terminal == if cols != term_cols || rows != term_rows {
                Some((cols, rows))
            } else {
                None
            },
            match old(self).desired {
                Some((dc, dr)) => if dc != cols || dr != rows {
                    &&& final(self).desired == old(self).desired
                    &&& may_send(*old(self), now) ==> final(self).in_flight && res.send == Some(
                        ClientMsg::Resize { cols: dc, rows: dr },
                    )
                    &&& !may_send(*old(self), now) ==> !final(self).in_flight && res.send is None
                } else {
                    &&& !final(self).in_flight
                    &&& final(self).desired is None
                    &&& res.send is None
                },
                None => !final(self).in_flight && final(self).desired is None && res.send is None,
            },
            spaced(*old(self), *final(self), res.send is Some, now),
    {
        self.in_flight = false;
        let resize_terminal = if cols != term_cols || rows != term_rows {
            Some((cols, rows))
        } else {
            None
        };
        let send = match self.desired {
            Some((dc, dr)) => {
                if dc != cols || dr != rows {
                    self.send_next_resize(now)
                } else {
                    self.desired = None;
                    None
                }
            },
            None => {
                self.desired = None;
                None
            },
        };
        AckEffect { resize_terminal, send }
    }

    /// The container now fits `cols` x `rows` cells; the terminal is
    /// `term_cols` x `term_rows`; it is `now` (ms). Unless nothing changes,
    /// the size becomes the wanted one, and it is sent right away when no
    /// request is in flight and the spacing allows it.
    pub fn fit(&mut self, cols: u16, rows: u16, term_cols: u16, term_rows: u16, now: u64) -> (res: Vec<ClientMsg>)
        ensures
            *final(self) == fit_next(*old(self), cols, rows, term_cols, term_rows, now),
            (cols == term_cols && rows == term_rows && old(self).desired is None) ==> {
                &&& res@.len() == 0
                &&& *final(self) == *old(self)
            },
            !(cols == term_cols && rows == term_rows && old(self).desired is None) ==> {
                &&& final(self).desired == Some((cols, rows))
                &&& old(self).in_flight ==> res@.len() == 0 && final(self).in_flight
                &&& !old(self).in_flight && may_send(*old(self), now) ==> res@ == seq![
                    ClientMsg::Resize { cols, rows },
                ] && final(self).in_flight
                &&& !old(self).in_flight && !may_send(*old(self), now) ==> res@.len() == 0
                    && !final(self).in_flight
            },
            spaced(*old(self), *final(self), has_resize(res@), now),
    {
        let mut out: Vec<ClientMsg> = Vec::new();
        if cols == term_cols && rows == term_rows && self.desired.is_none() {
            proof {
                assert(!has_resize(out@));
            }
            return out;
        }
        self.desired = Some((cols, rows));
        if !self.in_flight {
            match self.send_next_resize(now) {
                Some(m) => out.push(m),
                None => {},
            }
        }
        if RESIZE_AUTO_REDRAW_MS > 0 {
            out.push(ClientMsg::Input { value: "\u{0c}".to_owned() });
        }
        proof {
            if out@.len() == 1 {
                assert(out@[0] is Resize);
            } else {
                assert(!has_resize(out@));
            }
        }
        out
    }

    /// The WebSocket (re)opened at `now` (ms): nothing is in flight any
    /// more. Without a wanted size the terminal is fitted to the container
    /// (`fitted`, when the renderer could measure it); otherwise the wanted
    /// size is sent (as soon as the spacing allows).
    pub fn on_open(&mut self, fitted: Option<(u16, u16)>, term_cols: u16, term_rows: u16, now: u64) -> (res: Vec<ClientMsg>)
        ensures
            match old(self).desired {
                Some((c, r)) => {
                    &&& final(self).desired == old(self).desired
                    &&& may_send(*old(self), now) ==> res@ == seq![ClientMsg::Resize { cols: c, rows: r }]
                        && final(self).in_flight
                    &&& !may_send(*old(self), now) ==> res@.len() == 0 && !final(self).in_flight
                },
                None => match fitted {
                    Some((c, r)) => if c == term_cols && r == term_rows {
                        res@.len() == 0 && !final(self).in_flight && final(self).desired is None
                    } else {
                        &&& final(self).desired == Some((c, r))
                        &&& may_send(*old(self), now) ==> res@ == seq![
                            ClientMsg::Resize { cols: c, rows: r },
                        ] && final(self).in_flight
                        &&& !may_send(*old(self), now) ==> res@.len() == 0 && !final(self).in_flight
                    },
                    None => res@.len() == 0 && !final(self).in_flight && final(self).desired is None,
                },
            },
            spaced(*old(self), *final(self), has_resize(res@), now),
    {
        self.in_flight = false;
        if self.desired.is_none() {
            match fitted {
                Some((c, r)) => self.fit(c, r, term_cols, term_rows, now),
                None => {
                    let out: Vec<ClientMsg> = Vec::new();
                    proof {
                        assert(!has_resize(out@));
                    }
                    out
                },
            }
        } else {
            let mut out: Vec<ClientMsg> = Vec::new();
            match self.send_next_resize(now) {
                Some(m) => out.push(m),
                None => {},
            }
            proof {
                if out@.len() == 1 {
                    assert(out@[0] is Resize);
                } else {
                    assert(!has_resize(out@));
                }
            }
            out
        }
    }
}

/// The state after `retry`.
pub open spec fn retry_next(s: ResizeState, now: u64) -> ResizeState {
    if s.in_flight {
        s
    } else {
        send_next(s, now)
    }
}

/// The state after `fit`.
pub open spec fn fit_next(
    s: ResizeState,
    cols: u16,
    rows: u16,
    term_cols: u16,
    term_rows: u16,
    now: u64,
) -> ResizeState {
    if cols == term_cols && rows == term_rows && s.desired is None {
        s
    } else {
        let wanted = ResizeState { in_flight: s.in_flight, desired: Some((cols, rows)), last_sent: s.last_sent };
        if s.in_flight {
            wanted
        } else {
            send_next(wanted, now)
        }
    }
}

/// The state after an acknowledgement of `cols` x `rows`.
pub open spec fn ack_next(s: ResizeState, cols: u16, rows: u16, now: u64) -> ResizeState {
    match s.desired {
        Some((dc, dr)) => if dc != cols || dr != rows {
            send_next(ResizeState { in_flight: false, desired: s.desired, last_sent: s.last_sent }, now)
        } else {
            ResizeState { in_flight: false, desired: None, last_sent: s.last_sent }
        },
        None => ResizeState { in_flight: false, desired: None, last_sent: s.last_sent },
    }
}

/// Settling law: once the size last fitted has been acknowledged, nothing
/// is in flight and nothing is wanted, whatever the state before.
pub proof fn lemma_fit_then_ack_settles(
    s: ResizeState,
    cols: u16,
    rows: u16,
    term_cols: u16,
    term_rows: u16,
    t1: u64,
    t2: u64,
)
    ensures
        ({
            let s2 = ack_next(fit_next(s, cols, rows, term_cols, term_rows, t1), cols, rows, t2);
            !s2.in_flight && s2.desired is None
        }),
{
}

/// Latest-size law: two fits while the first request is in flight keep the
/// later size wanted; the acknowledgement of the first requests it (or,
/// when the spacing does not allow it yet, leaves it for `retry`), and once
/// it is acknowledged the client is settled.
pub proof fn lemma_latest_size_wins(
    s: ResizeState,
    c1: u16,
    r1: u16,
    c2: u16,
    r2: u16,
    term_cols: u16,
    term_rows: u16,
    t1: u64,
    t2: u64,
    t3: u64,
    t4: u64,
)
    requires
        (c1, r1) != (c2, r2),
    ensures
        ({
            let s1 = fit_next(s, c1, r1, term_cols, term_rows, t1);
            let s2 = fit_next(s1, c2, r2, term_cols, term_rows, t2);
            let s3 = ack_next(s2, c1, r1, t3);
            &&& s3.desired == Some((c2, r2))
            &&& s3.in_flight == may_send(s2, t3)
            &&& ({
                let s4 = ack_next(s3, c2, r2, t4);
                !s4.in_flight && s4.desired is None
            })
        }),
{
}

/// Spacing law: of two resize requests sent one after the other, at `t1`
/// and then at `t2`, the second goes out at least `RESIZE_MIN_INTERVAL_MS`
/// after the first.
pub proof fn lemma_requests_are_spaced(
    s0: ResizeState,
    s1: ResizeState,
    s2: ResizeState,
    t1: u64,
    t2: u64,
)
    requires
        spaced(s0, s1, true, t1),
        spaced(s1, s2, true, t2),
    ensures
        t2 >= t1 + RESIZE_MIN_INTERVAL_MS,
{
}

} // verus!
