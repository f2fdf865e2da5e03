//! The per-connection limit on stream opens within one sampling window.

use vstd::prelude::*;

verus! {

/// What becomes of a stream that a client has just opened.
#[derive(Clone, Copy, Debug, PartialEq, Eq, Structural)]
pub enum StreamDecision {
    /// The stream is read and reassembled.
    Admit,
    /// The connection has used up its budget for this window: the stream is closed at once.
    Throttled,
}

/// One stream-open as the throttler sees it: the clock reading, and the budget
/// that the connection would be given if a new window began now.
pub struct StreamOpen {
    pub now_ms: u64,
    pub budget: u64,
}

/// Throttling state of one connection.
#[derive(Clone, Copy, Debug, PartialEq, Eq, Structural)]
pub struct StreamThrottler {
    /// Clock reading at which the current window began.
    pub window_start_ms: u64,
    /// Streams admitted since the current window began.
    pub opens_in_window: u64,
    /// Streams that may be admitted in the current window.
    pub assigned_budget: u64,
}

impl StreamThrottler {
    /// A window of length `interval_ms` that began at `self.window_start_ms` is over at `now_ms`.
    pub open spec fn window_over(self, now_ms: u64, interval_ms: u64) -> bool {
        now_ms >= self.window_start_ms + interval_ms
    }

    /// The state in which the next stream-open is judged: a fresh window with
    /// budget `budget` where the current one is over, the current state otherwise.
    pub open spec fn rolled(self, now_ms: u64, interval_ms: u64, budget: u64) -> StreamThrottler {
        if self.window_over(now_ms, interval_ms) {
            StreamThrottler { window_start_ms: now_ms, opens_in_window: 0, assigned_budget: budget }
        } else {
            self
        }
    }

    /// The decision on a stream opened at `now_ms`.
    pub open spec fn decision(self, now_ms: u64, interval_ms: u64, budget: u64) -> StreamDecision {
        let w = self.rolled(now_ms, interval_ms, budget);
        if w.opens_in_window < w.assigned_budget {
            StreamDecision::Admit
        } else {
            StreamDecision::Throttled
        }
    }

    /// The state after a stream was opened at `now_ms`.
    pub open spec fn after_open(self, now_ms: u64, interval_ms: u64, budget: u64) -> StreamThrottler {
        let w = self.rolled(now_ms, interval_ms, budget);
        if w.opens_in_window < w.assigned_budget {
            StreamThrottler { opens_in_window: (w.opens_in_window + 1) as u64, ..w }
        } else {
            w
        }
    }

    /// No more streams were admitted in the current window than its budget allows.
    pub open spec fn wf(self) -> bool {
        self.opens_in_window <= self.assigned_budget
    }

    /// A throttler whose first window begins at `now_ms` with budget `budget`.
    pub fn new(now_ms: u64, budget: u64) -> (t: StreamThrottler)
        ensures
            t == (StreamThrottler { window_start_ms: now_ms, opens_in_window: 0, assigned_budget: budget }),
            t.wf(),
    {
        StreamThrottler { window_start_ms: now_ms, opens_in_window: 0, assigned_budget: budget }
    }

    /// Judges one stream-open. Where the window that began at `window_start_ms`
    /// has lasted `interval_ms` or longer, a new window begins at `now_ms` with
    /// budget `budget` and an empty count. The stream is admitted, and counted,
    /// while the count is below the window's budget; otherwise it is throttled.
    pub fn on_stream_open(&mut self, now_ms: u64, interval_ms: u64, budget: u64) -> (d: StreamDecision)
        requires
            old(self).wf(),
        ensures
            d == old(self).decision(now_ms, interval_ms, budget),
            *final(self) == old(self).after_open(now_ms, interval_ms, budget),
            final(self).wf(),
    {
        if now_ms >= self.window_start_ms && now_ms - self.window_start_ms >= interval_ms {
            self.window_start_ms = now_ms;
            self.opens_in_window = 0;
            self.assigned_budget = budget;
        }
        if self.opens_in_window < self.assigned_budget {
            self.opens_in_window = self.opens_in_window + 1;
            StreamDecision::Admit
        } else {
            StreamDecision::Throttled
        }
    }
}

/// The state after a run of stream-opens, oldest first.
pub open spec fn after_opens(t: StreamThrottler, interval_ms: u64, opens: Seq<StreamOpen>) -> StreamThrottler
    decreases opens.len(),
{
    if opens.len() == 0 {
        t
    } else {
        after_opens(t, interval_ms, opens.drop_last()).after_open(
            opens.last().now_ms,
            interval_ms,
            opens.last().budget,
        )
    }
}

/// Number of streams admitted in the window that is current after `opens`:
/// those admitted since the last open that began a new window, or, where none
/// did, those that `t` had counted plus the ones admitted since.
pub open spec fn admitted_in_current_window(
    t: StreamThrottler,
    interval_ms: u64,
    opens: Seq<StreamOpen>,
) -> nat
    decreases opens.len(),
{
    if opens.len() == 0 {
        t.opens_in_window as nat
    } else {
        let before = after_opens(t, interval_ms, opens.drop_last());
        let o = opens.last();
        let one: nat = if before.decision(o.now_ms, interval_ms, o.budget) == StreamDecision::Admit {
            1
        } else {
            0
        };
        if before.window_over(o.now_ms, interval_ms) {
            one
        } else {
            admitted_in_current_window(t, interval_ms, opens.drop_last()) + one
        }
    }
}

/// Whatever streams a connection opens and whenever, the streams admitted in
/// the window that is current afterwards are exactly those the throttler has
/// counted, and they are no more than the budget assigned to that window.
pub proof fn lemma_window_budget_respected(t: StreamThrottler, interval_ms: u64, opens: Seq<StreamOpen>)
    requires
        t.wf(),
    ensures
        after_opens(t, interval_ms, opens).wf(),
        admitted_in_current_window(t, interval_ms, opens) == after_opens(
            t,
            interval_ms,
            opens,
        ).opens_in_window,
        admitted_in_current_window(t, interval_ms, opens) <= after_opens(
            t,
            interval_ms,
            opens,
        ).assigned_budget,
    decreases opens.len(),
{
    if opens.len() > 0 {
        lemma_window_budget_respected(t, interval_ms, opens.drop_last());
    }
}

} // verus!
