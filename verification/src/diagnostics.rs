//! Diagnostics: the bookkeeping behind the performance monitor, and the
//! debug-mode gate.
//!
//! The monitor is a pure recorder of what the compositor and the backend
//! push into it. Its sample windows keep the most recent samples only, and
//! its counters count dropped and missed frames. The debug gate is what
//! inspection features check before they run: it fails closed until debug
//! mode is explicitly enabled.

use vstd::prelude::*;
use std::collections::VecDeque;
use crate::common::{Error, is_security_error, security_error};

verus! {

/// How many recent samples a rolling window keeps.
pub const ROLLING_WINDOW: usize = 120;

/// The most recent samples pushed into it, at most `ROLLING_WINDOW` of
/// them, oldest first.
pub struct RollingWindow<T> {
    samples: VecDeque<T>,
}

/// The samples a window holds after `value` is pushed into a window holding
/// `s`: `value` appended, and the oldest sample evicted when the window was
/// full.
pub open spec fn pushed<T>(s: Seq<T>, value: T) -> Seq<T> {
    if s.len() == ROLLING_WINDOW {
        s.drop_first().push(value)
    } else {
        s.push(value)
    }
}

impl<T> RollingWindow<T> {
    /// The samples, oldest first.
    pub closed spec fn view(&self) -> Seq<T> {
        self.samples@
    }

    /// The window holds at most `ROLLING_WINDOW` samples.
    pub open spec fn wf(&self) -> bool {
        self@.len() <= ROLLING_WINDOW
    }

    /// An empty window.
    pub fn new() -> (w: RollingWindow<T>)
        ensures
            w.wf(),
            w@ == Seq::<T>::empty(),
    {
        RollingWindow { samples: VecDeque::new() }
    }

    /// Appends `value`, evicting the oldest sample when the window is full.
    pub fn push(&mut self, value: T)
        requires
            old(self).wf(),
        ensures
            final(self).wf(),
            final(self)@ == pushed(old(self)@, value),
    {
        if self.samples.len() == ROLLING_WINDOW {
            self.samples.pop_front();
        }
        self.samples.push_back(value);
    }

    /// The number of samples held.
    pub fn len(&self) -> (n: usize)
        ensures
            n == self@.len(),
    {
        self.samples.len()
    }

    /// True when no sample is held.
    pub fn is_empty(&self) -> (b: bool)
        ensures
            b == (self@.len() == 0),
    {
        self.samples.len() == 0
    }

    /// The sample at position `i`, oldest first.
    pub fn get(&self, i: usize) -> (v: &T)
        requires
            i < self@.len(),
        ensures
            *v == self@[i as int],
    {
        &self.samples[i]
    }
}

/// A window holds the last `ROLLING_WINDOW` samples pushed into it: pushing
/// into a full window keeps it full, drops exactly the oldest sample and
/// ends with the new one.
pub proof fn lemma_full_window_evicts_oldest<T>(s: Seq<T>, value: T)
    requires
        s.len() == ROLLING_WINDOW,
    ensures
        pushed(s, value).len() == ROLLING_WINDOW,
        pushed(s, value).last() == value,
        pushed(s, value).drop_last() == s.drop_first(),
{
    assert(pushed(s, value).drop_last() =~= s.drop_first());
}

/// Counts of frame events the monitor reports.
pub struct FrameCounters {
    pub dropped_frames: u64,
    pub missed_frames: u64,
    pub active_outputs: usize,
}

impl FrameCounters {
    /// All counts zero.
    pub fn new() -> (c: FrameCounters)
        ensures
            c.dropped_frames == 0,
            c.missed_frames == 0,
            c.active_outputs == 0,
    {
        FrameCounters { dropped_frames: 0, missed_frames: 0, active_outputs: 0 }
    }

    /// Counts a presented frame, as dropped when `dropped` holds.
    pub fn record_frame(&mut self, dropped: bool)
        requires
            dropped ==> old(self).dropped_frames < u64::MAX,
        ensures
            final(self).dropped_frames == old(self).dropped_frames + (if dropped { 1int } else { 0int }),
            final(self).missed_frames == old(self).missed_frames,
            final(self).active_outputs == old(self).active_outputs,
    {
        if dropped {
            self.dropped_frames = self.dropped_frames + 1;
        }
    }

    /// Counts a missed frame.
    pub fn record_missed_frame(&mut self)
        requires
            old(self).missed_frames < u64::MAX,
        ensures
            final(self).missed_frames == old(self).missed_frames + 1,
            final(self).dropped_frames == old(self).dropped_frames,
            final(self).active_outputs == old(self).active_outputs,
    {
        self.missed_frames = self.missed_frames + 1;
    }

    /// Records how many outputs are active.
    pub fn set_active_outputs(&mut self, count: usize)
        ensures
            final(self).active_outputs == count,
            final(self).dropped_frames == old(self).dropped_frames,
            final(self).missed_frames == old(self).missed_frames,
    {
        self.active_outputs = count;
    }
}

impl Default for FrameCounters {
    fn default() -> (c: FrameCounters)
        ensures
            c.dropped_frames == 0,
            c.missed_frames == 0,
            c.active_outputs == 0,
    {
        FrameCounters::new()
    }
}

/// The message of the error that the closed debug gate answers with.
pub open spec fn debug_disabled_message() -> Seq<char> {
    "debug mode is disabled"@
}

/// Whether debug mode is on. Scene-graph, damage and z-order
/// visualization run only while it is.
pub struct DebugMode {
    enabled: bool,
}

impl DebugMode {
    /// True when debug mode is on.
    pub closed spec fn on(&self) -> bool {
        self.enabled
    }

    /// Debug mode, off.
    pub fn new() -> (d: DebugMode)
        ensures
            !d.on(),
    {
        DebugMode { enabled: false }
    }

    /// Turns debug mode on.
    pub fn enable(&mut self)
        ensures
            final(self).on(),
    {
        self.enabled = true;
    }

    /// Turns debug mode off.
    pub fn disable(&mut self)
        ensures
            !final(self).on(),
    {
        self.enabled = false;
    }

    /// True when debug mode is on.
    pub fn is_enabled(&self) -> (b: bool)
        ensures
            b == self.on(),
    {
        self.enabled
    }

    /// Succeeds only while debug mode is on, so a caller that forgot to
    /// enable it fails closed rather than open.
    pub fn require_enabled(&self) -> (r: Result<(), Error>)
        ensures
            r is Ok <==> self.on(),
            r matches Err(e) ==> is_security_error(e, debug_disabled_message()),
    {
        if self.enabled {
            Ok(())
        } else {
            Err(security_error("debug mode is disabled"))
        }
    }
}

/// Whether debug mode is on after the sequence `calls` of `enable` (`true`)
/// and `disable` (`false`) from a fresh gate: on exactly when the last call
/// was `enable`.
pub open spec fn on_after(calls: Seq<bool>) -> bool {
    calls.len() > 0 && calls.last()
}

/// Starting from `DebugMode::new`, after any sequence of `enable` and
/// `disable` calls debug mode is on precisely when the final call was
/// `enable`. Each state of `states` is the one before it after the
/// matching call.
pub proof fn lemma_gate_follows_last_call(states: Seq<DebugMode>, calls: Seq<bool>)
    requires
        states.len() == calls.len() + 1,
        !states[0].on(),
        forall|i: int| 0 <= i < calls.len() ==> #[trigger] states[i + 1].on() == calls[i],
    ensures
        states.last().on() == on_after(calls),
{
    if calls.len() > 0 {
        let i: int = calls.len() - 1;
        assert(states[i + 1].on() == calls[i]);
    }
}

impl Default for DebugMode {
    fn default() -> (d: DebugMode)
        ensures
            !d.on(),
    {
        DebugMode::new()
    }
}

} // verus!
