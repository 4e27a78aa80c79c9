//! The progress indicator shown while one long operation runs. The
//! surrounding program spawns the spinner thread; this module owns the
//! finish-signal plumbing and the decisions its loop takes on every tick.

use vstd::prelude::*;
use std::sync::mpsc::Sender;
use crate::text::{dec_rep, usize_dec};

verus! {

#[verifier::external_type_specification]
#[verifier::external_body]
#[verifier::reject_recursive_types(T)]
pub struct ExSender<T>(Sender<T>);

/// Relies on `std::sync::mpsc::Sender::send`: the result says whether the
/// value reached the channel; delivery depends on the receiver still
/// being alive, so nothing more is promised.
#[verifier::external_body]
fn send_value(tx: &Sender<bool>, val: bool) -> (delivered: bool)
{
    tx.send(val).is_ok()
}

/// The finish-signal side of a progress monitor: armed with a channel
/// sender when the monitor thread starts, and signalled exactly once when
/// the operation ends.
pub struct ExecutingProgressBar {
    finish_signal: Option<Sender<bool>>,
}

impl ExecutingProgressBar {
    /// Whether a monitor has been armed with a finish channel.
    pub closed spec fn spec_armed(&self) -> bool {
        self.finish_signal is Some
    }

    /// A progress bar with no monitor armed yet.
    pub fn new() -> (r: ExecutingProgressBar)
        ensures
            !r.spec_armed(),
    {
        ExecutingProgressBar { finish_signal: None }
    }

    /// Arms the monitor: keeps the sending half of the finish channel
    /// whose receiving half the monitor thread polls.
    pub fn arm_monitor(&mut self, tx: Sender<bool>)
        ensures
            final(self).spec_armed(),
    {
        self.finish_signal = Some(tx);
    }

    /// Signals the monitor that the operation finished, well (`true`) or
    /// badly (`false`); reports whether a signal was delivered, which
    /// needs an armed monitor whose thread still listens.
    pub fn send_finish_signal(&self, val: bool) -> (delivered: bool)
        ensures
            delivered ==> self.spec_armed(),
    {
        match &self.finish_signal {
            Some(tx) => send_value(tx, val),
            None => false,
        }
    }
}

/// What the monitor loop does after polling the finish channel once.
pub enum MonitorStep {
    /// A signal arrived: clear the spinner and report success or failure.
    Finished { success: bool },
    /// No signal yet: count one more elapsed second and keep spinning.
    Tick { next_count: u64 },
}

/// One decision of the monitor loop: a received signal ends it with that
/// signal's verdict, no signal advances the elapsed-seconds count.
pub fn monitor_tick(count: u64, signal: Option<bool>) -> (r: MonitorStep)
    requires
        count < u64::MAX,
    ensures
        match signal {
            Some(v) => r == (MonitorStep::Finished { success: v }),
            None => r == (MonitorStep::Tick { next_count: (count + 1) as u64 }),
        },
{
    match signal {
        Some(v) => MonitorStep::Finished { success: v },
        None => MonitorStep::Tick { next_count: count + 1 },
    }
}

/// The spinner's status line: the label, the elapsed seconds, and `s`.
pub fn monitor_message(prefix: &str, count: u64) -> (r: String)
    requires
        count <= usize::MAX,
    ensures
        r@ == prefix@ + " "@ + dec_rep(count as nat) + "s"@,
{
    let num = usize_dec(count as usize);
    let r = String::from_str(prefix).concat(" ").concat(num.as_str()).concat("s");
    proof {
        assert(r@ =~= prefix@ + " "@ + dec_rep(count as nat) + "s"@);
    }
    r
}

} // verus!
