//! Decisions of the fixed-cadence update scheduler: what the worker does
//! at the top of each cycle, the order of the cycle's stages, and the
//! drift-corrected computation of the next tick.
//!
//! The worker thread itself — socket, clock, sleep, channel — lives in
//! the application; it consults these functions for every decision.
use vstd::prelude::*;

verus! {

/// The nominal cycle period: one tick at 60 Hz, in nanoseconds.
pub const FRAME_TIME_NS: u64 = 16666667;

/// A command for the generic scheduler worker.
#[derive(PartialEq, Eq, Structural, Debug)]
pub enum Command {
    Disconnect,
}

/// A command for the position-view scheduler worker.
#[derive(PartialEq, Eq, Structural, Debug)]
pub enum PhCommand {
    Disconnect,
    StopExecution,
    ContinueExecution,
}

/// What a queued command asks the worker to do on the connection.
#[derive(PartialEq, Eq, Structural, Debug)]
pub enum ControlAction {
    Disconnect,
    StopExecution,
    ContinueExecution,
}

/// What the worker does at the top of one cycle.
#[derive(PartialEq, Eq, Structural, Debug)]
pub enum CycleDecision {
    /// The connection is down: leave the loop and tear down.
    Teardown,
    /// A command is queued: perform it instead of a cycle.
    HandleCommand(ControlAction),
    /// Run one halt → flush/read → resume → sleep cycle.
    RunCycle,
}

/// The stages of one cycle, in order: halt the target so the reads see a
/// consistent snapshot, flush writes then perform reads, resume the
/// target, sleep to the next tick.
#[derive(PartialEq, Eq, Structural, Debug)]
pub enum CycleStage {
    Halt,
    Update,
    Resume,
    Sleep,
}

/// Maps a generic scheduler command to its connection action.
pub fn handle_command(cmd: &Command) -> (r: ControlAction)
    ensures
        r is Disconnect,
{
    match cmd {
        Command::Disconnect => ControlAction::Disconnect,
    }
}

/// Maps a position-view command to its connection action.
pub fn handle_ph_command(cmd: &PhCommand) -> (r: ControlAction)
    ensures
        r == match cmd {
            PhCommand::Disconnect => ControlAction::Disconnect,
            PhCommand::StopExecution => ControlAction::StopExecution,
            PhCommand::ContinueExecution => ControlAction::ContinueExecution,
        },
{
    match cmd {
        PhCommand::Disconnect => ControlAction::Disconnect,
        PhCommand::StopExecution => ControlAction::StopExecution,
        PhCommand::ContinueExecution => ControlAction::ContinueExecution,
    }
}

/// Decides what the worker does at the top of a cycle: tear down once the
/// connection is gone, otherwise honor a queued command, otherwise run
/// the cycle.
pub fn cycle_decision(connected: bool, cmd: Option<&Command>) -> (r: CycleDecision)
    ensures
        !connected ==> r is Teardown,
        connected && cmd is Some ==> r == CycleDecision::HandleCommand(ControlAction::Disconnect),
        connected && cmd is None ==> r is RunCycle,
{
    if !connected {
        CycleDecision::Teardown
    } else {
        match cmd {
            Some(c) => CycleDecision::HandleCommand(handle_command(c)),
            None => CycleDecision::RunCycle,
        }
    }
}

/// The stage after a finished stage, if the cycle is not over.
pub fn next_stage(stage: &CycleStage) -> (r: Option<CycleStage>)
    ensures
        r == match stage {
            CycleStage::Halt => Some(CycleStage::Update),
            CycleStage::Update => Some(CycleStage::Resume),
            CycleStage::Resume => Some(CycleStage::Sleep),
            CycleStage::Sleep => None::<CycleStage>,
        },
{
    match stage {
        CycleStage::Halt => Some(CycleStage::Update),
        CycleStage::Update => Some(CycleStage::Resume),
        CycleStage::Resume => Some(CycleStage::Sleep),
        CycleStage::Sleep => None,
    }
}

/// The least multiple of `m` that is at least `n`.
pub fn next_multiple_of_u64(n: u64, m: u64) -> (r: u64)
    requires
        m > 0,
        n + m - 1 <= u64::MAX,
    ensures
        r % m == 0,
        r >= n,
        r - n < m,
        r == ((n + m - 1) / (m as int)) * (m as int),
{
    let q = if n == 0 {
        0
    } else {
        1 + (n - 1) / m
    };
    proof {
        if n == 0 {
            assert((n + m - 1) / (m as int) == 0) by (nonlinear_arith)
                requires
                    m > 0,
                    n == 0,
            ;
        } else {
            assert(1 + (n - 1) / (m as int) == (n + m - 1) / (m as int)) by (nonlinear_arith)
                requires
                    m > 0,
                    n > 0,
            ;
        }
        assert(q == (n + m - 1) / (m as int));
        assert(q * m <= n + m - 1 && q * m + m > n + m - 1) by (nonlinear_arith)
            requires
                m > 0,
                q == (n + m - 1) / (m as int),
        ;
        assert((q * m) % (m as int) == 0) by (nonlinear_arith)
            requires
                m > 0,
        ;
    }
    q * m
}

/// The tick accumulator: snaps the scheduled time forward to the next
/// tick boundary at or after `now`, rather than adding a fixed period, so
/// one slow cycle does not shift every later tick.
pub struct Scheduler {
    next_time_ns: u64,
}

impl Scheduler {
    /// The scheduled time of the next tick, in nanoseconds.
    pub closed spec fn next_time_spec(&self) -> u64 {
        self.next_time_ns
    }

    /// A scheduler whose first tick is due immediately.
    pub fn new(now_ns: u64) -> (s: Self)
        ensures
            s.next_time_spec() == now_ns,
    {
        Scheduler { next_time_ns: now_ns }
    }

    /// Advances the schedule past `now_ns` and returns the instant to
    /// sleep until: a tick boundary — the scheduled time plus a whole
    /// number of periods — no earlier than `now_ns` and less than one
    /// period after it.
    pub fn advance_to_tick(&mut self, now_ns: u64) -> (r: u64)
        requires
            old(self).next_time_spec() <= now_ns,
            now_ns + FRAME_TIME_NS <= u64::MAX,
        ensures
            final(self).next_time_spec() == r,
            r >= now_ns,
            r - now_ns < FRAME_TIME_NS,
            (r - old(self).next_time_spec()) % (FRAME_TIME_NS as int) == 0,
    {
        let elapsed = now_ns - self.next_time_ns;
        let step = next_multiple_of_u64(elapsed, FRAME_TIME_NS);
        let r = self.next_time_ns + step;
        self.next_time_ns = r;
        r
    }
}

} // verus!
