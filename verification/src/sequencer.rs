//! The actuation sequencer: the machine that turns one order into a timed
//! sequence of actuator commands and waits.
//!
//! For an order `(count_a, count_b)` the sequencer performs `count_a`
//! active/inactive cycles on channel A, then `count_b` on channel B, then —
//! always, whether the order completed or a wait was interrupted — exactly
//! one reset: both channels inactive, one uninterruptible settle delay, and
//! the coordinator's flags cleared. A cycle is: channel active, a timed wait
//! interruptible by exit/cancel, channel inactive, a timed wait additionally
//! pausable.
//!
//! The machine is a stepper ([`Sequencer::next`]): the surrounding loop
//! performs each returned action (a hardware command or a wait) and reports
//! back whether a wait was interrupted. [`run_order`] runs the stepper to
//! completion over a given interruption pattern and returns the whole action
//! trace, which [`future_trace`] pins down exactly.

use vstd::prelude::*;
use crate::coordinator::Coordinator;

verus! {

/// The step delay of a timed wait between actuation commands, in
/// milliseconds.
pub const STEP_DELAY_MS: u64 = 500;

/// The settle delay of the reset sequence, in milliseconds; it is never
/// interruptible.
pub const SETTLE_DELAY_MS: u64 = 300;

/// An actuation channel.
#[derive(Clone, Copy, PartialEq, Eq, Structural, Debug)]
pub enum Channel {
    A,
    B,
}

/// One action the sequencer asks its surrounding loop to perform.
#[derive(Clone, Copy, PartialEq, Eq, Structural, Debug)]
pub enum SeqAction {
    /// Command a channel to its active or its rest position.
    SetPosition { channel: Channel, active: bool },
    /// Wait one step delay, interruptible by exit or cancel; a pausable wait
    /// additionally blocks while pause is set. The loop reports whether the
    /// wait was interrupted to the next call.
    StepWait { pausable: bool },
    /// The uninterruptible settle delay of the reset sequence.
    SettleWait,
    /// Clear the order slot and the transient flags; the order is over.
    FinishOrder,
}

/// Where the sequencer stands: which action it will ask for next.
#[derive(Clone, Copy, PartialEq, Eq, Structural, Debug)]
pub enum SeqPhase {
    /// About to command the channel active, starting a cycle.
    Engage(Channel),
    /// About to wait with the channel active.
    ActiveWait(Channel),
    /// About to command the channel back to rest.
    Release(Channel),
    /// About to wait with the channel at rest, closing the cycle.
    InactiveWait(Channel),
    /// Reset: about to force channel A to rest.
    ResetA,
    /// Reset: about to force channel B to rest.
    ResetB,
    /// Reset: about to hold the settle delay.
    Settle,
    /// About to clear the order and flags.
    Finish,
    /// The order is over; there is nothing left to ask.
    Done,
}

/// The sequencer's state: cycles still owed to each channel, and the phase.
/// `rem_a` and `rem_b` count cycles not yet fully performed, the one in
/// flight included.
#[derive(Clone, Copy, PartialEq, Eq, Structural, Debug)]
pub struct Sequencer {
    pub rem_a: u64,
    pub rem_b: u64,
    pub phase: SeqPhase,
}

impl Sequencer {
    /// Cycle phases owe at least the cycle in flight, and channel B runs
    /// only once channel A is spent.
    pub open spec fn wf(self) -> bool {
        match self.phase {
            SeqPhase::Engage(ch) | SeqPhase::ActiveWait(ch) | SeqPhase::Release(ch)
                | SeqPhase::InactiveWait(ch) => match ch {
                Channel::A => self.rem_a >= 1,
                Channel::B => self.rem_b >= 1 && self.rem_a == 0,
            },
            _ => true,
        }
    }

    /// Whether the sequencer is inside a cycle, where an interruption aborts
    /// to the reset sequence. The reset itself is uninterruptible.
    pub open spec fn in_cycle(self) -> bool {
        self.phase is Engage || self.phase is ActiveWait || self.phase is Release
            || self.phase is InactiveWait
    }

    /// Cycles still owed, both channels together.
    pub open spec fn rem_sum(self) -> int {
        self.rem_a + self.rem_b
    }

    /// Strictly decreasing along every transition within one cycle count.
    pub open spec fn phase_rank(self) -> int {
        match self.phase {
            SeqPhase::Engage(_) => 8,
            SeqPhase::ActiveWait(_) => 7,
            SeqPhase::Release(_) => 6,
            SeqPhase::InactiveWait(_) => 5,
            SeqPhase::ResetA => 4,
            SeqPhase::ResetB => 3,
            SeqPhase::Settle => 2,
            SeqPhase::Finish => 1,
            SeqPhase::Done => 0,
        }
    }

    /// The starting state for an order: channel A first, channel B once A is
    /// spent, straight to the reset if both counts are zero.
    pub open spec fn init(count_a: u64, count_b: u64) -> Sequencer {
        Sequencer {
            rem_a: count_a,
            rem_b: count_b,
            phase: if count_a > 0 {
                SeqPhase::Engage(Channel::A)
            } else if count_b > 0 {
                SeqPhase::Engage(Channel::B)
            } else {
                SeqPhase::ResetA
            },
        }
    }

    /// An interruption reported while inside a cycle aborts to the reset;
    /// anywhere else it changes nothing, since the reset is uninterruptible.
    pub open spec fn apply_interrupt(self, interrupted: bool) -> Sequencer {
        if interrupted && self.in_cycle() {
            Sequencer { phase: SeqPhase::ResetA, ..self }
        } else {
            self
        }
    }

    /// The action the sequencer asks for in this phase.
    pub open spec fn action_of(self) -> SeqAction
        recommends
            !(self.phase is Done),
    {
        match self.phase {
            SeqPhase::Engage(ch) => SeqAction::SetPosition { channel: ch, active: true },
            SeqPhase::ActiveWait(_) => SeqAction::StepWait { pausable: false },
            SeqPhase::Release(ch) => SeqAction::SetPosition { channel: ch, active: false },
            SeqPhase::InactiveWait(_) => SeqAction::StepWait { pausable: true },
            SeqPhase::ResetA => SeqAction::SetPosition { channel: Channel::A, active: false },
            SeqPhase::ResetB => SeqAction::SetPosition { channel: Channel::B, active: false },
            SeqPhase::Settle => SeqAction::SettleWait,
            SeqPhase::Finish => SeqAction::FinishOrder,
            SeqPhase::Done => SeqAction::FinishOrder,
        }
    }

    /// The state after asking for [`action_of`], before any interruption the
    /// action may report.
    ///
    /// [`action_of`]: Sequencer::action_of
    pub open spec fn succ_of(self) -> Sequencer
        recommends
            self.wf(),
            !(self.phase is Done),
    {
        match self.phase {
            SeqPhase::Engage(ch) => Sequencer { phase: SeqPhase::ActiveWait(ch), ..self },
            SeqPhase::ActiveWait(ch) => Sequencer { phase: SeqPhase::Release(ch), ..self },
            SeqPhase::Release(ch) => Sequencer { phase: SeqPhase::InactiveWait(ch), ..self },
            SeqPhase::InactiveWait(ch) => match ch {
                Channel::A => {
                    // the zero guard only keeps the function total; a
                    // well-formed state owes at least the cycle in flight
                    let ra = if self.rem_a == 0 {
                        0u64
                    } else {
                        (self.rem_a - 1) as u64
                    };
                    Sequencer {
                        rem_a: ra,
                        rem_b: self.rem_b,
                        phase: if ra > 0 {
                            SeqPhase::Engage(Channel::A)
                        } else if self.rem_b > 0 {
                            SeqPhase::Engage(Channel::B)
                        } else {
                            SeqPhase::ResetA
                        },
                    }
                },
                Channel::B => {
                    let rb = if self.rem_b == 0 {
                        0u64
                    } else {
                        (self.rem_b - 1) as u64
                    };
                    Sequencer {
                        rem_a: self.rem_a,
                        rem_b: rb,
                        phase: if rb > 0 {
                            SeqPhase::Engage(Channel::B)
                        } else {
                            SeqPhase::ResetA
                        },
                    }
                },
            },
            SeqPhase::ResetA => Sequencer { phase: SeqPhase::ResetB, ..self },
            SeqPhase::ResetB => Sequencer { phase: SeqPhase::Settle, ..self },
            SeqPhase::Settle => Sequencer { phase: SeqPhase::Finish, ..self },
            SeqPhase::Finish => Sequencer { phase: SeqPhase::Done, ..self },
            SeqPhase::Done => self,
        }
    }

    pub fn new(count_a: u64, count_b: u64) -> (s: Sequencer)
        ensures
            s == Sequencer::init(count_a, count_b),
            s.wf(),
    {
        Sequencer {
            rem_a: count_a,
            rem_b: count_b,
            phase: if count_a > 0 {
                SeqPhase::Engage(Channel::A)
            } else if count_b > 0 {
                SeqPhase::Engage(Channel::B)
            } else {
                SeqPhase::ResetA
            },
        }
    }

    pub fn is_done(&self) -> (r: bool)
        ensures
            r == (self.phase is Done),
    {
        match self.phase {
            SeqPhase::Done => true,
            _ => false,
        }
    }

    /// Asks for the next action. `interrupted` reports whether the
    /// previously returned action — a timed wait — was cut short by exit or
    /// cancel; inside a cycle that aborts to the reset sequence, during the
    /// reset it changes nothing.
    pub fn next(&mut self, interrupted: bool) -> (act: SeqAction)
        requires
            old(self).wf(),
            !(old(self).phase is Done),
        ensures
            final(self).wf(),
            act == old(self).apply_interrupt(interrupted).action_of(),
            *final(self) == old(self).apply_interrupt(interrupted).succ_of(),
    {
        if interrupted {
            let abort = match self.phase {
                SeqPhase::Engage(_) | SeqPhase::ActiveWait(_) | SeqPhase::Release(_)
                    | SeqPhase::InactiveWait(_) => true,
                _ => false,
            };
            if abort {
                self.phase = SeqPhase::ResetA;
            }
        }
        match self.phase {
            SeqPhase::Engage(ch) => {
                self.phase = SeqPhase::ActiveWait(ch);
                SeqAction::SetPosition { channel: ch, active: true }
            },
            SeqPhase::ActiveWait(ch) => {
                self.phase = SeqPhase::Release(ch);
                SeqAction::StepWait { pausable: false }
            },
            SeqPhase::Release(ch) => {
                self.phase = SeqPhase::InactiveWait(ch);
                SeqAction::SetPosition { channel: ch, active: false }
            },
            SeqPhase::InactiveWait(ch) => {
                match ch {
                    Channel::A => {
                        self.rem_a = self.rem_a - 1;
                        self.phase = if self.rem_a > 0 {
                            SeqPhase::Engage(Channel::A)
                        } else if self.rem_b > 0 {
                            SeqPhase::Engage(Channel::B)
                        } else {
                            SeqPhase::ResetA
                        };
                    },
                    Channel::B => {
                        self.rem_b = self.rem_b - 1;
                        self.phase = if self.rem_b > 0 {
                            SeqPhase::Engage(Channel::B)
                        } else {
                            SeqPhase::ResetA
                        };
                    },
                }
                SeqAction::StepWait { pausable: true }
            },
            SeqPhase::ResetA => {
                self.phase = SeqPhase::ResetB;
                SeqAction::SetPosition { channel: Channel::A, active: false }
            },
            SeqPhase::ResetB => {
                self.phase = SeqPhase::Settle;
                SeqAction::SetPosition { channel: Channel::B, active: false }
            },
            SeqPhase::Settle => {
                self.phase = SeqPhase::Finish;
                SeqAction::SettleWait
            },
            SeqPhase::Finish => {
                self.phase = SeqPhase::Done;
                SeqAction::FinishOrder
            },
            SeqPhase::Done => SeqAction::FinishOrder,
        }
    }
}

/// Whether the next timed wait is the interrupted one, and the count of
/// waits still to come before the interruption after one more wait.
pub open spec fn next_togo(togo: Option<u64>) -> Option<u64> {
    match togo {
        Some(t) => if t > 0 {
            Some((t - 1) as u64)
        } else {
            None
        },
        None => None,
    }
}

/// Every action the machine will ask for from state `s` onward, when the
/// timed wait `togo` waits ahead (`Some(0)`: the very next one) reports an
/// interruption and no other does. `None` means no interruption ever.
pub open spec fn future_trace(s: Sequencer, togo: Option<u64>) -> Seq<SeqAction>
    decreases s.rem_sum(), s.phase_rank(),
{
    if !s.wf() || s.phase is Done {
        Seq::empty()
    } else {
        let act = s.action_of();
        let s2 = s.succ_of();
        if act is StepWait {
            seq![act] + future_trace(s2.apply_interrupt(togo == Some(0u64)), next_togo(togo))
        } else {
            seq![act] + future_trace(s2, togo)
        }
    }
}

/// Runs a whole order through the stepper, recording every action. The
/// `interrupt_at`-th timed wait (counting from 0) reports an interruption;
/// `None` lets the order run to completion. The trace is exactly
/// [`future_trace`] from the starting state.
pub fn run_order(count_a: u64, count_b: u64, interrupt_at: Option<u64>) -> (trace: Vec<SeqAction>)
    ensures
        trace@ == future_trace(Sequencer::init(count_a, count_b), interrupt_at),
{
    let mut s = Sequencer::new(count_a, count_b);
    let mut trace: Vec<SeqAction> = Vec::new();
    let mut togo: Option<u64> = interrupt_at;
    let mut interrupted = false;
    while !s.is_done()
        invariant
            s.wf(),
            trace@ + future_trace(s.apply_interrupt(interrupted), togo) == future_trace(
                Sequencer::init(count_a, count_b),
                interrupt_at,
            ),
            interrupted ==> !(s.phase is Done),
        decreases s.rem_sum(), s.phase_rank(),
    {
        let ghost s_eff = s.apply_interrupt(interrupted);
        let ghost togo_before = togo;
        let ghost trace_before = trace@;
        let act = s.next(interrupted);
        trace.push(act);
        match act {
            SeqAction::StepWait { .. } => {
                interrupted = match togo {
                    Some(t) => t == 0,
                    None => false,
                };
                togo = match togo {
                    Some(t) => if t > 0 {
                        Some(t - 1)
                    } else {
                        None
                    },
                    None => None,
                };
            },
            _ => {
                interrupted = false;
            },
        }
        proof {
            assert(future_trace(s_eff, togo_before) == seq![act] + future_trace(
                s.apply_interrupt(interrupted),
                togo,
            ));
            assert(trace@ =~= trace_before + seq![act]);
            assert((trace_before + seq![act]) + future_trace(s.apply_interrupt(interrupted), togo)
                =~= trace_before + (seq![act] + future_trace(s.apply_interrupt(interrupted), togo)));
        }
    }
    proof {
        assert(future_trace(s.apply_interrupt(interrupted), togo) =~= Seq::<SeqAction>::empty());
        assert(trace@ + Seq::<SeqAction>::empty() =~= trace@);
    }
    trace
}

/// One whole order through the coordinator: takes the pending order, runs
/// the sequencer over the given interruption pattern, and clears the
/// coordinator as the trace's closing `FinishOrder` demands. Whether the
/// order completes or is cut short, the slot ends empty and `processing`,
/// `cancel` and `pause` end false; only `exit` survives.
pub fn process_order(coordinator: &mut Coordinator, interrupt_at: Option<u64>) -> (trace: Vec<
    SeqAction,
>)
    requires
        old(coordinator).wf(),
        old(coordinator).order is Some,
    ensures
        trace@ == future_trace(
            Sequencer::init(
                old(coordinator).order->Some_0.count_a,
                old(coordinator).order->Some_0.count_b,
            ),
            interrupt_at,
        ),
        *final(coordinator) == (Coordinator {
            exit: old(coordinator).exit,
            pause: false,
            cancel: false,
            processing: false,
            order: None,
        }),
        final(coordinator).wf(),
{
    let order = coordinator.begin_processing();
    let trace = run_order(order.count_a, order.count_b, interrupt_at);
    coordinator.finish_order();
    trace
}

/// The four actions of one actuation cycle on a channel.
pub open spec fn cycle_trace(ch: Channel) -> Seq<SeqAction> {
    seq![
        SeqAction::SetPosition { channel: ch, active: true },
        SeqAction::StepWait { pausable: false },
        SeqAction::SetPosition { channel: ch, active: false },
        SeqAction::StepWait { pausable: true },
    ]
}

/// `n` cycles on one channel, one after the other.
pub open spec fn cycles_trace(ch: Channel, n: int) -> Seq<SeqAction>
    decreases n,
{
    if n <= 0 {
        Seq::empty()
    } else {
        cycle_trace(ch) + cycles_trace(ch, n - 1)
    }
}

/// The reset sequence, run exactly once per order however it ends: both
/// channels forced to rest, the uninterruptible settle delay, the flags
/// cleared.
pub open spec fn reset_trace() -> Seq<SeqAction> {
    seq![
        SeqAction::SetPosition { channel: Channel::A, active: false },
        SeqAction::SetPosition { channel: Channel::B, active: false },
        SeqAction::SettleWait,
        SeqAction::FinishOrder,
    ]
}

/// The full trace of an uninterrupted `(a, b)` order: all of channel A's
/// cycles, then all of channel B's, then the reset.
pub open spec fn order_trace(a: int, b: int) -> Seq<SeqAction> {
    cycles_trace(Channel::A, a) + cycles_trace(Channel::B, b) + reset_trace()
}

/// The channel of cycle number `c` (from 0) of an order with `a` cycles on
/// channel A first.
pub open spec fn ch_of(a: int, c: int) -> Channel {
    if c < a {
        Channel::A
    } else {
        Channel::B
    }
}

/// The first `c` cycles of an order with `a` channel-A cycles first.
pub open spec fn mixed_cycles(a: int, c: int) -> Seq<SeqAction>
    decreases c,
{
    if c <= 0 {
        Seq::empty()
    } else {
        mixed_cycles(a, c - 1) + cycle_trace(ch_of(a, c - 1))
    }
}

/// The actions of an `(a, b)` order up to and including its `k`-th timed
/// wait (from 0): the complete cycles before it, then either the engage and
/// active wait alone (`k` even) or that whole cycle (`k` odd).
pub open spec fn prefix_trace(a: int, b: int, k: int) -> Seq<SeqAction> {
    let c = k / 2;
    if k % 2 == 0 {
        mixed_cycles(a, c) + seq![
            SeqAction::SetPosition { channel: ch_of(a, c), active: true },
            SeqAction::StepWait { pausable: false },
        ]
    } else {
        mixed_cycles(a, c) + cycle_trace(ch_of(a, c))
    }
}

/// From the start of the reset sequence the machine performs exactly
/// [`reset_trace`], whatever interruptions are reported: the reset is
/// uninterruptible.
pub proof fn lemma_reset_runs(s: Sequencer, togo: Option<u64>)
    requires
        s.phase is ResetA,
    ensures
        future_trace(s, togo) == reset_trace(),
{
    let s1 = s.succ_of();
    let s2 = s1.succ_of();
    let s3 = s2.succ_of();
    let s4 = s3.succ_of();
    assert(future_trace(s4, togo) == Seq::<SeqAction>::empty());
    assert(future_trace(s3, togo) == seq![SeqAction::FinishOrder] + future_trace(s4, togo));
    assert(future_trace(s2, togo) == seq![SeqAction::SettleWait] + future_trace(s3, togo));
    assert(future_trace(s1, togo) == seq![
        SeqAction::SetPosition { channel: Channel::B, active: false },
    ] + future_trace(s2, togo));
    assert(future_trace(s, togo) == seq![
        SeqAction::SetPosition { channel: Channel::A, active: false },
    ] + future_trace(s1, togo));
    assert(future_trace(s, togo) =~= reset_trace());
}

/// Cycles compose at either end: `n` cycles are also `n - 1` cycles
/// followed by one more.
pub proof fn lemma_cycles_snoc(ch: Channel, n: int)
    requires
        n >= 1,
    ensures
        cycles_trace(ch, n) == cycles_trace(ch, n - 1) + cycle_trace(ch),
    decreases n,
{
    if n == 1 {
        assert(cycles_trace(ch, 1) =~= cycles_trace(ch, 0) + cycle_trace(ch));
    } else {
        lemma_cycles_snoc(ch, n - 1);
        assert(cycles_trace(ch, n) =~= cycles_trace(ch, n - 1) + cycle_trace(ch));
    }
}

/// Peeling the first cycle off a mixed prefix: with channel-A cycles left,
/// the first cycle is on A and what remains is the prefix of the order with
/// one A cycle fewer.
pub proof fn lemma_mixed_prepend(a: int, c: int)
    requires
        a >= 1,
        c >= 1,
    ensures
        mixed_cycles(a, c) == cycle_trace(Channel::A) + mixed_cycles(a - 1, c - 1),
    decreases c,
{
    if c == 1 {
        assert(mixed_cycles(a, 0) =~= Seq::<SeqAction>::empty());
        assert(mixed_cycles(a - 1, 0) =~= Seq::<SeqAction>::empty());
        assert(ch_of(a, 0) == Channel::A);
        assert(mixed_cycles(a, 1) =~= cycle_trace(Channel::A) + mixed_cycles(a - 1, 0));
    } else {
        lemma_mixed_prepend(a, c - 1);
        assert(ch_of(a, c - 1) == ch_of(a - 1, c - 2));
        assert(mixed_cycles(a, c) =~= cycle_trace(Channel::A) + mixed_cycles(a - 1, c - 1));
    }
}

/// With no channel-A cycles, a mixed prefix is all channel-B cycles.
pub proof fn lemma_mixed_all_b(a: int, c: int)
    requires
        a <= 0,
    ensures
        mixed_cycles(a, c) == cycles_trace(Channel::B, c),
    decreases c,
{
    if c <= 0 {
        assert(mixed_cycles(a, c) =~= cycles_trace(Channel::B, c));
    } else {
        lemma_mixed_all_b(a, c - 1);
        lemma_cycles_snoc(Channel::B, c);
        assert(ch_of(a, c - 1) == Channel::B);
        assert(mixed_cycles(a, c) =~= cycles_trace(Channel::B, c));
    }
}

/// What a whole order does, exactly, for every interruption pattern: left
/// to run (`None`, or an interruption index past the order's `2 * (a + b)`
/// timed waits) it performs [`order_trace`] — every channel-A cycle, then
/// every channel-B cycle, then one reset; interrupted at wait `k` it
/// performs exactly the actions up to and including that wait, skips every
/// remaining cycle, and still runs the reset exactly once.
#[verifier::rlimit(60)]
pub proof fn lemma_future_init(a: u64, b: u64, togo: Option<u64>)
    ensures
        future_trace(Sequencer::init(a, b), togo) == (match togo {
            None => order_trace(a as int, b as int),
            Some(k) => if (k as int) < 2 * (a + b) {
                prefix_trace(a as int, b as int, k as int) + reset_trace()
            } else {
                order_trace(a as int, b as int)
            },
        }),
    decreases a + b,
{
    let s0 = Sequencer::init(a, b);
    if a == 0 && b == 0 {
        lemma_reset_runs(s0, togo);
        assert(cycles_trace(Channel::A, 0) =~= Seq::<SeqAction>::empty());
        assert(order_trace(0, 0) =~= reset_trace());
    } else {
        let ch = if a > 0 {
            Channel::A
        } else {
            Channel::B
        };
        let s1 = s0.succ_of();
        let s2 = s1.succ_of();
        let s3 = s2.succ_of();
        let s4 = s3.succ_of();
        let rest = if a > 0 {
            Sequencer::init((a - 1) as u64, b)
        } else {
            Sequencer::init(0, (b - 1) as u64)
        };
        assert(s4 == rest);
        let t1 = next_togo(togo);
        let t2 = next_togo(t1);
        assert(future_trace(s0, togo) == seq![
            SeqAction::SetPosition { channel: ch, active: true },
        ] + future_trace(s1, togo));
        assert(future_trace(s1, togo) == seq![SeqAction::StepWait { pausable: false }]
            + future_trace(s2.apply_interrupt(togo == Some(0u64)), t1));
        if togo == Some(0u64) {
            // interrupted at the engage wait: straight to the reset
            let s2i = s2.apply_interrupt(true);
            lemma_reset_runs(s2i, t1);
            assert(future_trace(s0, togo) =~= prefix_trace(a as int, b as int, 0)
                + reset_trace());
        } else {
            assert(s2.apply_interrupt(false) == s2);
            assert(future_trace(s2, t1) == seq![
                SeqAction::SetPosition { channel: ch, active: false },
            ] + future_trace(s3, t1));
            assert(future_trace(s3, t1) == seq![SeqAction::StepWait { pausable: true }]
                + future_trace(s4.apply_interrupt(t1 == Some(0u64)), t2));
            if t1 == Some(0u64) {
                // interrupted at the release wait: the cycle completes, then
                // the reset
                let s4i = s4.apply_interrupt(true);
                assert(s4i.phase is ResetA);
                lemma_reset_runs(s4i, t2);
                assert(future_trace(s0, togo) =~= prefix_trace(a as int, b as int, 1)
                    + reset_trace());
            } else {
                assert(s4.apply_interrupt(false) == s4);
                if a > 0 {
                    lemma_future_init((a - 1) as u64, b, t2);
                } else {
                    lemma_future_init(0, (b - 1) as u64, t2);
                }
                assert(future_trace(s0, togo) =~= cycle_trace(ch) + future_trace(rest, t2));
                match togo {
                    None => {
                        lemma_combine_full(a, b);
                    },
                    Some(k) => {
                        assert(k >= 2);
                        assert(t2 == Some((k - 2) as u64));
                        if (k as int) < 2 * (a + b) {
                            lemma_combine_prefix(a as int, b as int, k as int);
                        } else {
                            lemma_combine_full(a, b);
                        }
                    },
                }
            }
        }
    }
}

/// One leading cycle followed by the rest of the order is the whole order.
proof fn lemma_combine_full(a: u64, b: u64)
    requires
        a > 0 || b > 0,
    ensures
        a > 0 ==> cycle_trace(Channel::A) + order_trace(a - 1, b as int) == order_trace(
            a as int,
            b as int,
        ),
        a == 0 ==> cycle_trace(Channel::B) + order_trace(0, b - 1) == order_trace(0, b as int),
{
    if a > 0 {
        assert(cycles_trace(Channel::A, a as int) == cycle_trace(Channel::A) + cycles_trace(
            Channel::A,
            a - 1,
        ));
        assert(cycle_trace(Channel::A) + order_trace(a - 1, b as int) =~= order_trace(
            a as int,
            b as int,
        ));
    } else {
        assert(cycles_trace(Channel::B, b as int) == cycle_trace(Channel::B) + cycles_trace(
            Channel::B,
            b - 1,
        ));
        assert(cycles_trace(Channel::A, 0) =~= Seq::<SeqAction>::empty());
        assert(cycle_trace(Channel::B) + order_trace(0, b - 1) =~= order_trace(0, b as int));
    }
}

/// One leading cycle followed by the cut trace of the rest of the order is
/// the cut trace of the whole order, the interruption index shifted by the
/// two waits of the leading cycle.
proof fn lemma_combine_prefix(a: int, b: int, k: int)
    requires
        a >= 0,
        b >= 0,
        a > 0 || b > 0,
        2 <= k < 2 * (a + b),
    ensures
        a > 0 ==> cycle_trace(Channel::A) + prefix_trace(a - 1, b, k - 2) == prefix_trace(a, b, k),
        a == 0 ==> cycle_trace(Channel::B) + prefix_trace(0, b - 1, k - 2) == prefix_trace(0, b, k),
{
    let c = k / 2;
    assert(c >= 1);
    assert((k - 2) / 2 == c - 1);
    assert((k - 2) % 2 == k % 2);
    if a > 0 {
        lemma_mixed_prepend(a, c);
        assert(ch_of(a, c) == ch_of(a - 1, c - 1));
        if k % 2 == 0 {
            assert(cycle_trace(Channel::A) + prefix_trace(a - 1, b, k - 2) =~= prefix_trace(
                a,
                b,
                k,
            ));
        } else {
            assert(cycle_trace(Channel::A) + prefix_trace(a - 1, b, k - 2) =~= prefix_trace(
                a,
                b,
                k,
            ));
        }
    } else {
        lemma_mixed_all_b(0, c);
        lemma_mixed_all_b(0, c - 1);
        assert(mixed_cycles(0, c) == cycle_trace(Channel::B) + mixed_cycles(0, c - 1));
        assert(ch_of(0, c) == Channel::B && ch_of(0, c - 1) == Channel::B);
        assert(cycle_trace(Channel::B) + prefix_trace(0, b - 1, k - 2) =~= prefix_trace(0, b, k));
    }
}

/// An order left to run performs exactly `count_a` cycles on channel A,
/// then `count_b` cycles on channel B, then the reset sequence once;
/// afterward nothing remains.
pub proof fn lemma_order_uninterrupted(count_a: u64, count_b: u64)
    ensures
        future_trace(Sequencer::init(count_a, count_b), None) == order_trace(
            count_a as int,
            count_b as int,
        ),
{
    lemma_future_init(count_a, count_b, None);
}

/// An order interrupted at its `k`-th timed wait performs exactly the
/// actions up to and including that wait, skips every remaining cycle, and
/// still runs the reset sequence exactly once.
pub proof fn lemma_order_interrupted(count_a: u64, count_b: u64, k: u64)
    requires
        (k as int) < 2 * (count_a + count_b),
    ensures
        future_trace(Sequencer::init(count_a, count_b), Some(k)) == prefix_trace(
            count_a as int,
            count_b as int,
            k as int,
        ) + reset_trace(),
{
    lemma_future_init(count_a, count_b, Some(k));
}

} // verus!
