//! Shared signalling state between the operator interface (the producer) and
//! the two sequencer loops (the consumers): one pending-order slot and four
//! flags. The surrounding program keeps one `Coordinator` behind a mutex and
//! calls these operations under it; every operation here is a plain value
//! transition with an exact contract.

use vstd::prelude::*;

verus! {

/// A pending order: repeat counts for the two actuation channels.
#[derive(Clone, Copy, PartialEq, Eq, Structural, Debug)]
pub struct Order {
    pub count_a: u64,
    pub count_b: u64,
}

/// The cross-thread mutable state: the order slot and the four signal flags.
///
/// `exit` is monotonic (false to true once, never reset). `pause` and
/// `cancel` are meaningful only while `processing` is true and are cleared
/// when an order finishes. `processing` is true exactly while the actuation
/// sequencer is consuming an order.
#[derive(Clone, Copy, PartialEq, Eq, Debug)]
pub struct Coordinator {
    pub exit: bool,
    pub pause: bool,
    pub cancel: bool,
    pub processing: bool,
    pub order: Option<Order>,
}

impl Coordinator {
    /// The state every run starts from: no order, no flag set.
    pub open spec fn init() -> Coordinator {
        Coordinator { exit: false, pause: false, cancel: false, processing: false, order: None }
    }

    /// Well-formedness: `pause` and `cancel` are always false while
    /// `processing` is false, and an order being processed is still in the
    /// slot (the sequencer clears the slot only when it finishes).
    pub open spec fn wf(self) -> bool {
        &&& !self.processing ==> !self.pause && !self.cancel
        &&& self.processing ==> self.order is Some
    }

    /// The state after an exit request: only `exit` is set.
    pub open spec fn with_exit(self) -> Coordinator {
        Coordinator { exit: true, ..self }
    }

    pub fn new() -> (c: Coordinator)
        ensures
            c == Coordinator::init(),
    {
        Coordinator { exit: false, pause: false, cancel: false, processing: false, order: None }
    }

    /// Writes the order slot. Valid only while no order is processing; the
    /// caller (the operator interface) checks `processing` under the same
    /// lock before calling.
    pub fn submit_order(&mut self, count_a: u64, count_b: u64)
        requires
            old(self).wf(),
            !old(self).processing,
        ensures
            *final(self) == (Coordinator { order: Some(Order { count_a, count_b }), ..*old(self) }),
            final(self).wf(),
    {
        self.order = Some(Order { count_a, count_b });
    }

    /// Flips `pause` if an order is processing; a no-op otherwise.
    pub fn toggle_pause(&mut self)
        requires
            old(self).wf(),
        ensures
            old(self).processing ==> *final(self) == (Coordinator { pause: !old(self).pause, ..*old(self) }),
            !old(self).processing ==> *final(self) == *old(self),
            final(self).wf(),
    {
        if self.processing {
            self.pause = !self.pause;
        }
    }

    /// Sets `cancel` if an order is processing; a no-op otherwise.
    pub fn request_cancel(&mut self)
        requires
            old(self).wf(),
        ensures
            old(self).processing ==> *final(self) == (Coordinator { cancel: true, ..*old(self) }),
            !old(self).processing ==> *final(self) == *old(self),
            final(self).wf(),
    {
        if self.processing {
            self.cancel = true;
        }
    }

    /// Sets `exit`, unconditionally. Idempotent: see
    /// [`lemma_request_exit_idempotent`].
    pub fn request_exit(&mut self)
        requires
            old(self).wf(),
        ensures
            *final(self) == old(self).with_exit(),
            final(self).wf(),
    {
        self.exit = true;
    }

    /// Snapshot for rendering: whether an order is processing and whether it
    /// is paused.
    pub fn status(&self) -> (s: (bool, bool))
        ensures
            s == (self.processing, self.pause),
    {
        (self.processing, self.pause)
    }

    /// The idle predicate of the actuation sequencer: there is work exactly
    /// when an order is pending or exit was requested.
    pub fn has_work(&self) -> (r: bool)
        ensures
            r == (self.order is Some || self.exit),
    {
        self.order.is_some() || self.exit
    }

    /// The interrupt predicate of a timed actuation step: true when the
    /// current order must be abandoned.
    pub fn interrupt_requested(&self) -> (r: bool)
        ensures
            r == (self.exit || self.cancel),
    {
        self.exit || self.cancel
    }

    /// The pause predicate of a pausable actuation step.
    pub fn pause_requested(&self) -> (r: bool)
        ensures
            r == self.pause,
    {
        self.pause
    }

    /// The actuation sequencer takes the pending order and marks itself
    /// processing. The slot keeps the order until [`finish_order`] clears it.
    ///
    /// [`finish_order`]: Coordinator::finish_order
    pub fn begin_processing(&mut self) -> (ord: Order)
        requires
            old(self).wf(),
            old(self).order is Some,
        ensures
            *final(self) == (Coordinator { processing: true, ..*old(self) }),
            final(self).wf(),
            ord == old(self).order->Some_0,
    {
        self.processing = true;
        match self.order {
            Some(ord) => ord,
            None => Order { count_a: 0, count_b: 0 },
        }
    }

    /// The actuation sequencer finished (or abandoned) an order: the slot is
    /// emptied and `processing`, `cancel` and `pause` all return to false.
    /// Only `exit` survives.
    pub fn finish_order(&mut self)
        ensures
            *final(self) == (Coordinator {
                exit: old(self).exit,
                pause: false,
                cancel: false,
                processing: false,
                order: None,
            }),
            final(self).wf(),
    {
        self.order = None;
        self.processing = false;
        self.cancel = false;
        self.pause = false;
    }
}

/// What the actuation sequencer finds when it looks for work.
#[derive(Clone, Copy, PartialEq, Eq, Structural, Debug)]
pub enum NextWork {
    /// Exit was requested: the sequencer loop terminates.
    Exit,
    /// An order is pending: it is now processing, run it.
    Begin(Order),
    /// Neither: block until woken, then look again.
    Park,
}

impl Coordinator {
    /// The idle decision of the actuation sequencer: exit wins over a
    /// pending order; with neither, keep blocking. Taking an order marks it
    /// processing, as [`begin_processing`] does.
    ///
    /// [`begin_processing`]: Coordinator::begin_processing
    pub fn next_work(&mut self) -> (w: NextWork)
        requires
            old(self).wf(),
        ensures
            final(self).wf(),
            old(self).exit ==> w == NextWork::Exit && *final(self) == *old(self),
            !old(self).exit && old(self).order is Some ==> w == NextWork::Begin(
                old(self).order->Some_0,
            ) && *final(self) == (Coordinator { processing: true, ..*old(self) }),
            !old(self).exit && old(self).order is None ==> w == NextWork::Park && *final(self)
                == *old(self),
    {
        if self.exit {
            NextWork::Exit
        } else if self.order.is_some() {
            NextWork::Begin(self.begin_processing())
        } else {
            NextWork::Park
        }
    }
}

/// Requesting exit twice leaves the coordinator exactly as requesting it
/// once does, whatever the starting state.
pub proof fn lemma_request_exit_idempotent(c: Coordinator)
    ensures
        c.with_exit().with_exit() == c.with_exit(),
{
}

} // verus!
