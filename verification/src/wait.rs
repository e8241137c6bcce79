//! Interruptible and pausable waits.
//!
//! A timed wait blocks up to a duration, re-checking an interrupt predicate
//! on every wake (including spurious ones) against an absolute deadline fixed
//! at call start. The blocking itself happens outside this crate; what is
//! verified here is, first, the per-wake decision ([`wait_step`],
//! [`pausable_step`]) that the outer loop follows, and second, the whole loop
//! over an explicit timeline: [`wait_interruptible`] and [`wait_pausable`]
//! take the sequence of instants at which the thread woke and run the exact
//! same decision logic over it, so the loop's behaviour is stated and proved
//! for every wake pattern at once.
//!
//! Time is in nanoseconds. A predicate that "becomes true at `t` and stays
//! true" is passed as the instant `t` itself; a pause predicate as the
//! half-open interval during which it holds.

use vstd::prelude::*;

verus! {

/// What a waiting thread does next, decided from the current instant and the
/// absolute deadline fixed when the wait began.
#[derive(Clone, Copy, PartialEq, Eq, Structural, Debug)]
pub enum WaitStep {
    /// The deadline has passed: stop waiting and report no interruption.
    TimedOut,
    /// Block for at most the remaining budget, then re-check.
    Sleep { remaining_ns: u64 },
    /// Paused: block with no timeout until woken, then re-check.
    Block,
}

/// What [`wait_step`] decides.
pub open spec fn wait_step_spec(now_ns: u64, deadline_ns: u64) -> WaitStep {
    if now_ns > deadline_ns {
        WaitStep::TimedOut
    } else {
        WaitStep::Sleep { remaining_ns: (deadline_ns - now_ns) as u64 }
    }
}

/// The per-wake decision of an interruptible wait: give up once the deadline
/// has passed, otherwise sleep exactly the remaining budget. The budget is
/// always `deadline - now`, never a decremented counter, so repeated spurious
/// wakes cannot stretch the wait.
pub fn wait_step(now_ns: u64, deadline_ns: u64) -> (step: WaitStep)
    ensures
        step == wait_step_spec(now_ns, deadline_ns),
{
    if now_ns > deadline_ns {
        WaitStep::TimedOut
    } else {
        WaitStep::Sleep { remaining_ns: deadline_ns - now_ns }
    }
}

/// The per-wake decision of a pausable wait: while the pause predicate holds
/// the thread blocks with no timeout — the deadline is not even consulted —
/// and otherwise it decides exactly as [`wait_step`]. The deadline never
/// moves, so time spent paused still counts against the duration budget.
pub fn pausable_step(now_ns: u64, deadline_ns: u64, paused: bool) -> (step: WaitStep)
    ensures
        paused ==> step == WaitStep::Block,
        !paused ==> step == wait_step_spec(now_ns, deadline_ns),
{
    if paused {
        WaitStep::Block
    } else {
        wait_step(now_ns, deadline_ns)
    }
}

/// The wake instants are strictly increasing: each park wakes later than the
/// one before. Every real timeline satisfies this.
pub open spec fn strictly_increasing(wakes: Seq<u64>) -> bool {
    forall|i: int, j: int| 0 <= i < j < wakes.len() ==> wakes[i] < wakes[j]
}

/// The outcome of an interruptible wait, unrolled over the wake timeline:
/// `(interrupted, end_ns)`. From instant `now`, the wait ends uninterrupted
/// once `now` passes the deadline; otherwise the thread sleeps, wakes at the
/// next listed instant, and ends interrupted if the predicate (true from
/// `cond_from_ns` on) holds then.
pub open spec fn wait_outcome(deadline_ns: u64, cond_from_ns: u64, wakes: Seq<u64>, now: u64) -> (
    bool,
    u64,
)
    decreases wakes.len(),
{
    if now > deadline_ns {
        (false, now)
    } else if wakes.len() == 0 {
        (false, now)
    } else if wakes[0] >= cond_from_ns {
        (true, wakes[0])
    } else {
        wait_outcome(deadline_ns, cond_from_ns, wakes.drop_first(), wakes[0])
    }
}

/// Enough wakes to outlast the deadline: the last one falls after it. A real
/// sleep of the remaining budget provides this, since it returns no earlier
/// than the deadline unless an unpark comes first.
pub open spec fn outlasts(wakes: Seq<u64>, deadline_ns: u64) -> bool {
    wakes.len() > 0 && wakes[wakes.len() - 1] > deadline_ns
}

/// Blocks up to `dur_ns`, re-checking on every wake a predicate that becomes
/// true at `cond_from_ns` and stays true. Returns whether the predicate
/// interrupted the wait and the instant at which the wait ended. `wakes`
/// lists every instant at which the thread woke, spurious wakes included.
pub fn wait_interruptible(start_ns: u64, dur_ns: u64, cond_from_ns: u64, wakes: &Vec<u64>) -> (r: (
    bool,
    u64,
))
    requires
        start_ns + dur_ns <= u64::MAX,
        outlasts(wakes@, (start_ns + dur_ns) as u64),
    ensures
        r == wait_outcome((start_ns + dur_ns) as u64, cond_from_ns, wakes@, start_ns),
{
    let deadline_ns: u64 = start_ns + dur_ns;
    let mut now: u64 = start_ns;
    let mut i: usize = 0;
    proof {
        assert(wakes@.skip(0) =~= wakes@);
    }
    loop
        invariant
            deadline_ns == start_ns + dur_ns,
            outlasts(wakes@, deadline_ns),
            i <= wakes@.len(),
            i > 0 ==> now == wakes@[i - 1],
            i == 0 ==> now == start_ns,
            wait_outcome(deadline_ns, cond_from_ns, wakes@.skip(i as int), now) == wait_outcome(
                deadline_ns,
                cond_from_ns,
                wakes@,
                start_ns,
            ),
        decreases wakes@.len() - i,
    {
        let step = wait_step(now, deadline_ns);
        if let WaitStep::TimedOut = step {
            proof {
                assert(wait_outcome(deadline_ns, cond_from_ns, wakes@.skip(i as int), now) == (
                    false,
                    now,
                ));
            }
            return (false, now);
        }
        proof {
            // We did not time out, so now <= deadline; since the last wake
            // lies past the deadline, `now` is not the last wake and at
            // least one wake is still ahead.
            assert(now <= deadline_ns);
            if i > 0 {
                assert(now == wakes@[i - 1]);
                assert(i - 1 < wakes@.len() - 1);
            }
            assert(i < wakes@.len());
            let rest = wakes@.skip(i as int);
            assert(rest[0] == wakes@[i as int]);
            assert(rest.drop_first() =~= wakes@.skip(i as int + 1));
            if wakes@[i as int] >= cond_from_ns {
                assert(wait_outcome(deadline_ns, cond_from_ns, rest, now) == (
                    true,
                    wakes@[i as int],
                ));
            } else {
                assert(wait_outcome(deadline_ns, cond_from_ns, rest, now) == wait_outcome(
                    deadline_ns,
                    cond_from_ns,
                    wakes@.skip(i as int + 1),
                    wakes@[i as int],
                ));
            }
        }
        let n = wakes.len();
        assert(i < n);
        now = wakes[i];
        i = i + 1;
        if now >= cond_from_ns {
            return (true, now);
        }
    }
}

/// Whether an instant falls inside the pause window.
pub open spec fn in_pause(pause_from_ns: u64, pause_until_ns: u64, t: u64) -> bool {
    pause_from_ns <= t < pause_until_ns
}

/// The outcome of a pausable wait, unrolled over the wake timeline. At a
/// wake inside the pause window `[pause_from_ns, pause_until_ns)` the thread
/// blocks with no timeout — the deadline is not consulted — and otherwise it
/// proceeds as [`wait_outcome`]. Either way a wake at or after
/// `cond_from_ns` ends the wait as interrupted.
pub open spec fn pausable_outcome(
    deadline_ns: u64,
    cond_from_ns: u64,
    pause_from_ns: u64,
    pause_until_ns: u64,
    wakes: Seq<u64>,
    now: u64,
) -> (bool, u64)
    decreases wakes.len(),
{
    if !in_pause(pause_from_ns, pause_until_ns, now) && now > deadline_ns {
        (false, now)
    } else if wakes.len() == 0 {
        (false, now)
    } else if wakes[0] >= cond_from_ns {
        (true, wakes[0])
    } else {
        pausable_outcome(
            deadline_ns,
            cond_from_ns,
            pause_from_ns,
            pause_until_ns,
            wakes.drop_first(),
            wakes[0],
        )
    }
}

/// Blocks up to `dur_ns` like [`wait_interruptible`], except that at a wake
/// inside the pause window `[pause_from_ns, pause_until_ns)` the thread
/// blocks indefinitely instead of counting the deadline. The deadline stays
/// the one fixed at call start, so time spent paused is not given back.
pub fn wait_pausable(
    start_ns: u64,
    dur_ns: u64,
    cond_from_ns: u64,
    pause_from_ns: u64,
    pause_until_ns: u64,
    wakes: &Vec<u64>,
) -> (r: (bool, u64))
    requires
        start_ns + dur_ns <= u64::MAX,
        outlasts(wakes@, (start_ns + dur_ns) as u64),
        // the pause ends within the timeline: the last wake is not paused
        !in_pause(pause_from_ns, pause_until_ns, wakes@[wakes@.len() - 1]),
    ensures
        r == pausable_outcome(
            (start_ns + dur_ns) as u64,
            cond_from_ns,
            pause_from_ns,
            pause_until_ns,
            wakes@,
            start_ns,
        ),
{
    let deadline_ns: u64 = start_ns + dur_ns;
    let mut now: u64 = start_ns;
    let mut i: usize = 0;
    proof {
        assert(wakes@.skip(0) =~= wakes@);
    }
    loop
        invariant
            deadline_ns == start_ns + dur_ns,
            outlasts(wakes@, deadline_ns),
            !in_pause(pause_from_ns, pause_until_ns, wakes@[wakes@.len() - 1]),
            i <= wakes@.len(),
            i > 0 ==> now == wakes@[i - 1],
            i == 0 ==> now == start_ns,
            pausable_outcome(
                deadline_ns,
                cond_from_ns,
                pause_from_ns,
                pause_until_ns,
                wakes@.skip(i as int),
                now,
            ) == pausable_outcome(
                deadline_ns,
                cond_from_ns,
                pause_from_ns,
                pause_until_ns,
                wakes@,
                start_ns,
            ),
        decreases wakes@.len() - i,
    {
        let paused = pause_from_ns <= now && now < pause_until_ns;
        let step = pausable_step(now, deadline_ns, paused);
        if let WaitStep::TimedOut = step {
            proof {
                assert(!in_pause(pause_from_ns, pause_until_ns, now) && now > deadline_ns);
                assert(pausable_outcome(
                    deadline_ns,
                    cond_from_ns,
                    pause_from_ns,
                    pause_until_ns,
                    wakes@.skip(i as int),
                    now,
                ) == (false, now));
            }
            return (false, now);
        }
        proof {
            // We are about to sleep, so a wake must remain. Were `now` the
            // last wake, it would be unpaused (the window spares the last
            // wake) and past the deadline (the last wake outlasts it), so
            // the step would have been TimedOut.
            if i > 0 {
                assert(now == wakes@[i - 1]);
                if i - 1 == wakes@.len() - 1 {
                    assert(!paused);
                    assert(now > deadline_ns);
                    assert(false);
                }
            }
            assert(i < wakes@.len());
            let rest = wakes@.skip(i as int);
            assert(rest[0] == wakes@[i as int]);
            assert(rest.drop_first() =~= wakes@.skip(i as int + 1));
            if wakes@[i as int] >= cond_from_ns {
                assert(pausable_outcome(
                    deadline_ns,
                    cond_from_ns,
                    pause_from_ns,
                    pause_until_ns,
                    rest,
                    now,
                ) == (true, wakes@[i as int]));
            } else {
                assert(pausable_outcome(
                    deadline_ns,
                    cond_from_ns,
                    pause_from_ns,
                    pause_until_ns,
                    rest,
                    now,
                ) == pausable_outcome(
                    deadline_ns,
                    cond_from_ns,
                    pause_from_ns,
                    pause_until_ns,
                    wakes@.skip(i as int + 1),
                    wakes@[i as int],
                ));
            }
        }
        let n = wakes.len();
        assert(i < n);
        now = wakes[i];
        i = i + 1;
        if now >= cond_from_ns {
            return (true, now);
        }
    }
}

/// A wait whose interrupt predicate becomes true at `cond_from_ns`, no later
/// than the deadline, ends interrupted exactly at `cond_from_ns`, provided
/// the timeline wakes the waiter then (the producer unparks the thread when
/// it sets the predicate). Spurious earlier wakes change nothing.
pub proof fn lemma_wait_interrupted_promptly(
    deadline_ns: u64,
    cond_from_ns: u64,
    wakes: Seq<u64>,
    now: u64,
)
    requires
        strictly_increasing(wakes),
        wakes.contains(cond_from_ns),
        now < cond_from_ns <= deadline_ns,
    ensures
        wait_outcome(deadline_ns, cond_from_ns, wakes, now) == (true, cond_from_ns),
    decreases wakes.len(),
{
    let k = choose|k: int| 0 <= k < wakes.len() && wakes[k] == cond_from_ns;
    if wakes[0] >= cond_from_ns {
        // the wake at cond_from_ns is the earliest at or after it
        if k > 0 {
            assert(wakes[0] < wakes[k]);
            assert(false);
        }
        assert(wakes[0] == cond_from_ns);
    } else {
        let rest = wakes.drop_first();
        assert(rest[k - 1] == cond_from_ns);
        assert(rest.contains(cond_from_ns));
        assert forall|i: int, j: int| 0 <= i < j < rest.len() implies rest[i] < rest[j] by {
            assert(wakes[i + 1] < wakes[j + 1]);
        }
        lemma_wait_interrupted_promptly(deadline_ns, cond_from_ns, rest, wakes[0]);
    }
}

/// A wait whose interrupt predicate holds at no wake of the timeline ends
/// uninterrupted, at the first wake past the deadline — within one
/// scheduler wake of the requested duration.
pub proof fn lemma_wait_runs_out(deadline_ns: u64, cond_from_ns: u64, wakes: Seq<u64>, now: u64)
    requires
        strictly_increasing(wakes),
        outlasts(wakes, deadline_ns),
        forall|j: int| 0 <= j < wakes.len() ==> wakes[j] < cond_from_ns,
        now <= deadline_ns,
    ensures
        !wait_outcome(deadline_ns, cond_from_ns, wakes, now).0,
        wait_outcome(deadline_ns, cond_from_ns, wakes, now).1 > deadline_ns,
        wakes.contains(wait_outcome(deadline_ns, cond_from_ns, wakes, now).1),
        forall|j: int|
            0 <= j < wakes.len() && wakes[j] < wait_outcome(
                deadline_ns,
                cond_from_ns,
                wakes,
                now,
            ).1 ==> wakes[j] <= deadline_ns,
    decreases wakes.len(),
{
    assert(wakes[0] < cond_from_ns);
    let rest = wakes.drop_first();
    if wakes[0] > deadline_ns {
        // the next recursion step times out at wakes[0]; every earlier wake
        // is none, so wakes[0] is the first wake past the deadline
        assert(wait_outcome(deadline_ns, cond_from_ns, rest, wakes[0]) == (false, wakes[0]));
        assert(wait_outcome(deadline_ns, cond_from_ns, wakes, now) == (false, wakes[0]));
        assert forall|j: int|
            0 <= j < wakes.len() && #[trigger] wakes[j] < wakes[0] implies wakes[j]
            <= deadline_ns by {
            if j > 0 {
                assert(wakes[0] < wakes[j]);
            }
        }
    } else {
        assert(rest.len() > 0 && wakes[wakes.len() - 1] > deadline_ns);
        assert(rest[rest.len() - 1] == wakes[wakes.len() - 1]);
        assert forall|i: int, j: int| 0 <= i < j < rest.len() implies rest[i] < rest[j] by {
            assert(wakes[i + 1] < wakes[j + 1]);
        }
        assert(forall|j: int| 0 <= j < rest.len() ==> rest[j] == wakes[j + 1]);
        lemma_wait_runs_out(deadline_ns, cond_from_ns, rest, wakes[0]);
        let end = wait_outcome(deadline_ns, cond_from_ns, rest, wakes[0]).1;
        assert(wait_outcome(deadline_ns, cond_from_ns, wakes, now).1 == end);
        let kr = choose|k: int| 0 <= k < rest.len() && rest[k] == end;
        assert(wakes[kr + 1] == end);
        assert(wakes.contains(end));
        assert forall|j: int|
            0 <= j < wakes.len() && #[trigger] wakes[j] < end implies wakes[j] <= deadline_ns by {
            if j > 0 {
                assert(rest[j - 1] == wakes[j]);
                assert(rest[j - 1] < end);
            }
        }
    }
}

/// With an empty pause window a pausable wait behaves exactly as an
/// interruptible one: the pause predicate is the only difference between
/// the two primitives.
pub proof fn lemma_pausable_without_pause(
    deadline_ns: u64,
    cond_from_ns: u64,
    pause_from_ns: u64,
    pause_until_ns: u64,
    wakes: Seq<u64>,
    now: u64,
)
    requires
        pause_until_ns <= pause_from_ns,
    ensures
        pausable_outcome(deadline_ns, cond_from_ns, pause_from_ns, pause_until_ns, wakes, now)
            == wait_outcome(deadline_ns, cond_from_ns, wakes, now),
    decreases wakes.len(),
{
    if now > deadline_ns || wakes.len() == 0 || wakes[0] >= cond_from_ns {
    } else {
        lemma_pausable_without_pause(
            deadline_ns,
            cond_from_ns,
            pause_from_ns,
            pause_until_ns,
            wakes.drop_first(),
            wakes[0],
        );
    }
}

/// A pausable wait never gives up while paused: if it ends uninterrupted,
/// the instant at which it ends lies outside the pause window (and past the
/// deadline). While the pause predicate holds, the wait only blocks.
pub proof fn lemma_pausable_blocks_while_paused(
    deadline_ns: u64,
    cond_from_ns: u64,
    pause_from_ns: u64,
    pause_until_ns: u64,
    wakes: Seq<u64>,
    now: u64,
)
    requires
        outlasts(wakes, deadline_ns),
        !in_pause(pause_from_ns, pause_until_ns, wakes[wakes.len() - 1]),
    ensures
        !pausable_outcome(
            deadline_ns,
            cond_from_ns,
            pause_from_ns,
            pause_until_ns,
            wakes,
            now,
        ).0 ==> {
            let end = pausable_outcome(
                deadline_ns,
                cond_from_ns,
                pause_from_ns,
                pause_until_ns,
                wakes,
                now,
            ).1;
            !in_pause(pause_from_ns, pause_until_ns, end) && end > deadline_ns
        },
    decreases wakes.len(),
{
    if !in_pause(pause_from_ns, pause_until_ns, now) && now > deadline_ns {
    } else if wakes[0] >= cond_from_ns {
    } else {
        let rest = wakes.drop_first();
        if rest.len() == 0 {
            // `now` neither timed out nor was interrupted, so the single
            // remaining wake is consumed; being the last, it is unpaused and
            // past the deadline, so the recursion ends uninterrupted there.
            assert(pausable_outcome(
                deadline_ns,
                cond_from_ns,
                pause_from_ns,
                pause_until_ns,
                rest,
                wakes[0],
            ) == (false, wakes[0]));
        } else {
            assert(rest[rest.len() - 1] == wakes[wakes.len() - 1]);
            lemma_pausable_blocks_while_paused(
                deadline_ns,
                cond_from_ns,
                pause_from_ns,
                pause_until_ns,
                rest,
                wakes[0],
            );
        }
    }
}

} // verus!
