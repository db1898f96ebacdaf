//! The compute budget of a bot and the verdict on its handshake.
//!
//! The budget is counted in baseline ticks. Each request may take as long as the budget
//! that is left; a request that comes back quickly earns some of it back.

use vstd::prelude::*;
use crate::ipc::ResponseError;

verus! {

/// The budget of a fresh bot, and the most that a bot can hold.
pub const TOTAL_COMPUTE_TICKS: u32 = 100_000;

/// The ticks that a request may take for free.
pub const DELAY_TICKS: u32 = 2_000;

/// Seconds that a bot has for its handshake.
pub const HANDSHAKE_TIMEOUT_SECS: u64 = 10;

/// The budget after a request that took `elapsed` ticks.
pub open spec fn settled(ticks: u32, elapsed: u32) -> int {
    if elapsed <= DELAY_TICKS {
        if ticks + DELAY_TICKS - elapsed < TOTAL_COMPUTE_TICKS {
            ticks + DELAY_TICKS - elapsed
        } else {
            TOTAL_COMPUTE_TICKS as int
        }
    } else if elapsed - DELAY_TICKS < ticks {
        ticks - (elapsed - DELAY_TICKS)
    } else {
        0
    }
}

/// The baseline ticks that a time span amounts to, rounded down, and as many as the
/// counter holds at most. A baseline of no length makes any span endless and leaves an
/// empty span at zero.
pub open spec fn ticks_in(elapsed_nanos: u128, baseline_nanos: u64) -> int {
    if baseline_nanos == 0 {
        if elapsed_nanos == 0 {
            0
        } else {
            u32::MAX as int
        }
    } else if elapsed_nanos / (baseline_nanos as u128) > u32::MAX {
        u32::MAX as int
    } else {
        (elapsed_nanos / (baseline_nanos as u128)) as int
    }
}

/// How a handshake ended.
#[derive(Clone, Copy, Debug, PartialEq, Eq, Structural)]
pub enum HandshakeVerdict {
    /// The bot returned the expected magic.
    Accepted,
    /// The request itself failed.
    Failed { error: ResponseError },
    /// The bot returned another number.
    WrongMagic { expected: u32, got: u32 },
}

/// What to do with a request to a bot.
#[derive(Clone, Copy, Debug, PartialEq, Eq, Structural)]
pub enum RequestPlan {
    /// The bot has exited: make no request and take the default response.
    Skip,
    /// Make the request and wait this many nanoseconds at most.
    Send { nanos: u128 },
}

/// The compute budget of one bot.
#[derive(Clone, Copy, Debug, PartialEq, Eq, Structural)]
pub struct Budget {
    pub ticks: u32,
}

impl Budget {
    /// A budget never holds more than the total.
    pub open spec fn wf(self) -> bool {
        self.ticks <= TOTAL_COMPUTE_TICKS
    }

    /// The budget of a fresh bot.
    pub fn new() -> (r: Budget)
        ensures
            r.ticks == TOTAL_COMPUTE_TICKS,
            r.wf(),
    {
        Budget { ticks: TOTAL_COMPUTE_TICKS }
    }

    /// The time that the next request may take: the budget times the baseline tick.
    pub fn duration(&self, baseline_nanos: u64) -> (nanos: u128)
        ensures
            nanos == self.ticks * baseline_nanos,
    {
        assert(self.ticks * baseline_nanos <= 0xffff_ffff * 0xffff_ffff_ffff_ffff) by (nonlinear_arith)
            requires
                self.ticks <= 0xffff_ffff,
                baseline_nanos <= 0xffff_ffff_ffff_ffff,
        ;
        (self.ticks as u128) * (baseline_nanos as u128)
    }

    /// Plans a request: none to a bot that has exited, which also loses its budget, else
    /// one bounded by the budget.
    pub fn plan(&mut self, exited: bool, baseline_nanos: u64) -> (r: RequestPlan)
        ensures
            exited ==> r == RequestPlan::Skip && final(self).ticks == 0,
            !exited ==> r == (RequestPlan::Send {
                nanos: (old(self).ticks * baseline_nanos) as u128,
            }) && *final(self) == *old(self),
    {
        if exited {
            self.ticks = 0;
            RequestPlan::Skip
        } else {
            RequestPlan::Send { nanos: self.duration(baseline_nanos) }
        }
    }

    /// Settles the budget after a request that took `elapsed` baseline ticks.
    pub fn settle(&mut self, elapsed: u32)
        ensures
            final(self).ticks == settled(old(self).ticks, elapsed),
            old(self).wf() ==> final(self).wf(),
    {
        self.ticks = if elapsed <= DELAY_TICKS {
            let grown: u64 = self.ticks as u64 + (DELAY_TICKS - elapsed) as u64;
            if grown < TOTAL_COMPUTE_TICKS as u64 {
                grown as u32
            } else {
                TOTAL_COMPUTE_TICKS
            }
        } else {
            let over: u32 = elapsed - DELAY_TICKS;
            if over < self.ticks {
                self.ticks - over
            } else {
                0
            }
        };
    }

    /// Takes the whole budget away.
    pub fn forfeit(&mut self)
        ensures
            final(self).ticks == 0,
    {
        self.ticks = 0;
    }

    /// Applies the verdict on the handshake: a bot that failed it loses its budget and is
    /// to be killed. Returns whether the bot stays in the match.
    pub fn after_handshake(&mut self, verdict: HandshakeVerdict) -> (alive: bool)
        ensures
            alive == (verdict == HandshakeVerdict::Accepted),
            alive ==> *final(self) == *old(self),
            !alive ==> final(self).ticks == 0,
    {
        match verdict {
            HandshakeVerdict::Accepted => true,
            _ => {
                self.ticks = 0;
                false
            },
        }
    }
}

/// Counts the time that a request took in baseline ticks.
pub fn elapsed_ticks(elapsed_nanos: u128, baseline_nanos: u64) -> (r: u32)
    ensures
        r == ticks_in(elapsed_nanos, baseline_nanos),
{
    if baseline_nanos == 0 {
        if elapsed_nanos == 0 {
            0
        } else {
            u32::MAX
        }
    } else {
        let ticks: u128 = elapsed_nanos / (baseline_nanos as u128);
        if ticks > u32::MAX as u128 {
            u32::MAX
        } else {
            ticks as u32
        }
    }
}

/// Judges the reply to a handshake against the magic that a bot has to return.
pub fn handshake_verdict(reply: Result<u32, ResponseError>, expected: u32) -> (r: HandshakeVerdict)
    ensures
        r == (match reply {
            Err(error) => HandshakeVerdict::Failed { error },
            Ok(got) => if got == expected {
                HandshakeVerdict::Accepted
            } else {
                HandshakeVerdict::WrongMagic { expected, got }
            },
        }),
{
    match reply {
        Err(error) => HandshakeVerdict::Failed { error },
        Ok(got) => {
            if got == expected {
                HandshakeVerdict::Accepted
            } else {
                HandshakeVerdict::WrongMagic { expected, got }
            }
        },
    }
}

/// A bot that answers within the free delay never loses budget, and one that takes longer
/// never gains any; a bot that overruns the delay by at least its whole budget is left
/// with none.
pub proof fn lemma_settle_direction(ticks: u32, elapsed: u32)
    requires
        ticks <= TOTAL_COMPUTE_TICKS,
    ensures
        0 <= settled(ticks, elapsed) <= TOTAL_COMPUTE_TICKS,
        elapsed <= DELAY_TICKS ==> settled(ticks, elapsed) >= ticks,
        elapsed > DELAY_TICKS ==> settled(ticks, elapsed) < ticks || ticks == 0,
        elapsed - DELAY_TICKS >= ticks ==> settled(ticks, elapsed) == 0 || elapsed <= DELAY_TICKS,
{
}

/// The budget after `requests` requests that took `elapsed` ticks each.
pub open spec fn settled_times(ticks: u32, elapsed: u32, requests: nat) -> int
    decreases requests,
{
    if requests == 0 {
        ticks as int
    } else {
        settled(settled_times(ticks, elapsed, (requests - 1) as nat) as u32, elapsed)
    }
}

/// Sustained overuse drives the budget to zero, and steady quick answers fill it up: after
/// a run of requests that each overran the free delay by `elapsed - DELAY_TICKS`, the
/// budget has lost that much for each request, down to zero; after a run of requests
/// that each stayed `DELAY_TICKS - elapsed` below the delay, it has gained that much for
/// each, up to the total.
pub proof fn lemma_sustained(ticks: u32, elapsed: u32, requests: nat)
    requires
        ticks <= TOTAL_COMPUTE_TICKS,
    ensures
        0 <= settled_times(ticks, elapsed, requests) <= TOTAL_COMPUTE_TICKS,
        elapsed > DELAY_TICKS ==> settled_times(ticks, elapsed, requests) == (if ticks > requests
            * (elapsed - DELAY_TICKS) {
            ticks - requests * (elapsed - DELAY_TICKS)
        } else {
            0
        }),
        elapsed <= DELAY_TICKS ==> settled_times(ticks, elapsed, requests) == (if ticks + requests
            * (DELAY_TICKS - elapsed) < TOTAL_COMPUTE_TICKS {
            ticks + requests * (DELAY_TICKS - elapsed)
        } else {
            TOTAL_COMPUTE_TICKS as int
        }),
    decreases requests,
{
    if requests > 0 {
        let before = (requests - 1) as nat;
        lemma_sustained(ticks, elapsed, before);
        if elapsed > DELAY_TICKS {
            let d = elapsed - DELAY_TICKS;
            assert(requests * d == before * d + d) by (nonlinear_arith)
                requires
                    requests == before + 1,
            ;
            assert(before * d >= 0) by (nonlinear_arith)
                requires
                    d >= 0,
            ;
        } else {
            let d = DELAY_TICKS - elapsed;
            assert(requests * d == before * d + d) by (nonlinear_arith)
                requires
                    requests == before + 1,
            ;
            assert(before * d >= 0) by (nonlinear_arith)
                requires
                    d >= 0,
            ;
        }
    }
}

} // verus!
