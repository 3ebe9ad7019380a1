//! The fetch loop's state machine. The loop binds a buffer to a cursor, asks
//! the data source for one batch at a time, and stops for good once the
//! source signals end of data — or once a batch comes back short, since a
//! bulk-fetch cursor delivers fewer rows than asked only at the end of its
//! result set.

use vstd::prelude::*;
use crate::buffer::RowBatchBuffer;

verus! {

/// Where the loop stands with respect to its cursor.
#[derive(PartialEq, Eq, Structural, Clone, Copy, Debug)]
pub enum FetchState {
    /// Buffer attached to the cursor; no data fetched yet.
    Bound,
    /// A non-empty batch is available for iteration.
    Fetched,
    /// Terminal: no further fetch yields any row.
    Exhausted,
}

/// The loop's control state: bound to one buffer, fed one fetch outcome at a
/// time. `Some(n)` stands for a batch of `n` rows, `None` for the source's
/// end-of-data signal.
pub struct FetchLoop {
    state: FetchState,
    capacity: usize,
    end_signalled: bool,
}

impl FetchLoop {
    /// The loop's current state.
    pub closed spec fn state_spec(&self) -> FetchState {
        self.state
    }

    /// The batch capacity of the buffer the loop was bound to.
    pub closed spec fn cap(&self) -> nat {
        self.capacity as nat
    }

    /// The source has already signalled the end of its rows: either the loop
    /// is exhausted, or the last batch came back short and no further fetch
    /// can yield anything.
    pub closed spec fn end_seen(&self) -> bool {
        self.state is Exhausted || self.end_signalled
    }
}

/// The successor state after feeding one fetch outcome to the loop.
pub closed spec fn spec_step(pre: FetchLoop, outcome: Option<usize>) -> FetchLoop {
    if pre.end_seen() {
        FetchLoop { state: FetchState::Exhausted, capacity: pre.capacity, end_signalled: false }
    } else {
        match outcome {
            None => FetchLoop {
                state: FetchState::Exhausted,
                capacity: pre.capacity,
                end_signalled: false,
            },
            Some(n) => if n == 0 {
                FetchLoop {
                    state: FetchState::Exhausted,
                    capacity: pre.capacity,
                    end_signalled: false,
                }
            } else {
                FetchLoop {
                    state: FetchState::Fetched,
                    capacity: pre.capacity,
                    end_signalled: n < pre.capacity,
                }
            },
        }
    }
}

/// How many rows that step hands the caller for iteration.
pub open spec fn spec_step_rows(pre: FetchLoop, outcome: Option<usize>) -> usize {
    if pre.end_seen() {
        0
    } else {
        match outcome {
            None => 0,
            Some(n) => n,
        }
    }
}

/// The loop's state after feeding it a whole sequence of fetch outcomes.
pub open spec fn spec_run(start: FetchLoop, outcomes: Seq<Option<usize>>) -> FetchLoop
    decreases outcomes.len(),
{
    if outcomes.len() == 0 {
        start
    } else {
        spec_step(spec_run(start, outcomes.drop_last()), outcomes.last())
    }
}

impl FetchLoop {
    /// Binds the loop to a buffer: the initial state, before any fetch.
    pub fn bind(buf: &RowBatchBuffer) -> (lp: FetchLoop)
        ensures
            lp.state_spec() is Bound,
            lp.cap() == buf.batch_cap(),
            !lp.end_seen(),
    {
        FetchLoop {
            state: FetchState::Bound,
            capacity: buf.batch_capacity(),
            end_signalled: false,
        }
    }

    /// Whether another fetch is worth issuing: false once the source has
    /// signalled its end, so the loop never fetches past exhaustion.
    pub fn wants_fetch(&self) -> (r: bool)
        ensures
            r <==> !self.end_seen(),
    {
        !self.end_signalled && !matches!(self.state, FetchState::Exhausted)
    }

    /// The loop's current state.
    pub fn state(&self) -> (s: FetchState)
        ensures
            s == self.state_spec(),
    {
        self.state
    }

    /// Feeds the loop one fetch outcome and returns how many rows of the
    /// buffer the caller may iterate: `n` for a batch of `n > 0` rows, zero
    /// at or after the source's end of data. A non-empty batch moves the loop
    /// to `Fetched`; an end signal (or any attempt once the end was seen)
    /// moves it to `Exhausted`, which is terminal.
    pub fn record_fetch(&mut self, outcome: Option<usize>) -> (rows: usize)
        requires
            outcome matches Some(n) ==> n <= old(self).cap(),
        ensures
            *final(self) == spec_step(*old(self), outcome),
            rows == spec_step_rows(*old(self), outcome),
            final(self).cap() == old(self).cap(),
            old(self).end_seen() ==> final(self).state_spec() is Exhausted && rows == 0,
            !old(self).end_seen() && (outcome is None || outcome == Some(0usize)) ==> final(self).state_spec() is Exhausted && rows == 0,
            !old(self).end_seen() && (outcome matches Some(n) && n > 0) ==> final(self).state_spec() is Fetched && rows == outcome->Some_0 && (final(self).end_seen() <==> (outcome->Some_0 as nat) < old(self).cap()),
            final(self).state_spec() is Exhausted || final(self).state_spec() is Fetched,
    {
        if self.end_signalled || matches!(self.state, FetchState::Exhausted) {
            self.state = FetchState::Exhausted;
            self.end_signalled = false;
            return 0;
        }
        match outcome {
            None => {
                self.state = FetchState::Exhausted;
                self.end_signalled = false;
                0
            },
            Some(n) => {
                if n == 0 {
                    self.state = FetchState::Exhausted;
                    self.end_signalled = false;
                    0
                } else {
                    self.state = FetchState::Fetched;
                    self.end_signalled = n < self.capacity;
                    n
                }
            },
        }
    }
}

/// A batch shorter than the loop's capacity (or an end-of-data signal) marks
/// the end: after the step that delivers it, the end has been seen.
pub proof fn lemma_short_fetch_ends(pre: FetchLoop, outcome: Option<usize>)
    requires
        match outcome {
            None => true,
            Some(n) => n < pre.cap(),
        },
    ensures
        spec_step(pre, outcome).end_seen(),
{
}

/// Exhaustion law: once the end has been seen — the source signalled end of
/// data, a batch came back short or empty, or the loop is already exhausted —
/// every later fetch attempt yields zero rows, whatever outcomes are fed in,
/// and the loop reaches and stays in `Exhausted`.
pub proof fn lemma_exhaustion(start: FetchLoop, outcomes: Seq<Option<usize>>)
    requires
        start.end_seen(),
    ensures
        spec_run(start, outcomes).end_seen(),
        outcomes.len() > 0 ==> spec_run(start, outcomes).state_spec() is Exhausted,
        forall|k: int|
            0 <= k < outcomes.len() ==> #[trigger] spec_step_rows(
                spec_run(start, outcomes.take(k)),
                outcomes[k],
            ) == 0,
    decreases outcomes.len(),
{
    if outcomes.len() > 0 {
        lemma_exhaustion(start, outcomes.drop_last());
        assert(outcomes.drop_last() =~= outcomes.take(outcomes.len() - 1));
        assert forall|k: int|
            0 <= k < outcomes.len() implies #[trigger] spec_step_rows(
            spec_run(start, outcomes.take(k)),
            outcomes[k],
        ) == 0 by {
            if k < outcomes.len() - 1 {
                assert(outcomes.take(k) =~= outcomes.drop_last().take(k));
                assert(outcomes[k] == outcomes.drop_last()[k]);
            }
        }
    }
}

} // verus!
