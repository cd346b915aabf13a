//! The search worker: one message buffer, one target pattern, and the
//! increment-hash-compare cycle on them.
//!
//! A worker is a two-state machine. It starts `Searching`, and enters `Found`
//! on the first digest that begins with the whole target pattern; `Found` is
//! terminal. Every digest that begins with the partial prefix of the pattern
//! is counted.

use crate::counter::{advance, increment_counter, law_advance_composes, law_advance_zero};
use crate::digest::{sha256, sha256_raw, MAX_MESSAGE_LEN};
use crate::matching::{has_prefix, judge, verdict_on, Verdict};
use vstd::prelude::*;

verus! {

/// The two states of a worker.
#[derive(Clone, Copy, Debug, PartialEq, Eq, Structural)]
pub enum WorkerState {
    /// No digest has matched the whole pattern yet.
    Searching,
    /// The buffer holds a message whose digest was seen to match the whole
    /// pattern.
    Found,
}

/// The mathematical model of a worker.
pub struct WorkerModel {
    /// The message buffer: fixed prefix, then counter region.
    pub buffer: Seq<u8>,
    /// Width of the counter region at the end of the buffer.
    pub counter_width: nat,
    /// The target pattern.
    pub pattern: Seq<u8>,
    /// How many leading bytes of the pattern make a partial match.
    pub partial_len: nat,
    /// How many digests have matched the partial prefix so far.
    pub partial_matches: nat,
    /// Where the worker stands.
    pub state: WorkerState,
}

impl WorkerModel {
    /// The configurations a worker can have: the counter lies within the
    /// buffer, the buffer can be hashed, and the partial prefix lies within
    /// the pattern.
    pub open spec fn valid(self) -> bool {
        &&& self.counter_width <= self.buffer.len()
        &&& self.buffer.len() <= MAX_MESSAGE_LEN
        &&& self.partial_len <= self.pattern.len()
    }

    /// The message that the worker hashes at its `k`-th step from here.
    pub open spec fn candidate(self, k: nat) -> Seq<u8> {
        advance(self.buffer, self.counter_width, k)
    }

    /// The worker with its counter moved `k` steps on and nothing else changed.
    pub open spec fn moved(self, k: nat) -> WorkerModel {
        WorkerModel { buffer: self.candidate(k), ..self }
    }

    /// The verdict of this worker's pattern on `digest`.
    pub open spec fn verdict_on(self, digest: Seq<u8>) -> Verdict {
        verdict_on(digest, self.pattern, self.partial_len)
    }

    /// The verdict on the digest of the `k`-th candidate from here.
    pub open spec fn verdict_at(self, k: nat) -> Verdict {
        self.verdict_on(sha256(self.candidate(k)))
    }

    /// The worker after it has been shown `digest`. A `Found` worker stays as
    /// it is. A `Searching` one counts a partial or full match, and enters
    /// `Found` on a full one.
    pub open spec fn observed(self, digest: Seq<u8>) -> WorkerModel {
        if self.state == WorkerState::Found {
            self
        } else {
            match self.verdict_on(digest) {
                Verdict::Miss => self,
                Verdict::Partial => WorkerModel {
                    partial_matches: self.partial_matches + 1,
                    ..self
                },
                Verdict::Full => WorkerModel {
                    partial_matches: self.partial_matches + 1,
                    state: WorkerState::Found,
                    ..self
                },
            }
        }
    }

    /// What `observe` answers for `digest`.
    pub open spec fn answer(self, digest: Seq<u8>) -> Verdict {
        if self.state == WorkerState::Found {
            Verdict::Full
        } else {
            self.verdict_on(digest)
        }
    }

    /// The worker after `k >= 1` steps of which the first `k - 1` were
    /// misses: the counter has moved `k` times and the last digest has been
    /// observed.
    pub open spec fn after(self, k: nat) -> WorkerModel {
        self.moved(k).observed(sha256(self.candidate(k)))
    }

    /// Whether one more match can be counted without overflow.
    pub open spec fn can_count(self) -> bool {
        self.state == WorkerState::Searching ==> self.partial_matches < u64::MAX
    }
}

/// How a searching worker takes a digest. One that begins with the partial
/// prefix but not with the whole pattern is counted and the search goes on;
/// one that begins with the whole pattern is counted and ends the search; any
/// other leaves the worker as it was.
pub proof fn law_partial_counts_full_terminates(worker: WorkerModel, digest: Seq<u8>)
    requires
        worker.valid(),
        worker.state == WorkerState::Searching,
    ensures
        has_prefix(digest, worker.pattern) ==> worker.observed(digest) == (WorkerModel {
            partial_matches: worker.partial_matches + 1,
            state: WorkerState::Found,
            ..worker
        }),
        has_prefix(digest, worker.pattern.take(worker.partial_len as int)) && !has_prefix(
            digest,
            worker.pattern,
        ) ==> worker.observed(digest) == (WorkerModel {
            partial_matches: worker.partial_matches + 1,
            ..worker
        }),
        !has_prefix(digest, worker.pattern.take(worker.partial_len as int)) ==> worker.observed(
            digest,
        ) == worker,
{
}

/// What a bounded run of a worker came to.
#[derive(Clone, Copy, Debug, PartialEq, Eq, Structural)]
pub struct RunReport {
    /// The verdict on the last digest computed; `Miss` if none was.
    pub verdict: Verdict,
    /// How many candidates were hashed.
    pub steps: u64,
}

/// A search worker.
pub struct Worker {
    buffer: Vec<u8>,
    counter_width: usize,
    pattern: Vec<u8>,
    partial_len: usize,
    partial_matches: u64,
    state: WorkerState,
}

impl View for Worker {
    type V = WorkerModel;

    closed spec fn view(&self) -> WorkerModel {
        WorkerModel {
            buffer: self.buffer@,
            counter_width: self.counter_width as nat,
            pattern: self.pattern@,
            partial_len: self.partial_len as nat,
            partial_matches: self.partial_matches as nat,
            state: self.state,
        }
    }
}

impl Worker {
    /// A worker in state `Searching` on `buffer`, whose last `counter_width`
    /// bytes are the counter, looking for `pattern`, with no match counted
    /// yet. `None` if the configuration is not valid.
    pub fn new(buffer: Vec<u8>, counter_width: usize, pattern: Vec<u8>, partial_len: usize) -> (made:
        Option<Worker>)
        ensures
            match made {
                Some(worker) => worker@ == (WorkerModel {
                    buffer: buffer@,
                    counter_width: counter_width as nat,
                    pattern: pattern@,
                    partial_len: partial_len as nat,
                    partial_matches: 0,
                    state: WorkerState::Searching,
                }) && worker@.valid(),
                None => !(WorkerModel {
                    buffer: buffer@,
                    counter_width: counter_width as nat,
                    pattern: pattern@,
                    partial_len: partial_len as nat,
                    partial_matches: 0,
                    state: WorkerState::Searching,
                }).valid(),
            },
    {
        if counter_width <= buffer.len() && buffer.len() as u64 <= MAX_MESSAGE_LEN && partial_len
            <= pattern.len() {
            Some(
                Worker {
                    buffer,
                    counter_width,
                    pattern,
                    partial_len,
                    partial_matches: 0,
                    state: WorkerState::Searching,
                },
            )
        } else {
            None
        }
    }

    /// The message buffer as it stands. In state `Found` it is the winning
    /// message.
    pub fn buffer(&self) -> (bytes: &[u8])
        ensures
            bytes@ == self@.buffer,
    {
        self.buffer.as_slice()
    }

    /// How many digests have matched the partial prefix so far.
    pub fn partial_matches(&self) -> (count: u64)
        ensures
            count == self@.partial_matches,
    {
        self.partial_matches
    }

    /// Where the worker stands.
    pub fn state(&self) -> (state: WorkerState)
        ensures
            state == self@.state,
    {
        self.state
    }

    /// Shows the worker a digest of its current buffer.
    ///
    /// A `Searching` worker judges the digest against its pattern: a partial
    /// or full match raises the count by one, and a full match also moves the
    /// worker to `Found`. A `Found` worker changes nothing and answers `Full`.
    pub fn observe(&mut self, digest: &[u8]) -> (verdict: Verdict)
        requires
            old(self)@.valid(),
            old(self)@.can_count(),
        ensures
            final(self)@ == old(self)@.observed(digest@),
            final(self)@.valid(),
            verdict == old(self)@.answer(digest@),
    {
        if self.state == WorkerState::Found {
            return Verdict::Full;
        }
        let verdict = judge(digest, self.pattern.as_slice(), self.partial_len);
        match verdict {
            Verdict::Miss => {},
            Verdict::Partial => {
                self.partial_matches = self.partial_matches + 1;
            },
            Verdict::Full => {
                self.partial_matches = self.partial_matches + 1;
                self.state = WorkerState::Found;
            },
        }
        verdict
    }

    /// One turn of the cycle: add one to the counter, hash the whole buffer,
    /// and observe the digest. A `Found` worker changes nothing and answers
    /// `Full`.
    pub fn step(&mut self) -> (verdict: Verdict)
        requires
            old(self)@.valid(),
            old(self)@.can_count(),
        ensures
            final(self)@.valid(),
            old(self)@.state == WorkerState::Found ==> final(self)@ == old(self)@ && verdict
                == Verdict::Full,
            old(self)@.state == WorkerState::Searching ==> final(self)@ == old(self)@.after(1)
                && verdict == old(self)@.verdict_at(1),
    {
        if self.state == WorkerState::Found {
            return Verdict::Full;
        }
        increment_counter(self.buffer.as_mut_slice(), self.counter_width);
        let digest = sha256_raw(self.buffer.as_slice());
        self.observe(&digest)
    }

    /// Steps until a digest matches at least the partial prefix of the
    /// pattern, or until `max_steps` candidates have been hashed.
    ///
    /// The report tells how many candidates were hashed and the verdict on
    /// the last of them. A `Found` worker hashes nothing and reports `Full`.
    pub fn run(&mut self, max_steps: u64) -> (report: RunReport)
        requires
            old(self)@.valid(),
            old(self)@.can_count(),
        ensures
            final(self)@.valid(),
            report.steps <= max_steps,
            final(self)@.buffer == old(self)@.candidate(report.steps as nat),
            old(self)@.state == WorkerState::Found ==> final(self)@ == old(self)@ && report == (
            RunReport { verdict: Verdict::Full, steps: 0 }),
            old(self)@.state == WorkerState::Searching ==> {
                &&& forall|k: nat| 1 <= k < report.steps ==> old(self)@.verdict_at(k) == Verdict::Miss
                &&& report.steps == 0 ==> max_steps == 0 && final(self)@ == old(self)@
                    && report.verdict == Verdict::Miss
                &&& report.steps > 0 ==> final(self)@ == old(self)@.after(report.steps as nat)
                    && report.verdict == old(self)@.verdict_at(report.steps as nat)
                &&& report.verdict == Verdict::Miss ==> report.steps == max_steps
            },
    {
        let ghost start = self@;
        proof {
            law_advance_zero(start.buffer, start.counter_width);
        }
        if self.state == WorkerState::Found {
            return RunReport { verdict: Verdict::Full, steps: 0 };
        }
        let mut taken: u64 = 0;
        while taken < max_steps
            invariant
                taken <= max_steps,
                start == old(self)@,
                start.state == WorkerState::Searching,
                start.can_count(),
                start.valid(),
                self@.valid(),
                self@ == start.moved(taken as nat),
                forall|k: nat| 1 <= k <= taken ==> start.verdict_at(k) == Verdict::Miss,
            decreases max_steps - taken,
        {
            let ghost here = self@;
            proof {
                law_advance_composes(start.buffer, start.counter_width, taken as nat, 1);
                assert(here.candidate(1) == start.candidate((taken + 1) as nat));
                assert(here.moved(1) == start.moved((taken + 1) as nat));
            }
            let verdict = self.step();
            taken = taken + 1;
            match verdict {
                Verdict::Miss => {},
                _ => {
                    return RunReport { verdict, steps: taken };
                },
            }
        }
        proof {
            if taken > 0 {
                assert(start.verdict_at(taken as nat) == Verdict::Miss);
            }
        }
        RunReport { verdict: Verdict::Miss, steps: taken }
    }
}

} // verus!
