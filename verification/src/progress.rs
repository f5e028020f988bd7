//! The state of one job while it is in the registry.

use vstd::prelude::*;

verus! {

/// The mathematical value of a job's state.
pub struct JobState {
    /// The display name given at creation.
    pub name: Seq<char>,
    /// The expected length of the body, once the response revealed it.
    pub total: Option<u64>,
    /// The number of bytes received so far.
    pub size: u64,
    /// Whether a cancel request has reached the job.
    pub canceled: bool,
}

impl JobState {
    /// The state of a job that was just created under `name`.
    pub open spec fn fresh(name: Seq<char>) -> JobState {
        JobState { name, total: None, size: 0, canceled: false }
    }

    /// The state after `total` was announced.
    pub open spec fn with_total(self, total: u64) -> JobState {
        JobState { total: Some(total), ..self }
    }

    /// Whether `n` more bytes can be counted in 64 bits.
    pub open spec fn fits(self, n: u64) -> bool {
        self.size + n <= u64::MAX
    }

    /// The state after `n` more bytes were received.
    pub open spec fn advanced(self, n: u64) -> JobState
        recommends
            self.fits(n),
    {
        JobState { size: (self.size + n) as u64, ..self }
    }

    /// The state after a cancel request.
    pub open spec fn stopped(self) -> JobState {
        JobState { canceled: true, ..self }
    }
}

/// The state of one job: its name, the expected and the received number of
/// bytes, and the cancellation flag.
#[derive(Debug, Clone, PartialEq, Eq)]
pub struct Progress {
    pub name: String,
    pub total: Option<u64>,
    pub size: u64,
    pub canceled: bool,
}

impl View for Progress {
    type V = JobState;

    open spec fn view(&self) -> JobState {
        JobState { name: self.name@, total: self.total, size: self.size, canceled: self.canceled }
    }
}

impl Progress {
    /// A job that has received nothing yet, with no known total, not canceled.
    pub fn new(name: String) -> (pg: Progress)
        ensures
            pg@ == JobState::fresh(name@),
    {
        Progress { name, total: None, size: 0, canceled: false }
    }

    /// Counts `n` received bytes.
    pub fn progress(&mut self, n: u64)
        requires
            old(self)@.fits(n),
        ensures
            final(self)@ == old(self)@.advanced(n),
    {
        self.size = self.size + n;
    }

    /// Counts the bytes of `data` as received.
    pub fn write(&mut self, data: &[u8])
        requires
            old(self).size + data@.len() <= u64::MAX,
        ensures
            final(self)@ == old(self)@.advanced(data@.len() as u64),
    {
        let n: u64 = data.len() as u64;
        self.progress(n);
    }

    /// Records the expected length of the body.
    pub fn set_total(&mut self, total: u64)
        ensures
            final(self)@ == old(self)@.with_total(total),
    {
        self.total = Some(total);
    }

    /// Whether a cancel request has reached the job.
    pub fn is_canceled(&self) -> (b: bool)
        ensures
            b == self@.canceled,
    {
        self.canceled
    }

    /// Marks the job as canceled; the flag is never reset.
    pub fn cancel(&mut self)
        ensures
            final(self)@ == old(self)@.stopped(),
    {
        self.canceled = true;
    }
}

} // verus!
