//! The worker state machine.
//!
//! A worker is spawned idle, starts running when the pool comes up, pulls
//! jobs until it sees the stop sentinel, then drains and reports its local
//! total as its completion signal.  Each worker owns its configuration —
//! the term, the read buffer size, the case flag — and a running total of
//! the matches it has found; nothing here is shared.

use vstd::prelude::*;
use vstd::slice::slice_to_vec;
use vstd::utf8::encode_utf8;

use crate::matcher::{count_matches, effective_count};
use crate::output::{format_match_line, line_bytes};
use crate::queue::FileEntry;

verus! {

/// Where a worker is in its lifecycle.
pub enum WorkerPhase {
    /// Created, not yet polling the queue.
    Idle,
    /// Polling the queue and processing jobs.
    Running,
    /// Saw the stop sentinel; no further job will be processed.
    Draining,
    /// Reported its completion signal and terminated.
    Stopped,
}

/// One worker: immutable search configuration plus the running local total
/// of matches found.
pub struct Worker {
    term: Vec<u8>,
    buf_size: usize,
    case_insensitive: bool,
    total: u64,
    phase: WorkerPhase,
}

impl Worker {
    /// The (unfolded) search term this worker looks for.
    pub closed spec fn term_view(&self) -> Seq<u8> {
        self.term@
    }

    /// The read buffer size the worker streams files with.
    pub closed spec fn buf(&self) -> nat {
        self.buf_size as nat
    }

    /// Whether the worker searches case-insensitively.
    pub closed spec fn ci(&self) -> bool {
        self.case_insensitive
    }

    /// The matches found so far across all jobs this worker processed.
    pub closed spec fn total_spec(&self) -> nat {
        self.total as nat
    }

    /// The worker's lifecycle phase.
    pub closed spec fn phase(&self) -> WorkerPhase {
        self.phase
    }

    /// The search term is never empty.
    pub closed spec fn wf(&self) -> bool {
        self.term@.len() > 0
    }

    /// Whether this worker has the given configuration.
    pub open spec fn configured(&self, term: Seq<u8>, case_insensitive: bool, buf_size: nat) -> bool {
        &&& self.term_view() == term
        &&& self.ci() == case_insensitive
        &&& self.buf() == buf_size
    }

    /// A fresh, idle worker with the given configuration.
    pub fn new(term: &[u8], buf_size: usize, case_insensitive: bool) -> (w: Worker)
        requires
            term@.len() > 0,
        ensures
            w.wf(),
            w.configured(term@, case_insensitive, buf_size as nat),
            w.total_spec() == 0,
            w.phase() is Idle,
    {
        Worker {
            term: slice_to_vec(term),
            buf_size,
            case_insensitive,
            total: 0,
            phase: WorkerPhase::Idle,
        }
    }

    /// The worker begins polling the queue.
    pub fn start(&mut self)
        requires
            old(self).wf(),
            old(self).phase() is Idle,
        ensures
            final(self).wf(),
            final(self).configured(old(self).term_view(), old(self).ci(), old(self).buf()),
            final(self).total_spec() == old(self).total_spec(),
            final(self).phase() is Running,
    {
        self.phase = WorkerPhase::Running;
    }

    /// Processes one file: streams its bytes through the matcher and, when
    /// anything was found, adds the count to the local total and returns
    /// the output line to emit.
    pub fn run_job(&mut self, entry: &FileEntry) -> (line: Option<Vec<u8>>)
        requires
            old(self).wf(),
            old(self).phase() is Running,
            old(self).total_spec() + entry.content@.len() <= u64::MAX,
        ensures
            final(self).wf(),
            final(self).configured(old(self).term_view(), old(self).ci(), old(self).buf()),
            final(self).phase() is Running,
            final(self).total_spec() == old(self).total_spec() + effective_count(
                entry.content@,
                old(self).term_view(),
                old(self).ci(),
                old(self).buf(),
            ),
            (line is Some) == (effective_count(
                entry.content@,
                old(self).term_view(),
                old(self).ci(),
                old(self).buf(),
            ) > 0),
            line is Some ==> line->0@ == line_bytes(
                effective_count(
                    entry.content@,
                    old(self).term_view(),
                    old(self).ci(),
                    old(self).buf(),
                ),
                encode_utf8(entry.path@),
            ),
    {
        let found = count_matches(
            self.term.as_slice(),
            entry.content.as_slice(),
            self.buf_size,
            self.case_insensitive,
        );
        if found > 0 {
            self.total = self.total + found;
            Some(format_match_line(found, entry.path.as_str()))
        } else {
            None
        }
    }

    /// The worker saw the stop sentinel: it stops polling and will process
    /// no further job.
    pub fn drain(&mut self)
        requires
            old(self).wf(),
            old(self).phase() is Running,
        ensures
            final(self).wf(),
            final(self).configured(old(self).term_view(), old(self).ci(), old(self).buf()),
            final(self).total_spec() == old(self).total_spec(),
            final(self).phase() is Draining,
    {
        self.phase = WorkerPhase::Draining;
    }

    /// The worker terminates, reporting its local total as its completion
    /// signal.  It signals exactly once: only a draining worker can report,
    /// and afterwards it is stopped for good.
    pub fn report(&mut self) -> (signal: u64)
        requires
            old(self).wf(),
            old(self).phase() is Draining,
        ensures
            final(self).wf(),
            final(self).configured(old(self).term_view(), old(self).ci(), old(self).buf()),
            final(self).total_spec() == old(self).total_spec(),
            final(self).phase() is Stopped,
            signal as nat == old(self).total_spec(),
    {
        self.phase = WorkerPhase::Stopped;
        self.total
    }
}

} // verus!
