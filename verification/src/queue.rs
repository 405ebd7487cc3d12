//! The bounded job queue.
//!
//! The walker produces jobs — files to search — and the workers consume
//! them.  The queue is a FIFO buffer holding at most `capacity` work jobs
//! at a time, which bounds the engine's memory regardless of the size of
//! the directory tree.  Stop sentinels ride a reserved control path: they
//! are always accepted, so workers can be told to terminate even when the
//! queue is saturated with work.

use vstd::prelude::*;
use vstd::slice::slice_to_vec;

use crate::matcher::{effective_count, fold_bytes, lemma_scan_count_le_len, match_count};

verus! {

/// One file to search: its path and the bytes a worker streams through the
/// matcher.  The engine itself never touches the file system, so the job
/// carries the bytes that the worker would read from the path.
pub struct FileEntry {
    /// Where the file lives; reported in the output line.
    pub path: String,
    /// The file's contents.
    pub content: Vec<u8>,
}

impl FileEntry {
    /// A copy of the entry with the same path and contents.
    pub fn duplicate(&self) -> (r: FileEntry)
        ensures
            r.path@ == self.path@,
            r.content@ == self.content@,
    {
        FileEntry { path: self.path.clone(), content: slice_to_vec(self.content.as_slice()) }
    }
}

/// A unit of work for a worker: either a file to search, or the sentinel
/// telling the worker to report its total and terminate.
pub enum Job {
    /// A file to search.
    Work(FileEntry),
    /// The stop sentinel; exactly one is consumed by each worker.
    Stop,
}

/// The number of work jobs in a queue segment.
pub open spec fn count_work(q: Seq<Job>) -> nat
    decreases q.len(),
{
    if q.len() == 0 {
        0
    } else {
        (if q[0] is Work {
            1nat
        } else {
            0nat
        }) + count_work(q.drop_first())
    }
}

/// The number of stop sentinels in a queue segment.
pub open spec fn count_stop(q: Seq<Job>) -> nat
    decreases q.len(),
{
    if q.len() == 0 {
        0
    } else {
        (if q[0] is Stop {
            1nat
        } else {
            0nat
        }) + count_stop(q.drop_first())
    }
}

/// The matches still to be found in a queue segment: the sum, over its
/// work jobs, of the per-file match count under the given configuration.
pub open spec fn jobs_total(q: Seq<Job>, term: Seq<u8>, case_insensitive: bool, buf_size: nat) -> nat
    decreases q.len(),
{
    if q.len() == 0 {
        0
    } else {
        (match q[0] {
            Job::Work(e) => effective_count(e.content@, term, case_insensitive, buf_size),
            Job::Stop => 0nat,
        }) + jobs_total(q.drop_first(), term, case_insensitive, buf_size)
    }
}

/// The bytes held by the work jobs of a queue segment.
pub open spec fn jobs_bytes(q: Seq<Job>) -> nat
    decreases q.len(),
{
    if q.len() == 0 {
        0
    } else {
        (match q[0] {
            Job::Work(e) => e.content@.len(),
            Job::Stop => 0nat,
        }) + jobs_bytes(q.drop_first())
    }
}

/// How one appended job changes the queue measures.
pub proof fn lemma_jobs_push(q: Seq<Job>, j: Job, term: Seq<u8>, case_insensitive: bool, buf_size: nat)
    ensures
        count_work(q.push(j)) == count_work(q) + (if j is Work {
            1nat
        } else {
            0nat
        }),
        count_stop(q.push(j)) == count_stop(q) + (if j is Stop {
            1nat
        } else {
            0nat
        }),
        jobs_total(q.push(j), term, case_insensitive, buf_size) == jobs_total(
            q,
            term,
            case_insensitive,
            buf_size,
        ) + (match j {
            Job::Work(e) => effective_count(e.content@, term, case_insensitive, buf_size),
            Job::Stop => 0nat,
        }),
        jobs_bytes(q.push(j)) == jobs_bytes(q) + (match j {
            Job::Work(e) => e.content@.len(),
            Job::Stop => 0nat,
        }),
    decreases q.len(),
{
    if q.len() == 0 {
        assert(q.push(j).drop_first() =~= Seq::<Job>::empty());
        reveal_with_fuel(count_work, 2);
        reveal_with_fuel(count_stop, 2);
        reveal_with_fuel(jobs_total, 2);
        reveal_with_fuel(jobs_bytes, 2);
    } else {
        assert(q.push(j).drop_first() =~= q.drop_first().push(j));
        lemma_jobs_push(q.drop_first(), j, term, case_insensitive, buf_size);
    }
}

/// Every job is either work or a sentinel, so the two counts partition the
/// queue's length.
pub proof fn lemma_counts_len(q: Seq<Job>)
    ensures
        count_work(q) + count_stop(q) == q.len(),
    decreases q.len(),
{
    if q.len() > 0 {
        lemma_counts_len(q.drop_first());
    }
}

/// Each file contributes at most one match per byte, so the matches left
/// in a queue are bounded by the bytes it holds.
pub proof fn lemma_jobs_total_le_bytes(
    q: Seq<Job>,
    term: Seq<u8>,
    case_insensitive: bool,
    buf_size: nat,
)
    ensures
        jobs_total(q, term, case_insensitive, buf_size) <= jobs_bytes(q),
    decreases q.len(),
{
    if q.len() > 0 {
        match q[0] {
            Job::Work(e) => {
                assert(match_count(e.content@, term, case_insensitive) <= e.content@.len()) by {
                    lemma_scan_count_le_len(
                        fold_bytes(term, case_insensitive),
                        case_insensitive,
                        0,
                        e.content@,
                    );
                }
            },
            Job::Stop => {},
        }
        lemma_jobs_total_le_bytes(q.drop_first(), term, case_insensitive, buf_size);
    }
}

/// A bounded FIFO of jobs.  At most `capacity` work jobs are held at any
/// moment; the producer checks [`JobQueue::is_full`] before pushing and
/// pauses (backpressure) while the queue is saturated.  Stop sentinels
/// bypass the bound so shutdown can never deadlock against a full queue.
pub struct JobQueue {
    items: Vec<Job>,
    capacity: usize,
    work_count: usize,
}

impl JobQueue {
    /// The jobs currently queued, front first.
    pub closed spec fn jobs(&self) -> Seq<Job> {
        self.items@
    }

    /// The bound on simultaneously queued work jobs.
    pub closed spec fn cap(&self) -> nat {
        self.capacity as nat
    }

    /// The queue's bookkeeping matches its contents and respects the bound.
    pub closed spec fn wf(&self) -> bool {
        &&& self.work_count as nat == count_work(self.items@)
        &&& count_work(self.items@) <= self.capacity as nat
    }

    /// An empty queue admitting at most `capacity` work jobs at a time.
    pub fn new(capacity: usize) -> (q: JobQueue)
        ensures
            q.wf(),
            q.jobs() == Seq::<Job>::empty(),
            q.cap() == capacity as nat,
    {
        JobQueue { items: Vec::new(), capacity, work_count: 0 }
    }

    /// Whether the queue currently holds `capacity` work jobs; the
    /// producer must not push work while it does.
    pub fn is_full(&self) -> (r: bool)
        requires
            self.wf(),
        ensures
            r == (count_work(self.jobs()) >= self.cap()),
    {
        self.work_count >= self.capacity
    }

    /// The number of queued jobs, sentinels included.
    pub fn len(&self) -> (n: usize)
        ensures
            n == self.jobs().len(),
    {
        self.items.len()
    }

    /// Enqueues a file to search.  The caller must have made room first.
    pub fn push_work(&mut self, entry: FileEntry)
        requires
            old(self).wf(),
            count_work(old(self).jobs()) < old(self).cap(),
        ensures
            final(self).wf(),
            final(self).cap() == old(self).cap(),
            final(self).jobs() == old(self).jobs().push(Job::Work(entry)),
    {
        let ghost pre = self.items@;
        self.items.push(Job::Work(entry));
        self.work_count = self.work_count + 1;
        proof {
            lemma_jobs_push(pre, self.items@.last(), Seq::empty(), false, 0);
        }
    }

    /// Enqueues one stop sentinel.  Sentinels are always accepted: they
    /// use capacity reserved for shutdown, never the work bound.
    pub fn push_stop(&mut self)
        requires
            old(self).wf(),
        ensures
            final(self).wf(),
            final(self).cap() == old(self).cap(),
            final(self).jobs() == old(self).jobs().push(Job::Stop),
    {
        let ghost pre = self.items@;
        self.items.push(Job::Stop);
        proof {
            lemma_jobs_push(pre, self.items@.last(), Seq::empty(), false, 0);
        }
    }

    /// Dequeues the oldest job, or nothing when the queue is empty.
    pub fn pop(&mut self) -> (j: Option<Job>)
        requires
            old(self).wf(),
        ensures
            final(self).wf(),
            final(self).cap() == old(self).cap(),
            old(self).jobs().len() == 0 ==> j is None && final(self).jobs() == old(self).jobs(),
            old(self).jobs().len() > 0 ==> j == Some(old(self).jobs()[0]) && final(self).jobs()
                == old(self).jobs().drop_first(),
    {
        if self.items.len() == 0 {
            return None;
        }
        let job = self.items.remove(0);
        proof {
            assert(self.items@ =~= old(self).items@.drop_first());
        }
        match &job {
            Job::Work(_) => {
                self.work_count = self.work_count - 1;
            },
            Job::Stop => {},
        }
        Some(job)
    }
}

} // verus!
