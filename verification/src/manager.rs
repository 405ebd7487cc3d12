//! The manager: pool lifecycle, scanning and aggregation.
//!
//! The manager owns the job queue and the worker pool.  Its lifecycle is
//! fixed: it is created from a validated configuration, spawns its pool
//! once, has files fed to it by the walker ([`scan`]), and is stopped once,
//! which delivers one stop sentinel per worker, collects exactly one
//! completion signal from each, and returns their sum — the total number
//! of matches in the tree.  Stopping is the only way to read the
//! aggregate, and a stopped manager is not reusable.
//!
//! Everything here works on plain values: a [`FileEntry`] carries the
//! bytes a worker would read from its path, and the caller that walks the
//! real directory tree converts on the way in.

use vstd::prelude::*;
use vstd::slice::slice_to_vec;
use vstd::utf8::encode_utf8;

use crate::filter::{base_name, base_name_of, should_scan, whitelist_views, whitelisted};
use crate::matcher::{effective_count, fold_bytes, lemma_nonempty_utf8, lemma_scan_count_le_len};
use crate::queue::{
    count_stop, count_work, jobs_bytes, jobs_total, lemma_counts_len, lemma_jobs_push,
    lemma_jobs_total_le_bytes, FileEntry, Job, JobQueue,
};
use crate::worker::Worker;
use crate::{Error, Params};

verus! {

/// How many work jobs the queue holds at most; beyond it the producer
/// pauses and lets a worker catch up, which bounds memory for any tree.
const QUEUE_CAPACITY: usize = 1024;

/// Whether an entry passes the whitelist: its file name's extension must
/// be listed (any file passes an empty whitelist).
pub open spec fn entry_included(e: FileEntry, wl: Seq<Seq<u8>>) -> bool {
    whitelisted(base_name_of(encode_utf8(e.path@)), wl)
}

/// The matches the whole scan owes: the sum, over the entries passing the
/// whitelist, of the per-file match count.
pub open spec fn entries_total(
    entries: Seq<FileEntry>,
    wl: Seq<Seq<u8>>,
    term: Seq<u8>,
    case_insensitive: bool,
    buf_size: nat,
) -> nat
    decreases entries.len(),
{
    if entries.len() == 0 {
        0
    } else {
        (if entry_included(entries[0], wl) {
            effective_count(entries[0].content@, term, case_insensitive, buf_size)
        } else {
            0nat
        }) + entries_total(entries.drop_first(), wl, term, case_insensitive, buf_size)
    }
}

/// The bytes held by a list of entries.
pub open spec fn entries_bytes(entries: Seq<FileEntry>) -> nat
    decreases entries.len(),
{
    if entries.len() == 0 {
        0
    } else {
        entries[0].content@.len() + entries_bytes(entries.drop_first())
    }
}

/// The sum of the workers' local totals.
pub open spec fn workers_total(ws: Seq<Worker>) -> nat
    decreases ws.len(),
{
    if ws.len() == 0 {
        0
    } else {
        ws[0].total_spec() + workers_total(ws.drop_first())
    }
}

/// The sum of the collected completion signals.
pub open spec fn sum_signals(s: Seq<u64>) -> nat
    decreases s.len(),
{
    if s.len() == 0 {
        0
    } else {
        s[0] as nat + sum_signals(s.drop_first())
    }
}

/// How one appended entry changes the scan measures.
proof fn lemma_entries_push(
    entries: Seq<FileEntry>,
    e: FileEntry,
    wl: Seq<Seq<u8>>,
    term: Seq<u8>,
    case_insensitive: bool,
    buf_size: nat,
)
    ensures
        entries_total(entries.push(e), wl, term, case_insensitive, buf_size) == entries_total(
            entries,
            wl,
            term,
            case_insensitive,
            buf_size,
        ) + (if entry_included(e, wl) {
            effective_count(e.content@, term, case_insensitive, buf_size)
        } else {
            0nat
        }),
        entries_bytes(entries.push(e)) == entries_bytes(entries) + e.content@.len(),
    decreases entries.len(),
{
    if entries.len() == 0 {
        assert(entries.push(e).drop_first() =~= Seq::<FileEntry>::empty());
        reveal_with_fuel(entries_total, 2);
        reveal_with_fuel(entries_bytes, 2);
    } else {
        assert(entries.push(e).drop_first() =~= entries.drop_first().push(e));
        lemma_entries_push(entries.drop_first(), e, wl, term, case_insensitive, buf_size);
    }
}

/// Dropping the first `i` entries: the bytes of what remains, plus the
/// bytes of the prefix, are the bytes of the whole.
proof fn lemma_entries_bytes_skip(entries: Seq<FileEntry>, i: int)
    requires
        0 <= i < entries.len(),
    ensures
        entries_bytes(entries.subrange(0, i)) + entries[i].content@.len() <= entries_bytes(
            entries,
        ),
    decreases entries.len(),
{
    if i == 0 {
        lemma_entries_bytes_nonneg_tail(entries);
    } else {
        lemma_entries_bytes_skip(entries.drop_first(), i - 1);
        assert(entries.drop_first().subrange(0, i - 1) =~= entries.subrange(1, i));
        assert(entries.subrange(0, i) =~= seq![entries[0]].add(entries.subrange(1, i)));
        lemma_entries_bytes_cons(entries[0], entries.subrange(1, i));
    }
}

/// Prepending one entry adds its bytes.
proof fn lemma_entries_bytes_cons(e: FileEntry, entries: Seq<FileEntry>)
    ensures
        entries_bytes(seq![e].add(entries)) == e.content@.len() + entries_bytes(entries),
{
    assert(seq![e].add(entries).drop_first() =~= entries);
}

/// The tail's bytes are part of the whole.
proof fn lemma_entries_bytes_nonneg_tail(entries: Seq<FileEntry>)
    requires
        entries.len() > 0,
    ensures
        entries[0].content@.len() <= entries_bytes(entries),
{
}

/// How one appended worker changes the pool's total.
proof fn lemma_workers_push(ws: Seq<Worker>, w: Worker)
    ensures
        workers_total(ws.push(w)) == workers_total(ws) + w.total_spec(),
    decreases ws.len(),
{
    if ws.len() == 0 {
        assert(ws.push(w).drop_first() =~= Seq::<Worker>::empty());
        reveal_with_fuel(workers_total, 2);
    } else {
        assert(ws.push(w).drop_first() =~= ws.drop_first().push(w));
        lemma_workers_push(ws.drop_first(), w);
    }
}

/// How one appended signal changes the collected sum.
proof fn lemma_signals_push(s: Seq<u64>, x: u64)
    ensures
        sum_signals(s.push(x)) == sum_signals(s) + x as nat,
    decreases s.len(),
{
    if s.len() == 0 {
        assert(s.push(x).drop_first() =~= Seq::<u64>::empty());
        reveal_with_fuel(sum_signals, 2);
    } else {
        assert(s.push(x).drop_first() =~= s.drop_first().push(x));
        lemma_signals_push(s.drop_first(), x);
    }
}

/// Once a stop sentinel has entered the queue, everything behind it is a
/// sentinel too: work is only enqueued before shutdown begins.
pub open spec fn jobs_ordered(q: Seq<Job>) -> bool {
    forall|i: int, j: int| 0 <= i < j < q.len() && q[i] is Stop ==> q[j] is Stop
}

/// A queue without sentinels: no element is one.
proof fn lemma_count_stop_zero(q: Seq<Job>)
    requires
        count_stop(q) == 0,
    ensures
        forall|i: int| 0 <= i < q.len() ==> !((#[trigger] q[i]) is Stop),
    decreases q.len(),
{
    if q.len() > 0 {
        lemma_count_stop_zero(q.drop_first());
        assert forall|i: int| 0 <= i < q.len() implies !((#[trigger] q[i]) is Stop) by {
            if i > 0 {
                assert(q[i] == q.drop_first()[i - 1]);
            }
        }
    }
}

/// Prepending one signal adds it to the sum.
proof fn lemma_signals_cons(x: u64, s: Seq<u64>)
    ensures
        sum_signals(seq![x].add(s)) == x as nat + sum_signals(s),
{
    assert(seq![x].add(s).drop_first() =~= s);
}

/// A prefix of the signals, plus the next one, never exceeds the full sum.
proof fn lemma_signals_skip(s: Seq<u64>, i: int)
    requires
        0 <= i < s.len(),
    ensures
        sum_signals(s.subrange(0, i)) + s[i] as nat <= sum_signals(s),
    decreases s.len(),
{
    if i == 0 {
        assert(s.subrange(0, 0) =~= Seq::<u64>::empty());
    } else {
        lemma_signals_skip(s.drop_first(), i - 1);
        assert(s.drop_first().subrange(0, i - 1) =~= s.subrange(1, i));
        assert(s.subrange(0, i) =~= seq![s[0]].add(s.subrange(1, i)));
        lemma_signals_cons(s[0], s.subrange(1, i));
    }
}

/// A queue of sentinels only holds no work and no matches.
proof fn lemma_all_stop(q: Seq<Job>, term: Seq<u8>, case_insensitive: bool, buf_size: nat)
    requires
        forall|i: int| 0 <= i < q.len() ==> q[i] is Stop,
    ensures
        count_work(q) == 0,
        jobs_total(q, term, case_insensitive, buf_size) == 0,
        jobs_bytes(q) == 0,
    decreases q.len(),
{
    if q.len() > 0 {
        lemma_all_stop(q.drop_first(), term, case_insensitive, buf_size);
    }
}

/// The per-file count never exceeds the file's size.
proof fn lemma_effective_le_len(content: Seq<u8>, term: Seq<u8>, case_insensitive: bool, buf_size: nat)
    ensures
        effective_count(content, term, case_insensitive, buf_size) <= content.len(),
{
    lemma_scan_count_le_len(fold_bytes(term, case_insensitive), case_insensitive, 0, content);
}

/// The sum of the per-file match counts of a list of files, as a single
/// sequential scan would compute it.
pub open spec fn files_total(
    entries: Seq<FileEntry>,
    term: Seq<u8>,
    case_insensitive: bool,
    buf_size: nat,
) -> nat
    decreases entries.len(),
{
    if entries.len() == 0 {
        0
    } else {
        effective_count(entries[0].content@, term, case_insensitive, buf_size) + files_total(
            entries.drop_first(),
            term,
            case_insensitive,
            buf_size,
        )
    }
}

/// How one appended file changes the sequential sum.
proof fn lemma_files_total_push(
    entries: Seq<FileEntry>,
    e: FileEntry,
    term: Seq<u8>,
    case_insensitive: bool,
    buf_size: nat,
)
    ensures
        files_total(entries.push(e), term, case_insensitive, buf_size) == files_total(
            entries,
            term,
            case_insensitive,
            buf_size,
        ) + effective_count(e.content@, term, case_insensitive, buf_size),
    decreases entries.len(),
{
    if entries.len() == 0 {
        assert(entries.push(e).drop_first() =~= Seq::<FileEntry>::empty());
        reveal_with_fuel(files_total, 2);
    } else {
        assert(entries.push(e).drop_first() =~= entries.drop_first().push(e));
        lemma_files_total_push(entries.drop_first(), e, term, case_insensitive, buf_size);
    }
}

/// What a whole scan owes is the plain per-file sum over exactly the
/// entries the whitelist admits.  Together with [`lemma_pool_partition`]
/// this says: the aggregate the engine returns is the sum of independently
/// computed counts of the admitted files, however the pool splits them.
pub proof fn lemma_entries_total_is_filtered(
    entries: Seq<FileEntry>,
    wl: Seq<Seq<u8>>,
    term: Seq<u8>,
    case_insensitive: bool,
    buf_size: nat,
)
    ensures
        entries_total(entries, wl, term, case_insensitive, buf_size) == files_total(
            entries.filter(|e: FileEntry| entry_included(e, wl)),
            term,
            case_insensitive,
            buf_size,
        ),
    decreases entries.len(),
{
    reveal(Seq::filter);
    let pred = |e: FileEntry| entry_included(e, wl);
    if entries.len() == 0 {
    } else {
        let shorter = entries.drop_last();
        let e = entries.last();
        lemma_entries_total_is_filtered(shorter, wl, term, case_insensitive, buf_size);
        assert(entries =~= shorter.push(e));
        lemma_entries_push(shorter, e, wl, term, case_insensitive, buf_size);
        if pred(e) {
            lemma_files_total_push(shorter.filter(pred), e, term, case_insensitive, buf_size);
        }
    }
}

/// The local total of the worker with index `w`, when each file is handed
/// to the worker named by `assign`.
pub open spec fn assigned_total(
    entries: Seq<FileEntry>,
    assign: Seq<int>,
    w: int,
    term: Seq<u8>,
    case_insensitive: bool,
    buf_size: nat,
) -> nat
    decreases entries.len(),
{
    if entries.len() == 0 {
        0
    } else {
        (if assign[0] == w {
            effective_count(entries[0].content@, term, case_insensitive, buf_size)
        } else {
            0nat
        }) + assigned_total(
            entries.drop_first(),
            assign.drop_first(),
            w,
            term,
            case_insensitive,
            buf_size,
        )
    }
}

/// The sum of the local totals of workers `0 .. w_count` under the given
/// assignment: what the completion signals add up to.
pub open spec fn pool_total(
    entries: Seq<FileEntry>,
    assign: Seq<int>,
    w_count: int,
    term: Seq<u8>,
    case_insensitive: bool,
    buf_size: nat,
) -> nat
    decreases w_count,
{
    if w_count <= 0 {
        0
    } else {
        pool_total(entries, assign, w_count - 1, term, case_insensitive, buf_size)
            + assigned_total(entries, assign, w_count - 1, term, case_insensitive, buf_size)
    }
}

/// With no files, every worker's total is zero.
proof fn lemma_pool_total_empty(
    entries: Seq<FileEntry>,
    assign: Seq<int>,
    w_count: int,
    term: Seq<u8>,
    case_insensitive: bool,
    buf_size: nat,
)
    requires
        entries.len() == 0,
    ensures
        pool_total(entries, assign, w_count, term, case_insensitive, buf_size) == 0,
    decreases w_count,
{
    if w_count > 0 {
        lemma_pool_total_empty(entries, assign, w_count - 1, term, case_insensitive, buf_size);
    }
}

/// Splitting off the first file: it lands in exactly one worker's total.
proof fn lemma_pool_total_cons(
    entries: Seq<FileEntry>,
    assign: Seq<int>,
    w_count: int,
    term: Seq<u8>,
    case_insensitive: bool,
    buf_size: nat,
)
    requires
        entries.len() > 0,
        assign.len() == entries.len(),
        assign[0] >= 0,
    ensures
        pool_total(entries, assign, w_count, term, case_insensitive, buf_size) == (if assign[0]
            < w_count {
            effective_count(entries[0].content@, term, case_insensitive, buf_size)
        } else {
            0nat
        }) + pool_total(
            entries.drop_first(),
            assign.drop_first(),
            w_count,
            term,
            case_insensitive,
            buf_size,
        ),
    decreases w_count,
{
    if w_count > 0 {
        lemma_pool_total_cons(entries, assign, w_count - 1, term, case_insensitive, buf_size);
    }
}

/// However the files are distributed over the pool, the workers' local
/// totals add up to what one sequential scan of all the files finds: the
/// aggregate is independent of the scheduling.  This is why [`Manager::stop`],
/// which sums one completion signal per worker, returns the same total as
/// a single-threaded reference scan.
pub proof fn lemma_pool_partition(
    entries: Seq<FileEntry>,
    assign: Seq<int>,
    w_count: int,
    term: Seq<u8>,
    case_insensitive: bool,
    buf_size: nat,
)
    requires
        assign.len() == entries.len(),
        forall|i: int| 0 <= i < assign.len() ==> 0 <= #[trigger] assign[i] < w_count,
    ensures
        pool_total(entries, assign, w_count, term, case_insensitive, buf_size) == files_total(
            entries,
            term,
            case_insensitive,
            buf_size,
        ),
    decreases entries.len(),
{
    if entries.len() == 0 {
        lemma_pool_total_empty(entries, assign, w_count, term, case_insensitive, buf_size);
    } else {
        lemma_pool_total_cons(entries, assign, w_count, term, case_insensitive, buf_size);
        lemma_pool_partition(
            entries.drop_first(),
            assign.drop_first(),
            w_count,
            term,
            case_insensitive,
            buf_size,
        );
    }
}

/// The search engine's coordinator.  It owns the bounded job queue and the
/// worker pool, drives both, and aggregates the per-worker totals at
/// shutdown.
pub struct Manager {
    term: Vec<u8>,
    whitelist: Vec<String>,
    pool_size: usize,
    buf_size: usize,
    case_insensitive: bool,
    queue: JobQueue,
    workers: Vec<Worker>,
    signals: Vec<u64>,
    fed: Ghost<nat>,
}

impl Manager {
    /// The UTF-8 bytes of the search term.
    pub closed spec fn term_view(&self) -> Seq<u8> {
        self.term@
    }

    /// The extension whitelist, as byte sequences.
    pub closed spec fn whitelist_view(&self) -> Seq<Seq<u8>> {
        whitelist_views(self.whitelist@)
    }

    /// The number of workers in the pool.
    pub closed spec fn pool(&self) -> nat {
        self.pool_size as nat
    }

    /// The read buffer size handed to every worker.
    pub closed spec fn buf(&self) -> nat {
        self.buf_size as nat
    }

    /// Whether the search is case-insensitive.
    pub closed spec fn ci(&self) -> bool {
        self.case_insensitive
    }

    /// The jobs currently queued.
    pub closed spec fn queue_jobs(&self) -> Seq<Job> {
        self.queue.jobs()
    }

    /// The completion signals collected so far.
    pub closed spec fn signals_view(&self) -> Seq<u64> {
        self.signals@
    }

    /// The bytes of all work enqueued since creation.
    pub closed spec fn fed_bytes(&self) -> nat {
        self.fed@
    }

    /// The matches the engine still owes its caller: those already found
    /// by workers plus those in files still queued.  At shutdown this is
    /// what [`Manager::stop`] returns.
    pub closed spec fn pending_total(&self) -> nat {
        workers_total(self.workers@) + jobs_total(
            self.queue.jobs(),
            self.term@,
            self.case_insensitive,
            self.buf_size as nat,
        )
    }

    /// Structural well-formedness: a non-empty term, a positive pool, a
    /// consistent queue, workers configured like the manager, and the
    /// conservation bound that ties every counted match to a byte that was
    /// enqueued — which keeps all the arithmetic in range.
    pub closed spec fn wf(&self) -> bool {
        &&& self.term@.len() > 0
        &&& self.pool_size >= 1
        &&& self.queue.wf()
        &&& self.queue.cap() >= 1
        &&& forall|i: int|
            0 <= i < self.workers@.len() ==> (#[trigger] self.workers@[i]).wf()
                && self.workers@[i].configured(
                self.term@,
                self.case_insensitive,
                self.buf_size as nat,
            )
        &&& workers_total(self.workers@) + jobs_bytes(self.queue.jobs()) <= self.fed@
        &&& self.fed@ <= u64::MAX
    }

    /// The pool is up: exactly `pool_size` workers, all polling.
    pub closed spec fn spawned(&self) -> bool {
        &&& self.workers@.len() == self.pool_size as nat
        &&& forall|i: int|
            0 <= i < self.workers@.len() ==> (#[trigger] self.workers@[i]).phase()
                is Running
    }

    /// The pool has not been spawned yet.
    pub closed spec fn fresh(&self) -> bool {
        &&& self.workers@.len() == 0
        &&& self.signals@.len() == 0
        &&& self.queue.jobs().len() == 0
        &&& self.fed@ == 0
    }

    /// Validates the configuration and creates the manager.  An empty
    /// search term or an empty pool is refused before anything is scanned.
    pub fn new(params: &Params) -> (r: Result<Manager, Error>)
        ensures
            (params.needle@.len() == 0 || params.pool_size == 0) <==> r is Err,
            r is Err ==> r == Err::<Manager, Error>(Error::InvalidConfiguration),
            r is Ok ==> {
                let m = r->Ok_0;
                &&& m.wf()
                &&& m.fresh()
                &&& m.term_view() == encode_utf8(params.needle@)
                &&& m.whitelist_view() == whitelist_views(params.whitelist@)
                &&& m.pool() == params.pool_size as nat
                &&& m.buf() == params.buf_size as nat
                &&& m.ci() == params.case_insensitive
                &&& m.pending_total() == 0
            },
    {
        proof {
            lemma_nonempty_utf8(params.needle@);
        }
        let needle_bytes = params.needle.as_str().as_bytes();
        if needle_bytes.len() == 0 {
            return Err(Error::InvalidConfiguration);
        }
        if params.pool_size == 0 {
            return Err(Error::InvalidConfiguration);
        }
        let term = slice_to_vec(needle_bytes);
        let mut whitelist: Vec<String> = Vec::new();
        let mut i: usize = 0;
        while i < params.whitelist.len()
            invariant
                i <= params.whitelist@.len(),
                whitelist@.len() == i,
                forall|j: int| 0 <= j < i ==> whitelist@[j] == params.whitelist@[j],
            decreases params.whitelist@.len() - i,
        {
            whitelist.push(params.whitelist[i].clone());
            i = i + 1;
        }
        proof {
            assert(whitelist@ =~= params.whitelist@);
        }
        Ok(
            Manager {
                term,
                whitelist,
                pool_size: params.pool_size,
                buf_size: params.buf_size,
                case_insensitive: params.case_insensitive,
                queue: JobQueue::new(QUEUE_CAPACITY),
                workers: Vec::new(),
                signals: Vec::new(),
                fed: Ghost(0nat),
            },
        )
    }

    /// Brings up the pool: exactly `pool_size` workers, each created idle
    /// and started.  Spawning an already spawned manager is not allowed.
    pub fn spawn(&mut self) -> (r: bool)
        requires
            old(self).wf(),
            old(self).fresh(),
        ensures
            final(self).wf(),
            final(self).spawned(),
            final(self).same_config(&*old(self)),
            final(self).queue_jobs() == old(self).queue_jobs(),
            final(self).signals_view() == old(self).signals_view(),
            final(self).fed_bytes() == old(self).fed_bytes(),
            final(self).pending_total() == old(self).pending_total(),
            r == true,
    {
        let mut i: usize = 0;
        while i < self.pool_size
            invariant
                self.wf(),
                self.term@ == old(self).term@,
                self.whitelist@ == old(self).whitelist@,
                self.pool_size == old(self).pool_size,
                self.buf_size == old(self).buf_size,
                self.case_insensitive == old(self).case_insensitive,
                self.queue == old(self).queue,
                self.signals@ == old(self).signals@,
                self.fed == old(self).fed,
                i <= self.pool_size,
                self.workers@.len() == i as nat,
                forall|k: int|
                    0 <= k < self.workers@.len() ==> (#[trigger] self.workers@[k]).phase()
                        is Running,
                workers_total(self.workers@) == 0,
            decreases self.pool_size - i,
        {
            let ghost pre = self.workers@;
            let mut w = Worker::new(self.term.as_slice(), self.buf_size, self.case_insensitive);
            w.start();
            self.workers.push(w);
            proof {
                lemma_workers_push(pre, self.workers@.last());
            }
            i = i + 1;
        }
        true
    }

    /// Pushes one file into the queue; the walker hands every discovered
    /// file to the pool through here.
    fn take(&mut self, entry: FileEntry)
        requires
            old(self).wf(),
            count_work(old(self).queue.jobs()) < old(self).queue.cap(),
            old(self).fed@ + entry.content@.len() <= u64::MAX,
        ensures
            final(self).wf(),
            final(self).same_config(&*old(self)),
            final(self).workers@ == old(self).workers@,
            final(self).signals@ == old(self).signals@,
            final(self).queue.cap() == old(self).queue.cap(),
            final(self).queue.jobs() == old(self).queue.jobs().push(Job::Work(entry)),
            final(self).fed@ == old(self).fed@ + entry.content@.len(),
            final(self).pending_total() == old(self).pending_total() + effective_count(
                entry.content@,
                old(self).term_view(),
                old(self).ci(),
                old(self).buf(),
            ),
    {
        let ghost pre = self.queue.jobs();
        let ghost content = entry.content@;
        self.queue.push_work(entry);
        proof {
            lemma_jobs_push(
                pre,
                self.queue.jobs().last(),
                self.term@,
                self.case_insensitive,
                self.buf_size as nat,
            );
            lemma_effective_le_len(content, self.term@, self.case_insensitive, self.buf_size as nat);
        }
        self.fed = Ghost(self.fed@ + content.len());
    }

    /// Lets the pool catch up by one job: pops the oldest work job and has
    /// a worker process it.  The producer calls this while the queue is
    /// full — the backpressure that bounds memory.
    fn relieve(&mut self)
        requires
            old(self).wf(),
            old(self).spawned(),
            count_stop(old(self).queue.jobs()) == 0,
            old(self).queue.jobs().len() > 0,
        ensures
            final(self).wf(),
            final(self).spawned(),
            final(self).same_config(&*old(self)),
            final(self).signals@ == old(self).signals@,
            final(self).queue.cap() == old(self).queue.cap(),
            final(self).queue.jobs() == old(self).queue.jobs().drop_first(),
            final(self).fed@ == old(self).fed@,
            final(self).pending_total() == old(self).pending_total(),
    {
        let ghost q0 = self.queue.jobs();
        let j = self.queue.pop();
        match j {
            Some(Job::Work(e)) => {
                let mut w = self.workers.remove(0);
                let ghost rest = self.workers@;
                proof {
                    assert(workers_total(old(self).workers@) == w.total_spec() + workers_total(
                        rest,
                    ));
                    assert(jobs_bytes(q0) == e.content@.len() + jobs_bytes(q0.drop_first()));
                    lemma_effective_le_len(
                        e.content@,
                        self.term@,
                        self.case_insensitive,
                        self.buf_size as nat,
                    );
                }
                let _line = w.run_job(&e);
                self.workers.push(w);
                proof {
                    lemma_workers_push(rest, self.workers@.last());
                    assert(self.workers@.len() == old(self).workers@.len());
                    assert forall|k: int| 0 <= k < self.workers@.len() implies (
                    #[trigger] self.workers@[k]).wf() && self.workers@[k].configured(
                        self.term@,
                        self.case_insensitive,
                        self.buf_size as nat,
                    ) && self.workers@[k].phase() is Running by {
                        if k < self.workers@.len() - 1 {
                            assert(self.workers@[k] == old(self).workers@[k + 1]);
                        }
                    }
                }
            },
            Some(Job::Stop) => {
                proof {
                    assert(count_stop(q0) > 0);
                    assert(false);
                }
            },
            None => {
                proof {
                    assert(false);
                }
            },
        }
    }

    /// The pool has shut down: every worker reported and terminated.
    pub closed spec fn stopped(&self) -> bool {
        &&& self.workers@.len() == self.pool_size as nat
        &&& forall|i: int|
            0 <= i < self.workers@.len() ==> (#[trigger] self.workers@[i]).phase()
                is Stopped
    }

    /// Shuts the pool down and returns the aggregate count.  One stop
    /// sentinel is enqueued per worker — behind all queued work, so every
    /// file handed over is still processed.  Each worker consumes exactly
    /// one sentinel, reports its local total once, and terminates; the
    /// result, the sum of exactly `pool_size` completion signals, is every
    /// match the scan owed.  The manager is not reusable afterwards.
    pub fn stop(&mut self) -> (total: u64)
        requires
            old(self).wf(),
            old(self).spawned(),
            count_stop(old(self).queue_jobs()) == 0,
            old(self).signals_view().len() == 0,
        ensures
            final(self).wf(),
            final(self).same_config(&*old(self)),
            final(self).stopped(),
            final(self).signals_view().len() == old(self).pool(),
            total as nat == sum_signals(final(self).signals_view()),
            total as nat == old(self).pending_total(),
    {
        let ghost pending0 = old(self).pending_total();
        proof {
            lemma_count_stop_zero(self.queue.jobs());
            lemma_jobs_total_le_bytes(
                self.queue.jobs(),
                self.term@,
                self.case_insensitive,
                self.buf_size as nat,
            );
        }
        // One sentinel per worker, behind all queued work.
        let mut i: usize = 0;
        while i < self.pool_size
            invariant
                self.wf(),
                self.spawned(),
                self.same_config(&*old(self)),
                self.term@ == old(self).term@,
                self.whitelist@ == old(self).whitelist@,
                self.case_insensitive == old(self).case_insensitive,
                self.buf_size == old(self).buf_size,
                self.pool_size == old(self).pool_size,
                self.workers@ == old(self).workers@,
                self.signals@ == old(self).signals@,
                self.fed@ == old(self).fed@,
                i <= self.pool_size,
                count_stop(self.queue.jobs()) == i as nat,
                jobs_ordered(self.queue.jobs()),
                jobs_total(self.queue.jobs(), self.term@, self.case_insensitive, self.buf_size as nat)
                    == jobs_total(
                    old(self).queue.jobs(),
                    self.term@,
                    self.case_insensitive,
                    self.buf_size as nat,
                ),
                jobs_bytes(self.queue.jobs()) == jobs_bytes(old(self).queue.jobs()),
            decreases self.pool_size - i,
        {
            let ghost pre = self.queue.jobs();
            self.queue.push_stop();
            proof {
                lemma_jobs_push(
                    pre,
                    self.queue.jobs().last(),
                    self.term@,
                    self.case_insensitive,
                    self.buf_size as nat,
                );
                assert forall|a: int, b: int|
                    0 <= a < b < self.queue.jobs().len() && (#[trigger] self.queue.jobs()[a])
                        is Stop implies (#[trigger] self.queue.jobs()[b]) is Stop by {
                    if b < self.queue.jobs().len() - 1 {
                        assert(self.queue.jobs()[a] == pre[a]);
                        assert(self.queue.jobs()[b] == pre[b]);
                    }
                }
            }
            i = i + 1;
        }
        // Drain: each worker consumes jobs until its sentinel, then reports.
        let mut retired: Vec<Worker> = Vec::new();
        while self.workers.len() > 0
            invariant
                self.term@ == old(self).term@,
                self.whitelist@ == old(self).whitelist@,
                self.pool_size == old(self).pool_size,
                self.buf_size == old(self).buf_size,
                self.case_insensitive == old(self).case_insensitive,
                self.term@.len() > 0,
                self.pool_size >= 1,
                self.queue.wf(),
                self.queue.cap() >= 1,
                self.fed@ == old(self).fed@,
                self.fed@ <= u64::MAX,
                forall|k: int|
                    0 <= k < self.workers@.len() ==> (#[trigger] self.workers@[k]).wf()
                        && self.workers@[k].configured(
                        self.term@,
                        self.case_insensitive,
                        self.buf_size as nat,
                    ) && self.workers@[k].phase() is Running,
                forall|k: int|
                    0 <= k < retired@.len() ==> (#[trigger] retired@[k]).wf()
                        && retired@[k].configured(
                        self.term@,
                        self.case_insensitive,
                        self.buf_size as nat,
                    ) && retired@[k].phase() is Stopped,
                self.workers@.len() + retired@.len() == self.pool_size as nat,
                self.signals@.len() == retired@.len(),
                sum_signals(self.signals@) == workers_total(retired@),
                count_stop(self.queue.jobs()) == self.workers@.len(),
                jobs_ordered(self.queue.jobs()),
                retired@.len() > 0 ==> forall|k: int|
                    0 <= k < self.queue.jobs().len() ==> (#[trigger] self.queue.jobs()[k])
                        is Stop,
                workers_total(self.workers@) + workers_total(retired@) + jobs_total(
                    self.queue.jobs(),
                    self.term@,
                    self.case_insensitive,
                    self.buf_size as nat,
                ) == pending0,
                workers_total(self.workers@) + workers_total(retired@) + jobs_bytes(
                    self.queue.jobs(),
                ) <= self.fed@,
            decreases self.workers@.len(),
        {
            let ghost ws0 = self.workers@;
            let mut w = self.workers.remove(0);
            let ghost rest = self.workers@;
            proof {
                assert(rest =~= ws0.drop_first());
                assert(workers_total(ws0) == w.total_spec() + workers_total(rest));
            }
            loop
                invariant_except_break
                    w.wf(),
                    w.configured(self.term@, self.case_insensitive, self.buf_size as nat),
                    w.phase() is Running,
                    self.term@ == old(self).term@,
                    self.whitelist@ == old(self).whitelist@,
                    self.pool_size == old(self).pool_size,
                    self.buf_size == old(self).buf_size,
                    self.case_insensitive == old(self).case_insensitive,
                    self.term@.len() > 0,
                    self.pool_size >= 1,
                    self.queue.wf(),
                    self.queue.cap() >= 1,
                    self.fed@ == old(self).fed@,
                    self.fed@ <= u64::MAX,
                    self.workers@ == rest,
                    self.signals@.len() == retired@.len(),
                    sum_signals(self.signals@) == workers_total(retired@),
                    count_stop(self.queue.jobs()) == rest.len() + 1,
                    jobs_ordered(self.queue.jobs()),
                    w.total_spec() + workers_total(rest) + workers_total(retired@) + jobs_total(
                        self.queue.jobs(),
                        self.term@,
                        self.case_insensitive,
                        self.buf_size as nat,
                    ) == pending0,
                    w.total_spec() + workers_total(rest) + workers_total(retired@) + jobs_bytes(
                        self.queue.jobs(),
                    ) <= self.fed@,
                ensures
                    w.wf(),
                    w.configured(self.term@, self.case_insensitive, self.buf_size as nat),
                    w.phase() is Draining,
                    self.term@ == old(self).term@,
                    self.whitelist@ == old(self).whitelist@,
                    self.pool_size == old(self).pool_size,
                    self.buf_size == old(self).buf_size,
                    self.case_insensitive == old(self).case_insensitive,
                    self.term@.len() > 0,
                    self.pool_size >= 1,
                    self.queue.wf(),
                    self.queue.cap() >= 1,
                    self.fed@ == old(self).fed@,
                    self.fed@ <= u64::MAX,
                    self.workers@ == rest,
                    self.signals@.len() == retired@.len(),
                    sum_signals(self.signals@) == workers_total(retired@),
                    count_stop(self.queue.jobs()) == rest.len(),
                    jobs_ordered(self.queue.jobs()),
                    forall|k: int|
                        0 <= k < self.queue.jobs().len() ==> (#[trigger] self.queue.jobs()[k])
                            is Stop,
                    w.total_spec() + workers_total(rest) + workers_total(retired@) + jobs_total(
                        self.queue.jobs(),
                        self.term@,
                        self.case_insensitive,
                        self.buf_size as nat,
                    ) == pending0,
                    w.total_spec() + workers_total(rest) + workers_total(retired@) + jobs_bytes(
                        self.queue.jobs(),
                    ) <= self.fed@,
                decreases self.queue.jobs().len(),
            {
                proof {
                    lemma_counts_len(self.queue.jobs());
                }
                let ghost q0 = self.queue.jobs();
                let j = self.queue.pop();
                match j {
                    Some(Job::Work(e)) => {
                        proof {
                            lemma_effective_le_len(
                                e.content@,
                                self.term@,
                                self.case_insensitive,
                                self.buf_size as nat,
                            );
                            assert forall|a: int, b: int|
                                0 <= a < b < self.queue.jobs().len() && (
                                #[trigger] self.queue.jobs()[a]) is Stop implies (
                                #[trigger] self.queue.jobs()[b]) is Stop by {
                                assert(self.queue.jobs()[a] == q0[a + 1]);
                                assert(self.queue.jobs()[b] == q0[b + 1]);
                            }
                        }
                        let _line = w.run_job(&e);
                    },
                    Some(Job::Stop) => {
                        w.drain();
                        proof {
                            assert forall|k: int|
                                0 <= k < self.queue.jobs().len() implies (
                                #[trigger] self.queue.jobs()[k]) is Stop by {
                                assert(self.queue.jobs()[k] == q0[k + 1]);
                                assert(q0[0] is Stop);
                            }
                        }
                        break;
                    },
                    None => {
                        proof {
                            assert(false);
                        }
                    },
                }
            }
            let ghost pre_signals = self.signals@;
            let ghost pre_retired = retired@;
            let sig = w.report();
            self.signals.push(sig);
            retired.push(w);
            proof {
                lemma_signals_push(pre_signals, sig);
                lemma_workers_push(pre_retired, retired@.last());
                lemma_all_stop(
                    self.queue.jobs(),
                    self.term@,
                    self.case_insensitive,
                    self.buf_size as nat,
                );
                assert forall|k: int|
                    0 <= k < retired@.len() implies (#[trigger] retired@[k]).wf()
                        && retired@[k].configured(
                        self.term@,
                        self.case_insensitive,
                        self.buf_size as nat,
                    ) && retired@[k].phase() is Stopped by {
                    if k < retired@.len() - 1 {
                        assert(retired@[k] == pre_retired[k]);
                    }
                }
            }
        }
        proof {
            lemma_all_stop(
                self.queue.jobs(),
                self.term@,
                self.case_insensitive,
                self.buf_size as nat,
            );
        }
        self.workers = retired;
        // Sum the completion signals: the aggregate count.
        let ghost sigs = self.signals@;
        let mut total: u64 = 0;
        let mut k: usize = 0;
        while k < self.signals.len()
            invariant
                self.signals@ == sigs,
                k <= sigs.len(),
                total as nat == sum_signals(sigs.subrange(0, k as int)),
                sum_signals(sigs) <= u64::MAX,
            decreases sigs.len() - k,
        {
            let s = self.signals[k];
            proof {
                lemma_signals_skip(sigs, k as int);
                assert(sigs.subrange(0, k as int).push(sigs[k as int]) =~= sigs.subrange(
                    0,
                    k as int + 1,
                ));
                lemma_signals_push(sigs.subrange(0, k as int), sigs[k as int]);
            }
            total = total + s;
            k = k + 1;
        }
        proof {
            assert(sigs.subrange(0, sigs.len() as int) =~= sigs);
        }
        total
    }

    /// Whether `other` has the same configuration as `self`.
    pub open spec fn same_config(&self, other: &Manager) -> bool {
        &&& self.term_view() == other.term_view()
        &&& self.whitelist_view() == other.whitelist_view()
        &&& self.pool() == other.pool()
        &&& self.buf() == other.buf()
        &&& self.ci() == other.ci()
    }
}

/// Feeds the discovered files to the pool.  Each entry whose file name
/// passes the whitelist is queued, in order; while the queue is full the
/// producer pauses and lets a worker catch up, so the queue never exceeds
/// its capacity.  Returns once every entry has been handed over — workers
/// may still be processing.
pub fn scan(entries: &Vec<FileEntry>, manager: &mut Manager) -> (r: Result<(), Error>)
    requires
        old(manager).wf(),
        old(manager).spawned(),
        count_stop(old(manager).queue_jobs()) == 0,
        old(manager).fed_bytes() + entries_bytes(entries@) <= u64::MAX,
    ensures
        final(manager).wf(),
        final(manager).spawned(),
        final(manager).same_config(&*old(manager)),
        count_stop(final(manager).queue_jobs()) == 0,
        final(manager).signals_view() == old(manager).signals_view(),
        final(manager).fed_bytes() <= old(manager).fed_bytes() + entries_bytes(entries@),
        final(manager).pending_total() == old(manager).pending_total() + entries_total(
            entries@,
            old(manager).whitelist_view(),
            old(manager).term_view(),
            old(manager).ci(),
            old(manager).buf(),
        ),
        r is Ok,
{
    let mut idx: usize = 0;
    while idx < entries.len()
        invariant
            manager.wf(),
            manager.spawned(),
            manager.same_config(&*old(manager)),
            count_stop(manager.queue.jobs()) == 0,
            manager.signals@ == old(manager).signals@,
            idx <= entries@.len(),
            manager.fed@ <= old(manager).fed@ + entries_bytes(entries@.subrange(0, idx as int)),
            old(manager).fed@ + entries_bytes(entries@) <= u64::MAX,
            manager.pending_total() == old(manager).pending_total() + entries_total(
                entries@.subrange(0, idx as int),
                old(manager).whitelist_view(),
                old(manager).term_view(),
                old(manager).ci(),
                old(manager).buf(),
            ),
        decreases entries@.len() - idx,
    {
        let e = &entries[idx];
        let name = base_name(e.path.as_str().as_bytes());
        let wanted = should_scan(name, &manager.whitelist);
        proof {
            assert(wanted == entry_included(entries@[idx as int], manager.whitelist_view()));
            assert(entries@.subrange(0, idx as int).push(entries@[idx as int]) =~= entries@
                .subrange(0, idx as int + 1));
            lemma_entries_push(
                entries@.subrange(0, idx as int),
                entries@[idx as int],
                old(manager).whitelist_view(),
                old(manager).term_view(),
                old(manager).ci(),
                old(manager).buf(),
            );
            lemma_entries_bytes_skip(entries@, idx as int);
        }
        if wanted {
            while manager.queue.is_full()
                invariant
                    manager.wf(),
                    manager.spawned(),
                    manager.same_config(&*old(manager)),
                    count_stop(manager.queue.jobs()) == 0,
                    manager.signals@ == old(manager).signals@,
                    idx < entries@.len(),
                    manager.fed@ <= old(manager).fed@ + entries_bytes(
                        entries@.subrange(0, idx as int),
                    ),
                    old(manager).fed@ + entries_bytes(entries@) <= u64::MAX,
                    manager.pending_total() == old(manager).pending_total() + entries_total(
                        entries@.subrange(0, idx as int),
                        old(manager).whitelist_view(),
                        old(manager).term_view(),
                        old(manager).ci(),
                        old(manager).buf(),
                    ),
                decreases manager.queue.jobs().len(),
            {
                proof {
                    lemma_counts_len(manager.queue.jobs());
                    let q = manager.queue.jobs();
                    assert(count_stop(q.drop_first()) == count_stop(q) - (if q[0] is Stop {
                        1nat
                    } else {
                        0nat
                    }));
                }
                manager.relieve();
            }
            let ghost q_before = manager.queue.jobs();
            manager.take(e.duplicate());
            proof {
                lemma_jobs_push(
                    q_before,
                    manager.queue.jobs().last(),
                    old(manager).term_view(),
                    old(manager).ci(),
                    old(manager).buf(),
                );
            }
        }
        idx = idx + 1;
    }
    proof {
        assert(entries@.subrange(0, entries@.len() as int) =~= entries@);
    }
    Ok(())
}

/// Runs one whole search: validates the configuration, spawns the pool,
/// feeds it the discovered files and shuts it down, returning the total
/// number of matches found in the entries that pass the whitelist.  An
/// empty search term or an empty pool is refused before anything runs.
pub fn run(params: &Params, entries: &Vec<FileEntry>) -> (r: Result<u64, Error>)
    requires
        entries_bytes(entries@) <= u64::MAX,
    ensures
        (params.needle@.len() == 0 || params.pool_size == 0) <==> r is Err,
        r is Err ==> r == Err::<u64, Error>(Error::InvalidConfiguration),
        r is Ok ==> r->Ok_0 as nat == entries_total(
            entries@,
            whitelist_views(params.whitelist@),
            encode_utf8(params.needle@),
            params.case_insensitive,
            params.buf_size as nat,
        ),
{
    let mut manager = match Manager::new(params) {
        Ok(m) => m,
        Err(e) => {
            return Err(e);
        },
    };
    manager.spawn();
    let scanned = scan(entries, &mut manager);
    match scanned {
        Ok(_) => Ok(manager.stop()),
        Err(e) => Err(e),
    }
}

} // verus!
