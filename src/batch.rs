//! The batching worker's decisions, as a state machine: the worker loop (in
//! the application) waits as told, reports what happened, and writes out the
//! entries each step hands back, in order.
use vstd::prelude::*;
use crate::types::{EnvConfig, LogEntry};

verus! {

/// How often and in what amounts the worker writes.
#[derive(Clone, Copy, Debug, PartialEq, Eq, Structural)]
pub struct BatchSettings {
    /// The longest time, in milliseconds, an entry waits before it is written.
    pub flush_interval_ms: u64,
    /// The number of buffered entries that triggers an immediate write.
    pub batch_size: u64,
}

/// An optional setting with a default and a floor of 1.
pub open spec fn at_least_one(v: Option<i64>, default: int) -> int {
    match v {
        Some(x) => if x < 1 { 1 } else { x as int },
        None => default,
    }
}

/// The batching settings of a configuration: interval 100 ms and size 50 by
/// default, neither below 1.
pub fn batch_settings(config: &EnvConfig) -> (r: BatchSettings)
    ensures
        r.flush_interval_ms as int == at_least_one(config.output.batch_interval_ms, 100),
        r.batch_size as int == at_least_one(config.output.batch_size, 50),
{
    let interval: i64 = match config.output.batch_interval_ms {
        Some(x) => if x < 1 { 1 } else { x },
        None => 100,
    };
    let size: i64 = match config.output.batch_size {
        Some(x) => if x < 1 { 1 } else { x },
        None => 50,
    };
    BatchSettings { flush_interval_ms: interval as u64, batch_size: size as u64 }
}

/// The batching worker for `config`, started at `now_ms` with an empty buffer.
pub fn init_batching_logger(config: &EnvConfig, now_ms: u64) -> (r: BatchWorker)
    ensures
        r.wf(),
        r.settings.flush_interval_ms as int == at_least_one(config.output.batch_interval_ms, 100),
        r.settings.batch_size as int == at_least_one(config.output.batch_size, 50),
        r.buffer@.len() == 0,
        r.last_flush_ms == now_ms,
        !r.stopped,
{
    BatchWorker::new(batch_settings(config), now_ms)
}

/// What the worker observed since its last step.
#[derive(Debug)]
pub enum WorkerEvent {
    /// An entry arrived.
    Message(LogEntry),
    /// No entry: the wait ran out, or none was pending.
    Quiet,
    /// Shutdown was requested, or every sender is gone.
    Shutdown,
}

/// How the worker waits next.
#[derive(Clone, Copy, Debug, PartialEq, Eq, Structural)]
pub enum WorkerWait {
    /// Wait for an entry for at most this many milliseconds.
    Recv(u64),
    /// Take an entry only if one is already pending.
    TryRecv,
    /// Leave the loop.
    Stop,
}

/// The outcome of one step: the entries to write now, in arrival order, and
/// how to wait next.
#[derive(Debug)]
pub struct WorkerStep {
    pub flush: Vec<LogEntry>,
    pub next: WorkerWait,
}

/// The worker's state: its settings, the buffered entries in arrival order,
/// the time of the last write (or start) and whether it has stopped.
pub struct BatchWorker {
    pub settings: BatchSettings,
    pub buffer: Vec<LogEntry>,
    pub last_flush_ms: u64,
    pub stopped: bool,
}

/// Milliseconds from `last` to `now`, never negative.
pub open spec fn elapsed(last: u64, now: u64) -> int {
    if now >= last { now - last } else { 0 }
}

/// One step on a message (`Some`) or a quiet event (`None`), over the
/// buffer and the time of the last write: the entries written, the new buffer
/// and the new time of the last write.
pub open spec fn model_step(
    s: BatchSettings,
    buf: Seq<LogEntry>,
    last: u64,
    ev: Option<LogEntry>,
    now: u64,
) -> (Seq<LogEntry>, Seq<LogEntry>, u64) {
    match ev {
        Some(e) => if buf.push(e).len() >= s.batch_size {
            (buf.push(e), Seq::empty(), now)
        } else {
            (Seq::empty(), buf.push(e), last)
        },
        None => if elapsed(last, now) >= s.flush_interval_ms {
            (buf, Seq::empty(), now)
        } else {
            (Seq::empty(), buf, last)
        },
    }
}

/// Messages `es` arriving one after another at time `now`, from the buffer
/// `buf`: the batch written at each step, then the final buffer and time.
pub open spec fn run_messages(
    s: BatchSettings,
    buf: Seq<LogEntry>,
    last: u64,
    es: Seq<LogEntry>,
    now: u64,
) -> (Seq<Seq<LogEntry>>, Seq<LogEntry>, u64)
    decreases es.len(),
{
    if es.len() == 0 {
        (Seq::empty(), buf, last)
    } else {
        let (f, b, l) = model_step(s, buf, last, Some(es[0]), now);
        let (fs, b2, l2) = run_messages(s, b, l, es.drop_first(), now);
        (seq![f] + fs, b2, l2)
    }
}

/// Fewer than a batch of messages into a buffer that stays below the batch
/// size write nothing and are all buffered, in order.
proof fn lemma_run_below(s: BatchSettings, buf: Seq<LogEntry>, last: u64, es: Seq<LogEntry>, now: u64)
    requires
        buf.len() + es.len() < s.batch_size,
    ensures
        run_messages(s, buf, last, es, now).0.len() == es.len(),
        forall|i: int| 0 <= i < es.len() ==> (#[trigger] run_messages(s, buf, last, es, now).0[i]).len() == 0,
        run_messages(s, buf, last, es, now).1 == buf + es,
        run_messages(s, buf, last, es, now).2 == last,
    decreases es.len(),
{
    if es.len() > 0 {
        lemma_run_below(s, buf.push(es[0]), last, es.drop_first(), now);
        assert(buf.push(es[0]) + es.drop_first() =~= buf + es);
        let fs = run_messages(s, buf, last, es, now).0;
        let rest = run_messages(s, buf.push(es[0]), last, es.drop_first(), now).0;
        assert forall|i: int| 0 <= i < es.len() implies (#[trigger] fs[i]).len() == 0 by {
            if i > 0 {
                assert(fs[i] == rest[i - 1]);
            }
        }
    }
}

/// A full batch written at once: from an empty buffer, `batch_size` messages
/// arriving in quick succession cause exactly one write, at the last of them,
/// of all of them in arrival order, and leave the buffer empty; no wait for
/// the interval is involved.
pub proof fn lemma_full_batch_flushes_once(s: BatchSettings, last: u64, es: Seq<LogEntry>, now: u64)
    requires
        s.batch_size >= 1,
        es.len() == s.batch_size,
    ensures
        ({
            let (fs, b, l) = run_messages(s, Seq::empty(), last, es, now);
            &&& fs.len() == es.len()
            &&& forall|i: int| 0 <= i < es.len() - 1 ==> (#[trigger] fs[i]).len() == 0
            &&& fs[es.len() - 1] == es
            &&& b.len() == 0
            &&& l == now
        }),
{
    let n = es.len();
    let head = es.take(n - 1);
    lemma_run_prefix(s, Seq::empty(), last, es, now, n - 1);
    lemma_run_below(s, Seq::empty(), last, head, now);
    assert(Seq::<LogEntry>::empty() + head =~= head);
    assert(head.push(es[n - 1]) =~= es);
    let tail = es.skip(n - 1);
    assert(tail.len() == 1 && tail[0] == es[n - 1]);
    assert(tail.drop_first() =~= Seq::<LogEntry>::empty());
    let (f1, b1, l1) = run_messages(s, Seq::empty(), last, head, now);
    let (f2, b2, l2) = run_messages(s, b1, l1, tail, now);
    assert(b1 == head);
    let (g, c, m) = model_step(s, b1, l1, Some(tail[0]), now);
    assert(g == es);
    let (gs, c2, m2) = run_messages(s, c, m, tail.drop_first(), now);
    assert(gs =~= Seq::<Seq<LogEntry>>::empty());
    assert(f2 == seq![g] + gs);
    assert(f2 =~= seq![es]);
    let fs = f1 + f2;
    assert forall|i: int| 0 <= i < es.len() - 1 implies (#[trigger] fs[i]).len() == 0 by {
        assert(fs[i] == f1[i]);
    }
}

/// Running a sequence of messages is running its first `k`, then the rest.
proof fn lemma_run_prefix(s: BatchSettings, buf: Seq<LogEntry>, last: u64, es: Seq<LogEntry>, now: u64, k: int)
    requires
        0 <= k <= es.len(),
    ensures
        ({
            let (f1, b1, l1) = run_messages(s, buf, last, es.take(k), now);
            let (f2, b2, l2) = run_messages(s, b1, l1, es.skip(k), now);
            run_messages(s, buf, last, es, now) == (f1 + f2, b2, l2)
        }),
    decreases k,
{
    if k == 0 {
        assert(es.skip(0) =~= es);
        assert(es.take(0) =~= Seq::<LogEntry>::empty());
        let (f2, b2, l2) = run_messages(s, buf, last, es, now);
        assert(Seq::<Seq<LogEntry>>::empty() + f2 =~= f2);
    } else {
        let (f, b, l) = model_step(s, buf, last, Some(es[0]), now);
        lemma_run_prefix(s, b, l, es.drop_first(), now, k - 1);
        assert(es.take(k).drop_first() =~= es.drop_first().take(k - 1));
        assert(es.drop_first().skip(k - 1) =~= es.skip(k));
        let (g1, c1, m1) = run_messages(s, b, l, es.drop_first().take(k - 1), now);
        let (g2, c2, m2) = run_messages(s, c1, m1, es.skip(k), now);
        assert(seq![f] + (g1 + g2) =~= (seq![f] + g1) + g2);
    }
}

/// Fewer than a batch, then a wait past the interval: from an empty buffer,
/// fewer than `batch_size` messages write nothing, and the quiet event once
/// the interval has passed writes all of them at once, in arrival order.
pub proof fn lemma_partial_batch_flushes_after_interval(
    s: BatchSettings,
    last: u64,
    es: Seq<LogEntry>,
    now: u64,
    later: u64,
)
    requires
        es.len() < s.batch_size,
        elapsed(last, later) >= s.flush_interval_ms,
    ensures
        ({
            let (fs, b, l) = run_messages(s, Seq::empty(), last, es, now);
            &&& forall|i: int| 0 <= i < fs.len() ==> (#[trigger] fs[i]).len() == 0
            &&& model_step(s, b, l, None, later).0 == es
            &&& model_step(s, b, l, None, later).1.len() == 0
        }),
{
    lemma_run_below(s, Seq::empty(), last, es, now);
    assert(Seq::<LogEntry>::empty() + es =~= es);
}

/// The batches written one after another, as one sequence.
pub open spec fn concat_batches(fs: Seq<Seq<LogEntry>>) -> Seq<LogEntry>
    decreases fs.len(),
{
    if fs.len() == 0 {
        Seq::empty()
    } else {
        fs[0] + concat_batches(fs.drop_first())
    }
}

/// No entry is lost or reordered: what was written, followed by what is
/// still buffered, is the starting buffer followed by the arriving messages
/// in arrival order. The shutdown step writes the whole buffer, so at
/// shutdown every message has been written, in order.
pub proof fn lemma_messages_kept_in_order(
    s: BatchSettings,
    buf: Seq<LogEntry>,
    last: u64,
    es: Seq<LogEntry>,
    now: u64,
)
    ensures
        ({
            let (fs, b, l) = run_messages(s, buf, last, es, now);
            concat_batches(fs) + b == buf + es
        }),
    decreases es.len(),
{
    if es.len() == 0 {
        assert(buf + es =~= buf);
        assert(Seq::<LogEntry>::empty() + buf =~= buf);
    } else {
        let (f, b, l) = model_step(s, buf, last, Some(es[0]), now);
        lemma_messages_kept_in_order(s, b, l, es.drop_first(), now);
        let (fs, b2, l2) = run_messages(s, b, l, es.drop_first(), now);
        let all = seq![f] + fs;
        assert(all.drop_first() =~= fs);
        assert(concat_batches(all) == f + concat_batches(fs));
        assert(f + b =~= buf.push(es[0]));
        assert(buf.push(es[0]) + es.drop_first() =~= buf + es);
        assert((f + concat_batches(fs)) + b2 =~= f + (concat_batches(fs) + b2));
        assert(f + (b + es.drop_first()) =~= (f + b) + es.drop_first());
    }
}

impl BatchWorker {
    /// The settings are at least 1 and the buffer is below the batch size.
    pub open spec fn wf(&self) -> bool {
        &&& self.settings.flush_interval_ms >= 1
        &&& self.settings.batch_size >= 1
        &&& self.buffer@.len() < self.settings.batch_size
    }

    /// A running worker with an empty buffer, started at `now_ms`.
    pub fn new(settings: BatchSettings, now_ms: u64) -> (r: BatchWorker)
        requires
            settings.flush_interval_ms >= 1,
            settings.batch_size >= 1,
        ensures
            r.wf(),
            r.settings == settings,
            r.buffer@.len() == 0,
            r.last_flush_ms == now_ms,
            !r.stopped,
    {
        BatchWorker { settings, buffer: Vec::new(), last_flush_ms: now_ms, stopped: false }
    }

    /// How the worker waits first: for at most one interval.
    pub fn first_wait(&self) -> (r: WorkerWait)
        ensures
            r == WorkerWait::Recv(self.settings.flush_interval_ms),
    {
        WorkerWait::Recv(self.settings.flush_interval_ms)
    }

    fn take_buffer(&mut self) -> (r: Vec<LogEntry>)
        ensures
            r@ == old(self).buffer@,
            final(self).buffer@.len() == 0,
            final(self).settings == old(self).settings,
            final(self).last_flush_ms == old(self).last_flush_ms,
            final(self).stopped == old(self).stopped,
    {
        let mut out: Vec<LogEntry> = Vec::new();
        std::mem::swap(&mut out, &mut self.buffer);
        out
    }

    /// Handles `event`, observed at `now_ms`.
    ///
    /// An entry joins the buffer; when the buffer reaches the batch size, all
    /// of it is written at once, otherwise the next already-pending entry is
    /// taken. A quiet event writes the buffer when the interval since the
    /// last write has passed and the buffer is not empty, then waits for what
    /// remains of the interval (a whole one after the deadline, written or
    /// not). Shutdown writes whatever is buffered and stops.
    pub fn step(&mut self, event: WorkerEvent, now_ms: u64) -> (r: WorkerStep)
        requires
            old(self).wf(),
            !old(self).stopped,
        ensures
            final(self).wf(),
            final(self).settings == old(self).settings,
            event !is Shutdown ==> model_step(
                old(self).settings,
                old(self).buffer@,
                old(self).last_flush_ms,
                match event { WorkerEvent::Message(e) => Some(e), _ => None },
                now_ms,
            ) == (r.flush@, final(self).buffer@, final(self).last_flush_ms),
            match event {
                WorkerEvent::Message(e) => {
                    let all = old(self).buffer@.push(e);
                    &&& !final(self).stopped
                    &&& if all.len() >= old(self).settings.batch_size {
                        &&& r.flush@ == all
                        &&& final(self).buffer@.len() == 0
                        &&& final(self).last_flush_ms == now_ms
                        &&& r.next == WorkerWait::Recv(old(self).settings.flush_interval_ms)
                    } else {
                        &&& r.flush@.len() == 0
                        &&& final(self).buffer@ == all
                        &&& final(self).last_flush_ms == old(self).last_flush_ms
                        &&& r.next == WorkerWait::TryRecv
                    }
                },
                WorkerEvent::Quiet => {
                    let due = elapsed(old(self).last_flush_ms, now_ms) >= old(self).settings.flush_interval_ms;
                    &&& !final(self).stopped
                    &&& if due {
                        &&& r.flush@ == old(self).buffer@
                        &&& final(self).buffer@.len() == 0
                        &&& final(self).last_flush_ms == now_ms
                        &&& r.next == WorkerWait::Recv(old(self).settings.flush_interval_ms)
                    } else {
                        &&& r.flush@.len() == 0
                        &&& final(self).buffer@ == old(self).buffer@
                        &&& final(self).last_flush_ms == old(self).last_flush_ms
                        &&& r.next == WorkerWait::Recv(
                            (old(self).settings.flush_interval_ms - elapsed(old(self).last_flush_ms, now_ms)) as u64,
                        )
                    }
                },
                WorkerEvent::Shutdown => {
                    &&& r.flush@ == old(self).buffer@
                    &&& final(self).buffer@.len() == 0
                    &&& final(self).stopped
                    &&& r.next == WorkerWait::Stop
                },
            },
    {
        let interval = self.settings.flush_interval_ms;
        match event {
            WorkerEvent::Message(e) => {
                self.buffer.push(e);
                if self.buffer.len() as u64 >= self.settings.batch_size {
                    let flush = self.take_buffer();
                    self.last_flush_ms = now_ms;
                    WorkerStep { flush, next: WorkerWait::Recv(interval) }
                } else {
                    WorkerStep { flush: Vec::new(), next: WorkerWait::TryRecv }
                }
            },
            WorkerEvent::Quiet => {
                let since: u64 = if now_ms >= self.last_flush_ms {
                    now_ms - self.last_flush_ms
                } else {
                    0
                };
                if since >= interval {
                    let flush = self.take_buffer();
                    self.last_flush_ms = now_ms;
                    WorkerStep { flush, next: WorkerWait::Recv(interval) }
                } else {
                    WorkerStep { flush: Vec::new(), next: WorkerWait::Recv(interval - since) }
                }
            },
            WorkerEvent::Shutdown => {
                let flush = self.take_buffer();
                self.stopped = true;
                WorkerStep { flush, next: WorkerWait::Stop }
            },
        }
    }
}

} // verus!
