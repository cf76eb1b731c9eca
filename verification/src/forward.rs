//! The forward scanner's bookkeeping: which window of blocks to fetch next,
//! which fetches are in flight, and which window's transfers go to the
//! insertion worker next. Fetches may finish in any order; their results are
//! taken in the order in which the fetches were started.

use vstd::prelude::*;
use crate::insertion_worker::TransferBatch;
use crate::repository::models::Transfer;

verus! {

/// A range of blocks, both ends included.
#[derive(Clone, Copy, Debug, PartialEq, Eq, Structural)]
pub struct Window {
    pub from: u64,
    pub to: u64,
}

/// The state of the forward scanner as the proofs see it.
pub struct ScanView {
    pub next_block_to_fetch: u64,
    pub next_block_to_process: u64,
    pub pending: Seq<Window>,
    pub batch_size: u64,
    pub max_pending_requests: usize,
}

/// Whether the windows lie one after the other without a gap, from `start`
/// up to, but not including, `end`.
pub open spec fn tiles(windows: Seq<Window>, start: int, end: int) -> bool
    decreases windows.len(),
{
    if windows.len() == 0 {
        start == end
    } else {
        &&& windows.last().from <= windows.last().to
        &&& windows.last().to + 1 == end
        &&& tiles(windows.drop_last(), start, windows.last().from as int)
    }
}

impl ScanView {
    /// Whether the state is well formed: the fetches in flight cover the
    /// blocks from the next to process up to the next to fetch, in order and
    /// without a gap.
    pub open spec fn wf(self) -> bool {
        &&& self.batch_size >= 1
        &&& tiles(self.pending, self.next_block_to_process as int, self.next_block_to_fetch as int)
    }

    /// Whether there is nothing to fetch and nothing in flight.
    pub open spec fn caught_up(self, latest_block: u64) -> bool {
        self.next_block_to_fetch > latest_block && self.pending.len() == 0
    }

    /// The window that a tick of the rate limiter starts to fetch, if any.
    pub open spec fn window_to_fetch(self, latest_block: u64) -> Option<Window> {
        if self.pending.len() < self.max_pending_requests && self.next_block_to_fetch <= latest_block {
            let from = self.next_block_to_fetch;
            let to = if from + self.batch_size - 1 <= latest_block {
                (from + self.batch_size - 1) as u64
            } else {
                latest_block
            };
            Some(Window { from, to })
        } else {
            None
        }
    }

    /// The state after a tick of the rate limiter.
    pub open spec fn after_tick(self, latest_block: u64) -> ScanView {
        match self.window_to_fetch(latest_block) {
            Some(w) => ScanView {
                next_block_to_fetch: (w.to + 1) as u64,
                pending: self.pending.push(w),
                ..self
            },
            None => self,
        }
    }

    /// The state after the oldest fetch in flight has delivered.
    pub open spec fn after_completion(self) -> ScanView {
        if self.pending.len() > 0 {
            ScanView {
                next_block_to_process: (self.pending[0].to + 1) as u64,
                pending: self.pending.subrange(1, self.pending.len() as int),
                ..self
            }
        } else {
            self
        }
    }

    /// The state when the scan resumes after waiting for new blocks.
    pub open spec fn after_resume(self) -> ScanView {
        ScanView { next_block_to_fetch: self.next_block_to_process, ..self }
    }
}

/// What can happen to the forward scanner.
pub enum ScanEvent {
    /// The rate limiter ticked while the chain's tip was at `latest_block`.
    Tick { latest_block: u64 },
    /// The oldest fetch in flight delivered its logs.
    Completed,
    /// The scan had caught up, waited, and resumes.
    Resumed,
}

/// The state after one event, and the window whose batch goes to the
/// insertion worker because of it, if any. An event that cannot happen in
/// the state leaves it as it is.
pub open spec fn step(s: ScanView, e: ScanEvent) -> (ScanView, Option<Window>) {
    match e {
        ScanEvent::Tick { latest_block } => if latest_block < u64::MAX {
            (s.after_tick(latest_block), None)
        } else {
            (s, None)
        },
        ScanEvent::Completed => if s.pending.len() > 0 {
            (s.after_completion(), Some(s.pending[0]))
        } else {
            (s, None)
        },
        ScanEvent::Resumed => if s.pending.len() == 0 {
            (s.after_resume(), None)
        } else {
            (s, None)
        },
    }
}

/// The state after a run of events, and the windows whose batches went to
/// the insertion worker, in the order in which they went.
pub open spec fn run(s: ScanView, events: Seq<ScanEvent>) -> (ScanView, Seq<Window>)
    decreases events.len(),
{
    if events.len() == 0 {
        (s, Seq::empty())
    } else {
        let (mid, sent) = run(s, events.drop_last());
        let (end, emitted) = step(mid, events.last());
        match emitted {
            Some(w) => (end, sent.push(w)),
            None => (end, sent),
        }
    }
}

/// Windows that tile a range start at its start.
pub proof fn lemma_tiles_first(windows: Seq<Window>, start: int, end: int)
    requires
        tiles(windows, start, end),
    ensures
        start <= end,
        windows.len() == 0 ==> start == end,
        windows.len() > 0 ==> windows[0].from == start && windows[0].from <= windows[0].to && tiles(
            windows.subrange(1, windows.len() as int),
            windows[0].to + 1,
            end,
        ),
    decreases windows.len(),
{
    if windows.len() > 0 {
        let head = windows.drop_last();
        lemma_tiles_first(head, start, windows.last().from as int);
        let rest = windows.subrange(1, windows.len() as int);
        if head.len() == 0 {
            assert(rest =~= Seq::<Window>::empty());
            assert(windows[0] == windows.last());
            assert(tiles(rest, windows[0].to + 1, end));
        } else {
            assert(rest.drop_last() =~= head.subrange(1, head.len() as int));
            assert(rest.last() == windows.last());
            assert(windows[0] == head[0]);
            assert(tiles(rest.drop_last(), windows[0].to + 1, windows.last().from as int));
            assert(tiles(rest, windows[0].to + 1, end));
        }
    }
}

/// Windows that tile a range followed by windows that tile the next range
/// tile the two ranges together.
pub proof fn lemma_tiles_push(windows: Seq<Window>, start: int, mid: int, w: Window)
    requires
        tiles(windows, start, mid),
        w.from == mid,
        w.from <= w.to,
    ensures
        tiles(windows.push(w), start, w.to + 1),
{
    assert(windows.push(w).drop_last() =~= windows);
}

/// Windows that tile a range end one after the other: each starts one block
/// after the one before it ends, and so the ends strictly increase.
pub proof fn lemma_tiles_contiguous(windows: Seq<Window>, start: int, end: int)
    requires
        tiles(windows, start, end),
    ensures
        forall|i: int| 0 <= i < windows.len() ==> (#[trigger] windows[i]).from <= windows[i].to,
        forall|i: int|
            0 <= i < windows.len() - 1 ==> (#[trigger] windows[i + 1]).from == windows[i].to + 1,
        forall|i: int, j: int|
            0 <= i < j < windows.len() ==> (#[trigger] windows[i]).to < (#[trigger] windows[j]).to,
        windows.len() > 0 ==> windows[0].from == start && windows.last().to + 1 == end,
    decreases windows.len(),
{
    if windows.len() > 0 {
        let head = windows.drop_last();
        lemma_tiles_contiguous(head, start, windows.last().from as int);
        lemma_tiles_first(windows, start, end);
        assert forall|i: int| 0 <= i < windows.len() implies (#[trigger] windows[i]).from <= windows[i].to by {
            if i < head.len() {
                assert(head[i] == windows[i]);
            }
        }
        assert forall|i: int| 0 <= i < windows.len() - 1 implies (#[trigger] windows[i + 1]).from
            == windows[i].to + 1 by {
            if i < head.len() - 1 {
                assert(head[i + 1] == windows[i + 1]);
                assert(head[i] == windows[i]);
            } else {
                assert(head.last() == windows[i]);
            }
        }
        assert forall|i: int, j: int| 0 <= i < j < windows.len() implies (#[trigger] windows[i]).to < (
        #[trigger] windows[j]).to by {
            assert(head[i] == windows[i]);
            if j < head.len() {
                assert(head[j] == windows[j]);
            } else {
                assert(head[i].to <= head.last().to) by {
                    if i < head.len() - 1 {
                        assert(head[i].to < head[head.len() - 1].to);
                    }
                }
            }
        }
    }
}

/// One event keeps the state well formed, and the window that it sends to
/// the worker, if any, starts at the next block to process and moves that
/// mark to one past its end.
pub proof fn lemma_step(s: ScanView, e: ScanEvent)
    requires
        s.wf(),
    ensures
        step(s, e).0.wf(),
        step(s, e).1 matches Some(w) ==> w.from == s.next_block_to_process && w.from <= w.to && step(
            s,
            e,
        ).0.next_block_to_process == w.to + 1,
        step(s, e).1 is None ==> step(s, e).0.next_block_to_process == s.next_block_to_process,
{
    lemma_tiles_first(s.pending, s.next_block_to_process as int, s.next_block_to_fetch as int);
    match e {
        ScanEvent::Tick { latest_block } => {
            if latest_block < u64::MAX {
                match s.window_to_fetch(latest_block) {
                    Some(w) => {
                        assert(w.from == s.next_block_to_fetch && w.from <= w.to && w.to <= latest_block);
                        lemma_tiles_push(
                            s.pending,
                            s.next_block_to_process as int,
                            s.next_block_to_fetch as int,
                            w,
                        );
                        let t = s.after_tick(latest_block);
                        assert(t.pending == s.pending.push(w));
                        assert(t.next_block_to_fetch == w.to + 1);
                    },
                    None => {},
                }
            }
        },
        ScanEvent::Completed => {
            if s.pending.len() > 0 {
                let rest = s.pending.subrange(1, s.pending.len() as int);
                lemma_tiles_first(rest, s.pending[0].to + 1, s.next_block_to_fetch as int);
            }
        },
        ScanEvent::Resumed => {
            if s.pending.len() == 0 {
                assert(tiles(
                    s.pending,
                    s.next_block_to_process as int,
                    s.next_block_to_process as int,
                ));
            }
        },
    }
}

/// The batches reach the insertion worker in block order and without a gap.
/// Whatever the events and however many fetches overlap, the windows sent
/// tile the blocks from the first block to process at the start up to the
/// next block to process at the end: each window starts one block after
/// the one before it ends.
pub proof fn lemma_batches_in_order(s: ScanView, events: Seq<ScanEvent>)
    requires
        s.wf(),
    ensures
        run(s, events).0.wf(),
        tiles(
            run(s, events).1,
            s.next_block_to_process as int,
            run(s, events).0.next_block_to_process as int,
        ),
    decreases events.len(),
{
    if events.len() > 0 {
        let (mid, sent) = run(s, events.drop_last());
        lemma_batches_in_order(s, events.drop_last());
        lemma_step(mid, events.last());
        match step(mid, events.last()).1 {
            Some(w) => {
                lemma_tiles_push(
                    sent,
                    s.next_block_to_process as int,
                    mid.next_block_to_process as int,
                    w,
                );
            },
            None => {},
        }
    }
}

/// The end blocks that the insertion worker receives are strictly
/// increasing, and each batch begins one block after the one before it
/// ends.
pub proof fn lemma_end_blocks_increase(s: ScanView, events: Seq<ScanEvent>)
    requires
        s.wf(),
    ensures
        forall|i: int, j: int|
            0 <= i < j < run(s, events).1.len() ==> (#[trigger] run(s, events).1[i]).to < (#[trigger] run(
                s,
                events,
            ).1[j]).to,
        forall|i: int|
            0 <= i < run(s, events).1.len() - 1 ==> (#[trigger] run(s, events).1[i + 1]).from == run(
                s,
                events,
            ).1[i].to + 1,
{
    lemma_batches_in_order(s, events);
    lemma_tiles_contiguous(
        run(s, events).1,
        s.next_block_to_process as int,
        run(s, events).0.next_block_to_process as int,
    );
}

/// The forward scanner's bookkeeping.
pub struct ForwardScan {
    pub next_block_to_fetch: u64,
    pub next_block_to_process: u64,
    pub pending: Vec<Window>,
    pub batch_size: u64,
    pub max_pending_requests: usize,
}

impl View for ForwardScan {
    type V = ScanView;

    open spec fn view(&self) -> ScanView {
        ScanView {
            next_block_to_fetch: self.next_block_to_fetch,
            next_block_to_process: self.next_block_to_process,
            pending: self.pending@,
            batch_size: self.batch_size,
            max_pending_requests: self.max_pending_requests,
        }
    }
}

impl ForwardScan {
    /// A scan that resumes one block after the last processed block, with no
    /// fetch in flight.
    pub fn new(last_processed_block: u64, batch_size: u64, max_pending_requests: usize) -> (r: ForwardScan)
        requires
            last_processed_block < u64::MAX,
            batch_size >= 1,
        ensures
            r@.wf(),
            r@.next_block_to_fetch == last_processed_block + 1,
            r@.next_block_to_process == last_processed_block + 1,
            r@.pending.len() == 0,
            r@.batch_size == batch_size,
            r@.max_pending_requests == max_pending_requests,
    {
        ForwardScan {
            next_block_to_fetch: last_processed_block + 1,
            next_block_to_process: last_processed_block + 1,
            pending: Vec::new(),
            batch_size,
            max_pending_requests,
        }
    }

    /// Whether there is nothing to fetch and nothing in flight, so that the
    /// scan waits for new blocks.
    pub fn is_caught_up(&self, latest_block: u64) -> (r: bool)
        ensures
            r == self@.caught_up(latest_block),
    {
        self.next_block_to_fetch > latest_block && self.pending.len() == 0
    }

    /// Resumes after the wait for new blocks: with no fetch in flight,
    /// fetching starts again at the next block to process, wherever the
    /// mark of the next block to fetch stood. While a fetch is in flight
    /// nothing changes.
    pub fn resume(&mut self)
        ensures
            final(self)@ == (if old(self)@.pending.len() == 0 {
                old(self)@.after_resume()
            } else {
                old(self)@
            }),
            old(self)@.wf() ==> final(self)@.wf(),
    {
        proof {
            if self@.wf() {
                lemma_step(self@, ScanEvent::Resumed);
            }
        }
        if self.pending.len() == 0 {
            self.next_block_to_fetch = self.next_block_to_process;
        }
    }

    /// A tick of the rate limiter: where fewer fetches are in flight than
    /// allowed and blocks are left, the next window is put in flight and
    /// returned for the caller to fetch.
    pub fn on_rate_limit_tick(&mut self, latest_block: u64) -> (r: Option<Window>)
        requires
            old(self)@.wf(),
            latest_block < u64::MAX,
        ensures
            r == old(self)@.window_to_fetch(latest_block),
            final(self)@ == old(self)@.after_tick(latest_block),
            final(self)@.wf(),
    {
        proof {
            lemma_step(self@, ScanEvent::Tick { latest_block });
        }
        if self.pending.len() < self.max_pending_requests && self.next_block_to_fetch <= latest_block {
            let from = self.next_block_to_fetch;
            let to = if self.batch_size - 1 <= latest_block - from {
                from + (self.batch_size - 1)
            } else {
                latest_block
            };
            let w = Window { from, to };
            self.pending.push(w);
            self.next_block_to_fetch = to + 1;
            Some(w)
        } else {
            None
        }
    }

    /// The oldest fetch in flight has delivered: its transfers become the
    /// next batch for the insertion worker, which ends at the end of that
    /// fetch's window.
    pub fn on_fetch_completed(&mut self, transfers: Vec<Transfer>) -> (batch: TransferBatch)
        requires
            old(self)@.wf(),
            old(self)@.pending.len() > 0,
        ensures
            final(self)@ == old(self)@.after_completion(),
            final(self)@.wf(),
            batch.transfers == transfers,
            batch.end_block == old(self)@.pending[0].to,
            old(self)@.pending[0].from == old(self)@.next_block_to_process,
            batch.end_block >= old(self)@.next_block_to_process,
            final(self)@.next_block_to_process == batch.end_block + 1,
    {
        proof {
            lemma_step(self@, ScanEvent::Completed);
        }
        let w = self.pending.remove(0);
        assert(self.pending@ =~= old(self)@.pending.subrange(1, old(self)@.pending.len() as int));
        self.next_block_to_process = w.to + 1;
        TransferBatch { transfers, end_block: w.to }
    }
}

} // verus!
