//! The ring engine: a bounded window of in-flight operations over a shared
//! submission/completion ring.
//!
//! Each window slot owns one buffer and is named by its tag. A slot is busy
//! from the submission that uses it until its completion has been consumed,
//! and only an idle slot is ever handed out again. The caller pushes each
//! returned submission to the ring and feeds every completion back.
use vstd::prelude::*;
use crate::plan::{lemma_block_fits, offsets_of, pages_within};
use crate::window::{count_true, lemma_count_true_bound, lemma_count_true_push, lemma_count_true_update};

verus! {

/// One operation to enqueue: the tag of the slot whose buffer it uses and the
/// file offset it targets.
#[derive(Clone, Copy, Debug, PartialEq, Eq, Structural)]
pub struct Submission {
    pub slot: u64,
    pub offset: u64,
}

/// Why a completion ends the pass.
#[derive(Clone, Copy, Debug, PartialEq, Eq, Structural)]
pub enum CompletionError {
    /// The operation failed; the kernel's negative error code.
    Failed(i64),
    /// The operation moved a byte count other than one block.
    ShortTransfer(i64),
    /// The tag names no operation that is in flight.
    UnknownSlot(u64),
}

/// The state of one ring pass.
pub struct RingPass {
    pages: Vec<u64>,
    file_size: u64,
    block_size: u32,
    cursor: usize,
    busy: Vec<bool>,
    in_flight: usize,
}

impl RingPass {
    /// The access order the pass follows.
    pub closed spec fn pages(&self) -> Seq<u64> {
        self.pages@
    }

    pub closed spec fn spec_block_size(&self) -> u32 {
        self.block_size
    }

    /// How many operations may be in flight at once.
    pub closed spec fn window(&self) -> nat {
        self.busy@.len()
    }

    /// How many entries of the access order have been submitted.
    pub closed spec fn cursor(&self) -> nat {
        self.cursor as nat
    }

    /// Whether the slot with this tag has an operation in flight.
    pub closed spec fn slot_busy(&self, slot: u64) -> bool {
        slot < self.busy@.len() && self.busy@[slot as int]
    }

    pub closed spec fn spec_in_flight(&self) -> nat {
        self.in_flight as nat
    }

    /// The offsets submitted so far, in submission order.
    pub open spec fn submitted(&self) -> Seq<u64> {
        offsets_of(self.pages().take(self.cursor() as int), self.spec_block_size() as u64)
    }

    /// Completions still owed before the pass ends: entries of the access
    /// order not yet issued plus operations in flight.
    pub open spec fn remaining(&self) -> nat {
        (self.pages().len() - self.cursor()) as nat + self.spec_in_flight()
    }

    pub closed spec fn wf(&self) -> bool {
        &&& self.block_size > 0
        &&& self.busy@.len() > 0
        &&& pages_within(self.pages@, self.file_size, self.block_size as u64)
        &&& self.cursor <= self.pages@.len()
        &&& self.in_flight == count_true(self.busy@)
        &&& self.cursor < self.pages@.len() ==> self.in_flight == self.busy@.len()
    }

    /// Begins a pass over `pages` with at most `concurrency` operations in
    /// flight, and returns the operations that fill the window.
    pub fn start(pages: Vec<u64>, file_size: u64, block_size: u32, concurrency: u32) -> (r: (
        RingPass,
        Vec<Submission>,
    ))
        requires
            block_size > 0,
            concurrency > 0,
            pages_within(pages@, file_size, block_size as u64),
        ensures
            r.0.wf(),
            r.0.pages() == pages@,
            r.0.remaining() == pages@.len(),
            r.0.spec_block_size() == block_size,
            r.0.window() == concurrency,
            r.0.cursor() == r.1@.len(),
            r.1@.len() == if pages@.len() < concurrency {
                pages@.len()
            } else {
                concurrency as nat
            },
            forall|i: int| 0 <= i < r.1@.len() ==> #[trigger] r.1@[i].slot == i,
            forall|i: int|
                0 <= i < r.1@.len() ==> #[trigger] r.1@[i].offset == r.0.submitted()[i],
            forall|s: u64| r.0.slot_busy(s) <==> s < r.1@.len(),
            r.0.spec_in_flight() == r.1@.len(),
    {
        let bs = block_size as u64;
        let window = concurrency as usize;
        let mut busy: Vec<bool> = Vec::new();
        let mut subs: Vec<Submission> = Vec::new();
        let mut cursor: usize = 0;
        while busy.len() < window
            invariant
                bs == block_size as u64,
                bs > 0,
                window == concurrency,
                pages_within(pages@, file_size, bs),
                busy@.len() <= window,
                cursor <= busy@.len(),
                cursor <= pages@.len(),
                cursor == subs@.len(),
                cursor < busy@.len() ==> cursor == pages@.len(),
                count_true(busy@) == cursor,
                forall|s: int| 0 <= s < busy@.len() ==> (busy@[s] <==> s < cursor),
                forall|i: int| 0 <= i < subs@.len() ==> #[trigger] subs@[i].slot == i,
                forall|i: int|
                    0 <= i < subs@.len() ==> #[trigger] subs@[i].offset == offsets_of(
                        pages@.take(cursor as int),
                        bs,
                    )[i],
            decreases window - busy@.len(),
        {
            let slot = busy.len();
            proof {
                lemma_count_true_push(busy@, cursor < pages@.len());
            }
            if cursor < pages.len() {
                let p = pages[cursor];
                proof {
                    lemma_block_fits(p, file_size, bs);
                }
                subs.push(Submission { slot: slot as u64, offset: p * bs });
                busy.push(true);
                cursor = cursor + 1;
            } else {
                busy.push(false);
            }
        }
        proof {
            lemma_count_true_bound(busy@);
        }
        let pass = RingPass { pages, file_size, block_size, cursor, busy, in_flight: cursor };
        (pass, subs)
    }

    /// Consumes the completion of the operation tagged `slot`, which moved
    /// `result` bytes (or failed with the negative error code `result`).
    /// On success it returns the operation that reuses the slot, if any of the
    /// access order is left; on failure the pass is left as it was.
    pub fn complete(&mut self, slot: u64, result: i32) -> (r: Result<
        Option<Submission>,
        CompletionError,
    >)
        requires
            old(self).wf(),
        ensures
            final(self).wf(),
            final(self).pages() == old(self).pages(),
            final(self).spec_block_size() == old(self).spec_block_size(),
            final(self).window() == old(self).window(),
            !old(self).slot_busy(slot) ==> r == Err::<Option<Submission>, CompletionError>(
                CompletionError::UnknownSlot(slot),
            ),
            old(self).slot_busy(slot) && result < 0 ==> r == Err::<
                Option<Submission>,
                CompletionError,
            >(CompletionError::Failed(result as i64)),
            old(self).slot_busy(slot) && result >= 0 && result != old(self).spec_block_size()
                ==> r == Err::<Option<Submission>, CompletionError>(
                CompletionError::ShortTransfer(result as i64),
            ),
            r is Err ==> *final(self) == *old(self),
            old(self).slot_busy(slot) && result == old(self).spec_block_size() ==> r is Ok,
            r is Ok ==> final(self).remaining() + 1 == old(self).remaining(),
            r is Ok ==> {
                let more = old(self).cursor() < old(self).pages().len();
                &&& more ==> r == Ok::<Option<Submission>, CompletionError>(
                    Some(
                        Submission {
                            slot,
                            offset: offsets_of(
                                old(self).pages(),
                                old(self).spec_block_size() as u64,
                            )[old(self).cursor() as int],
                        },
                    ),
                )
                &&& more ==> final(self).cursor() == old(self).cursor() + 1
                &&& more ==> final(self).spec_in_flight() == old(self).spec_in_flight()
                &&& more ==> final(self).slot_busy(slot)
                &&& !more ==> r == Ok::<Option<Submission>, CompletionError>(None)
                &&& !more ==> final(self).cursor() == old(self).cursor()
                &&& !more ==> final(self).spec_in_flight() + 1 == old(self).spec_in_flight()
                &&& !more ==> !final(self).slot_busy(slot)
                &&& forall|s: u64| s != slot ==> final(self).slot_busy(s) == old(self).slot_busy(s)
            },
    {
        if slot >= self.busy.len() as u64 || !self.busy[slot as usize] {
            return Err(CompletionError::UnknownSlot(slot));
        }
        if result < 0 {
            return Err(CompletionError::Failed(result as i64));
        }
        if result as i64 != self.block_size as i64 {
            return Err(CompletionError::ShortTransfer(result as i64));
        }
        let idx = slot as usize;
        if self.cursor < self.pages.len() {
            let p = self.pages[self.cursor];
            let bs = self.block_size as u64;
            proof {
                lemma_block_fits(p, self.file_size, bs);
            }
            self.cursor = self.cursor + 1;
            Ok(Some(Submission { slot, offset: p * bs }))
        } else {
            proof {
                lemma_count_true_update(self.busy@, idx as int, false);
            }
            self.busy.set(idx, false);
            self.in_flight = self.in_flight - 1;
            Ok(None)
        }
    }

    /// How many operations are in flight.
    pub fn in_flight(&self) -> (r: usize)
        requires
            self.wf(),
        ensures
            r == self.spec_in_flight(),
    {
        self.in_flight
    }

    /// The pass is over: every entry of the access order has been submitted
    /// and every submission has completed.
    pub fn is_finished(&self) -> (r: bool)
        requires
            self.wf(),
        ensures
            r == (self.spec_in_flight() == 0),
            r ==> self.cursor() == self.pages().len(),
            r ==> self.submitted() == offsets_of(self.pages(), self.spec_block_size() as u64),
    {
        let r = self.in_flight == 0;
        if r {
            assert(self.pages@.take(self.cursor as int) =~= self.pages@);
        }
        r
    }

    /// The window never holds more operations than its bound, and an empty
    /// window means the whole access order has been submitted.
    pub proof fn lemma_window_bounds(&self)
        requires
            self.wf(),
        ensures
            self.spec_in_flight() <= self.window(),
            self.spec_in_flight() == 0 ==> self.cursor() == self.pages().len(),
            self.cursor() <= self.pages().len(),
    {
        lemma_count_true_bound(self.busy@);
    }
}

/// A write pass and a read pass that follow the same access order and block
/// size, each run until its window is empty, submit the same offsets: those of
/// the access order, in its order. Along the way every completion that moves
/// a whole block is accepted (see `RingPass::complete`).
pub proof fn lemma_round_trip(write: &RingPass, read: &RingPass)
    requires
        write.wf(),
        read.wf(),
        write.pages() == read.pages(),
        write.spec_block_size() == read.spec_block_size(),
        write.spec_in_flight() == 0,
        read.spec_in_flight() == 0,
    ensures
        write.submitted() == read.submitted(),
        write.submitted() == offsets_of(write.pages(), write.spec_block_size() as u64),
{
    write.lemma_window_bounds();
    read.lemma_window_bounds();
    assert(write.pages().take(write.cursor() as int) =~= write.pages());
    assert(read.pages().take(read.cursor() as int) =~= read.pages());
}

} // verus!
