//! The task engine: a bounded number of asynchronous operations in flight,
//! with landing buffers drawn from a pool.
//!
//! The pass keeps a fixed set of task slots. A slot runs one operation at a
//! time and holds the buffer that operation uses. Buffers are named by
//! number: a task takes the top of the pool, or a newly allocated buffer when
//! the pool is empty. Write passes return each buffer to the pool when its
//! task ends; read passes land every operation in a newly allocated buffer.
use vstd::prelude::*;
use crate::plan::{lemma_block_fits, offsets_of, pages_within};
use crate::ring::CompletionError;
use crate::window::{count_true, lemma_count_true_bound, lemma_count_true_push, lemma_count_true_update};

verus! {

/// A task to launch: its slot, the file offset it targets, the buffer it uses,
/// and whether that buffer is newly allocated (and so must be prepared before
/// use) rather than taken back from the pool.
#[derive(Clone, Copy, Debug, PartialEq, Eq, Structural)]
pub struct TaskStart {
    pub slot: usize,
    pub offset: u64,
    pub buffer: usize,
    pub fresh: bool,
}

/// Which slots hold a running task.
pub open spec fn occupied(tasks: Seq<Option<usize>>) -> Seq<bool> {
    tasks.map_values(|t: Option<usize>| t is Some)
}

/// The state of one pass of the task engine.
pub struct AsyncPass {
    pages: Vec<u64>,
    file_size: u64,
    block_size: u32,
    cursor: usize,
    tasks: Vec<Option<usize>>,
    pool: Vec<usize>,
    allocated: usize,
    reuse: bool,
    in_flight: usize,
}

impl AsyncPass {
    pub closed spec fn pages(&self) -> Seq<u64> {
        self.pages@
    }

    pub closed spec fn spec_block_size(&self) -> u32 {
        self.block_size
    }

    /// How many tasks may run at once.
    pub closed spec fn window(&self) -> nat {
        self.tasks@.len()
    }

    /// How many entries of the access order have been launched.
    pub closed spec fn cursor(&self) -> nat {
        self.cursor as nat
    }

    /// The buffer held by the task running in `slot`, if one runs there.
    pub closed spec fn task_buffer(&self, slot: usize) -> Option<usize> {
        if slot < self.tasks@.len() {
            self.tasks@[slot as int]
        } else {
            None
        }
    }

    /// The idle buffers, the top of the stack last.
    pub closed spec fn pool(&self) -> Seq<usize> {
        self.pool@
    }

    /// Buffers are numbered `0..allocated()` in order of allocation.
    pub closed spec fn allocated(&self) -> nat {
        self.allocated as nat
    }

    pub closed spec fn reuses_buffers(&self) -> bool {
        self.reuse
    }

    pub closed spec fn spec_in_flight(&self) -> nat {
        self.in_flight as nat
    }

    /// The offsets launched so far, in launch order.
    pub open spec fn launched(&self) -> Seq<u64> {
        offsets_of(self.pages().take(self.cursor() as int), self.spec_block_size() as u64)
    }

    /// No buffer is held by two running tasks, nor by a running task and the
    /// pool at once.
    pub open spec fn buffers_exclusive(&self) -> bool {
        &&& forall|s: usize, t: usize|
            s != t && #[trigger] self.task_buffer(s) is Some && #[trigger] self.task_buffer(t) is Some
                ==> self.task_buffer(s) != self.task_buffer(t)
        &&& forall|s: usize|
            #[trigger] self.task_buffer(s) is Some ==> !self.pool().contains(
                self.task_buffer(s)->0,
            )
        &&& self.pool().no_duplicates()
    }

    /// Completions still owed before the pass ends: entries of the access
    /// order not yet issued plus operations in flight.
    pub open spec fn remaining(&self) -> nat {
        (self.pages().len() - self.cursor()) as nat + self.spec_in_flight()
    }

    pub closed spec fn wf(&self) -> bool {
        &&& self.block_size > 0
        &&& self.tasks@.len() > 0
        &&& pages_within(self.pages@, self.file_size, self.block_size as u64)
        &&& self.cursor <= self.pages@.len()
        &&& self.allocated <= self.cursor
        &&& self.in_flight == count_true(occupied(self.tasks@))
        &&& self.cursor < self.pages@.len() ==> self.in_flight == self.tasks@.len()
        &&& forall|s: int|
            0 <= s < self.tasks@.len() && #[trigger] self.tasks@[s] is Some ==> self.tasks@[s]->0
                < self.allocated
        &&& forall|i: int| 0 <= i < self.pool@.len() ==> #[trigger] self.pool@[i] < self.allocated
        &&& !self.reuse ==> self.pool@.len() == 0
        &&& self.buffers_exclusive()
    }

    /// Takes a buffer for a new task: the top of the pool, or a new one.
    fn take_buffer(&mut self) -> (r: (usize, bool))
        requires
            old(self).allocated < usize::MAX,
        ensures
            final(self).pages == old(self).pages,
            final(self).file_size == old(self).file_size,
            final(self).block_size == old(self).block_size,
            final(self).cursor == old(self).cursor,
            final(self).tasks == old(self).tasks,
            final(self).reuse == old(self).reuse,
            final(self).in_flight == old(self).in_flight,
            old(self).pool@.len() > 0 ==> {
                &&& r == (old(self).pool@.last(), false)
                &&& final(self).pool@ == old(self).pool@.drop_last()
                &&& final(self).allocated == old(self).allocated
            },
            old(self).pool@.len() == 0 ==> {
                &&& r == (old(self).allocated, true)
                &&& final(self).pool@ == old(self).pool@
                &&& final(self).allocated == old(self).allocated + 1
            },
    {
        match self.pool.pop() {
            Some(b) => (b, false),
            None => {
                let b = self.allocated;
                self.allocated = self.allocated + 1;
                (b, true)
            },
        }
    }

    /// Begins a pass over `pages` with at most `concurrency` tasks at once and
    /// returns the tasks that fill the window. `reuse` says whether buffers
    /// return to the pool when their task ends.
    pub fn start(
        pages: Vec<u64>,
        file_size: u64,
        block_size: u32,
        concurrency: u32,
        reuse: bool,
    ) -> (r: (AsyncPass, Vec<TaskStart>))
        requires
            block_size > 0,
            concurrency > 0,
            pages_within(pages@, file_size, block_size as u64),
        ensures
            r.0.wf(),
            r.0.pages() == pages@,
            r.0.remaining() == pages@.len(),
            r.0.spec_block_size() == block_size,
            r.0.window() == concurrency,
            r.0.reuses_buffers() == reuse,
            r.0.cursor() == r.1@.len(),
            r.1@.len() == if pages@.len() < concurrency {
                pages@.len()
            } else {
                concurrency as nat
            },
            r.0.spec_in_flight() == r.1@.len(),
            r.0.allocated() == r.1@.len(),
            r.0.pool().len() == 0,
            forall|i: int|
                0 <= i < r.1@.len() ==> (#[trigger] r.1@[i]) == (TaskStart {
                    slot: i as usize,
                    offset: r.0.launched()[i],
                    buffer: i as usize,
                    fresh: true,
                }),
            forall|s: usize|
                #[trigger] r.0.task_buffer(s) == if s < r.1@.len() {
                    Some(s)
                } else {
                    None::<usize>
                },
    {
        let bs = block_size as u64;
        let window = concurrency as usize;
        let mut tasks: Vec<Option<usize>> = Vec::new();
        let mut starts: Vec<TaskStart> = Vec::new();
        let mut cursor: usize = 0;
        while tasks.len() < window
            invariant
                bs == block_size as u64,
                bs > 0,
                window == concurrency,
                pages_within(pages@, file_size, bs),
                tasks@.len() <= window,
                cursor <= tasks@.len(),
                cursor <= pages@.len(),
                cursor == starts@.len(),
                cursor < tasks@.len() ==> cursor == pages@.len(),
                count_true(occupied(tasks@)) == cursor,
                forall|s: int|
                    0 <= s < tasks@.len() ==> #[trigger] tasks@[s] == if s < cursor {
                        Some(s as usize)
                    } else {
                        None::<usize>
                    },
                forall|i: int|
                    0 <= i < starts@.len() ==> (#[trigger] starts@[i]) == (TaskStart {
                        slot: i as usize,
                        offset: offsets_of(pages@.take(cursor as int), bs)[i],
                        buffer: i as usize,
                        fresh: true,
                    }),
            decreases window - tasks@.len(),
        {
            let slot = tasks.len();
            let ghost before = tasks@;
            proof {
                lemma_count_true_push(occupied(before), cursor < pages@.len());
            }
            if cursor < pages.len() {
                let p = pages[cursor];
                proof {
                    lemma_block_fits(p, file_size, bs);
                }
                starts.push(TaskStart { slot, offset: p * bs, buffer: slot, fresh: true });
                tasks.push(Some(slot));
                cursor = cursor + 1;
            } else {
                tasks.push(None);
            }
            assert(occupied(tasks@) =~= occupied(before).push(tasks@.last() is Some));
        }
        proof {
            lemma_count_true_bound(occupied(tasks@));
        }
        let pass = AsyncPass {
            pages,
            file_size,
            block_size,
            cursor,
            tasks,
            pool: Vec::new(),
            allocated: cursor,
            reuse,
            in_flight: cursor,
        };
        (pass, starts)
    }
    /// Consumes the completion of the task in `slot`, which moved
    /// `transferred` bytes (or failed with the negative error code
    /// `transferred`). On success the task's buffer is released, and the task
    /// that takes over the slot is returned if any of the access order is
    /// left; on failure the pass is left as it was.
    pub fn complete(&mut self, slot: usize, transferred: i64) -> (r: Result<
        Option<TaskStart>,
        CompletionError,
    >)
        requires
            old(self).wf(),
        ensures
            final(self).wf(),
            final(self).pages() == old(self).pages(),
            final(self).spec_block_size() == old(self).spec_block_size(),
            final(self).window() == old(self).window(),
            final(self).reuses_buffers() == old(self).reuses_buffers(),
            old(self).task_buffer(slot) is None ==> r == Err::<Option<TaskStart>, CompletionError>(
                CompletionError::UnknownSlot(slot as u64),
            ),
            old(self).task_buffer(slot) is Some && transferred < 0 ==> r == Err::<
                Option<TaskStart>,
                CompletionError,
            >(CompletionError::Failed(transferred)),
            old(self).task_buffer(slot) is Some && transferred >= 0 && transferred
                != old(self).spec_block_size() ==> r == Err::<Option<TaskStart>, CompletionError>(
                CompletionError::ShortTransfer(transferred),
            ),
            r is Err ==> *final(self) == *old(self),
            old(self).task_buffer(slot) is Some && transferred == old(self).spec_block_size()
                ==> r is Ok,
            r is Ok ==> final(self).remaining() + 1 == old(self).remaining(),
            r is Ok ==> {
                let b = old(self).task_buffer(slot)->0;
                let more = old(self).cursor() < old(self).pages().len();
                let next = if old(self).reuses_buffers() {
                    b
                } else {
                    old(self).allocated() as usize
                };
                &&& more ==> r == Ok::<Option<TaskStart>, CompletionError>(
                    Some(
                        TaskStart {
                            slot,
                            offset: offsets_of(
                                old(self).pages(),
                                old(self).spec_block_size() as u64,
                            )[old(self).cursor() as int],
                            buffer: next,
                            fresh: !old(self).reuses_buffers(),
                        },
                    ),
                )
                &&& more ==> final(self).cursor() == old(self).cursor() + 1
                &&& more ==> final(self).spec_in_flight() == old(self).spec_in_flight()
                &&& more ==> final(self).task_buffer(slot) == Some(next)
                &&& more ==> final(self).pool() == old(self).pool()
                &&& !more ==> r == Ok::<Option<TaskStart>, CompletionError>(None)
                &&& !more ==> final(self).cursor() == old(self).cursor()
                &&& !more ==> final(self).spec_in_flight() + 1 == old(self).spec_in_flight()
                &&& !more ==> final(self).task_buffer(slot) is None
                &&& !more ==> final(self).pool() == if old(self).reuses_buffers() {
                    old(self).pool().push(b)
                } else {
                    old(self).pool()
                }
                &&& forall|s: usize|
                    s != slot ==> final(self).task_buffer(s) == old(self).task_buffer(s)
            },
    {
        if slot >= self.tasks.len() {
            return Err(CompletionError::UnknownSlot(slot as u64));
        }
        let b = match self.tasks[slot] {
            Some(b) => b,
            None => {
                return Err(CompletionError::UnknownSlot(slot as u64));
            },
        };
        if transferred < 0 {
            return Err(CompletionError::Failed(transferred));
        }
        if transferred != self.block_size as i64 {
            return Err(CompletionError::ShortTransfer(transferred));
        }
        let ghost old_tasks = self.tasks@;
        let ghost old_pool = self.pool@;
        let ghost old_self = *self;
        self.tasks.set(slot, None);
        if self.reuse {
            self.pool.push(b);
            proof {
                assert forall|i: int| 0 <= i < self.pool@.len() implies #[trigger] self.pool@[i]
                    < self.allocated by {
                    if i < old_pool.len() {
                        assert(old_pool[i] == self.pool@[i]);
                    }
                }
                assert(!old_pool.contains(b)) by {
                    assert(old_tasks[slot as int] is Some);
                    assert(self.task_buffer(slot) is None);
                }
            }
        }
        if self.cursor < self.pages.len() {
            let (buf, fresh) = self.take_buffer();
            let p = self.pages[self.cursor];
            let bs = self.block_size as u64;
            proof {
                lemma_block_fits(p, self.file_size, bs);
            }
            self.tasks.set(slot, Some(buf));
            self.cursor = self.cursor + 1;
            proof {
                assert(self.tasks@ =~= old_tasks.update(slot as int, Some(buf)));
                assert(occupied(self.tasks@) =~= occupied(old_tasks));
                if self.reuse {
                    assert(self.pool@ =~= old_pool);
                }
                assert(!old_pool.contains(buf)) by {
                    if !fresh {
                        assert(old_self.task_buffer(slot) is Some);
                    } else {
                        if old_pool.contains(buf) {
                            let i = choose|i: int| 0 <= i < old_pool.len() && old_pool[i] == buf;
                            assert(old_pool[i] < old_self.allocated);
                        }
                    }
                }
                assert forall|s: usize, t: usize|
                    s != t && #[trigger] self.task_buffer(s) is Some
                        && #[trigger] self.task_buffer(t) is Some implies self.task_buffer(s)
                    != self.task_buffer(t) by {
                    assert(old_self.task_buffer(slot) is Some);
                    if s == slot {
                        assert(old_tasks[t as int] is Some);
                    } else if t == slot {
                        assert(old_tasks[s as int] is Some);
                    } else {
                        assert(old_self.task_buffer(s) is Some);
                        assert(old_self.task_buffer(t) is Some);
                    }
                }
                assert forall|s: usize| #[trigger] self.task_buffer(s) is Some implies !self.pool().contains(
                    self.task_buffer(s)->0,
                ) by {
                    if s != slot {
                        assert(old_self.task_buffer(s) is Some);
                    }
                }
            }
            Ok(Some(TaskStart { slot, offset: p * bs, buffer: buf, fresh }))
        } else {
            proof {
                lemma_count_true_update(occupied(old_tasks), slot as int, false);
            }
            self.in_flight = self.in_flight - 1;
            proof {
                assert(occupied(self.tasks@) =~= occupied(old_tasks).update(slot as int, false));
                assert forall|s: usize, t: usize|
                    s != t && #[trigger] self.task_buffer(s) is Some
                        && #[trigger] self.task_buffer(t) is Some implies self.task_buffer(s)
                    != self.task_buffer(t) by {
                    assert(old_self.task_buffer(s) is Some);
                    assert(old_self.task_buffer(t) is Some);
                }
                assert forall|s: usize| #[trigger] self.task_buffer(s) is Some implies !self.pool().contains(
                    self.task_buffer(s)->0,
                ) by {
                    assert(old_self.task_buffer(s) is Some);
                    assert(old_self.task_buffer(slot) is Some);
                    assert(old_self.task_buffer(s) != old_self.task_buffer(slot));
                    if self.reuse {
                        assert(self.pool@ == old_pool.push(b));
                        if self.pool@.contains(self.task_buffer(s)->0) {
                            let i = choose|i: int| 0 <= i < self.pool@.len() && self.pool@[i] == self.task_buffer(s)->0;
                            if i < old_pool.len() {
                                assert(old_pool[i] == self.pool@[i]);
                            }
                        }
                    }
                }
                if self.reuse {
                    assert(self.pool@.no_duplicates()) by {
                        assert forall|i: int, j: int| 0 <= i < j < self.pool@.len() implies self.pool@[i] != self.pool@[j] by {
                            if j == old_pool.len() {
                                assert(old_pool.contains(old_pool[i]));
                            } else {
                                assert(old_pool[i] == self.pool@[i] && old_pool[j] == self.pool@[j]);
                            }
                        }
                    }
                }
            }
            Ok(None)
        }
    }

    /// How many tasks are running.
    pub fn in_flight(&self) -> (r: usize)
        requires
            self.wf(),
        ensures
            r == self.spec_in_flight(),
    {
        self.in_flight
    }

    /// The pass is over: every entry of the access order has been launched and
    /// every task has completed.
    pub fn is_finished(&self) -> (r: bool)
        requires
            self.wf(),
        ensures
            r == (self.spec_in_flight() == 0),
            r ==> self.cursor() == self.pages().len(),
            r ==> self.launched() == offsets_of(self.pages(), self.spec_block_size() as u64),
    {
        let r = self.in_flight == 0;
        if r {
            assert(self.pages@.take(self.cursor as int) =~= self.pages@);
        }
        r
    }

    /// At every point of a pass the running tasks number at most the window,
    /// an empty window means the access order is used up, and no buffer is
    /// shared between two running tasks or between a task and the pool.
    pub proof fn lemma_window_and_buffers(&self)
        requires
            self.wf(),
        ensures
            self.spec_in_flight() <= self.window(),
            self.spec_in_flight() == 0 ==> self.cursor() == self.pages().len(),
            self.cursor() <= self.pages().len(),
            self.buffers_exclusive(),
    {
        lemma_count_true_bound(occupied(self.tasks@));
    }
}


/// A write pass and a read pass that follow the same access order and block
/// size, each run until its window is empty, touch the same offsets: those of
/// the access order, in its order. Along the way every completion that moves
/// a whole block is accepted (see `AsyncPass::complete`).
pub proof fn lemma_round_trip(write: &AsyncPass, read: &AsyncPass)
    requires
        write.wf(),
        read.wf(),
        write.pages() == read.pages(),
        write.spec_block_size() == read.spec_block_size(),
        write.spec_in_flight() == 0,
        read.spec_in_flight() == 0,
    ensures
        write.launched() == read.launched(),
        write.launched() == offsets_of(write.pages(), write.spec_block_size() as u64),
{
    write.lemma_window_and_buffers();
    read.lemma_window_and_buffers();
    assert(write.pages().take(write.cursor() as int) =~= write.pages());
    assert(read.pages().take(read.cursor() as int) =~= read.pages());
}

} // verus!
