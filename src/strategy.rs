//! The I/O strategies under test and the benchmark settings that name them.
use vstd::prelude::*;
use crate::pattern::{access_seq, is_page_order, lemma_page_order_facts, page_range, IoSequence};
use crate::plan::pages_within;

verus! {

/// Synchronous positioned I/O through the OS page cache.
#[derive(Clone, Copy, Debug, PartialEq, Eq, Structural)]
pub struct Buffered {
    pub block_size: u32,
}

/// Synchronous positioned I/O that bypasses the page cache.
#[derive(Clone, Copy, Debug, PartialEq, Eq, Structural)]
pub struct Direct {
    pub block_size: u32,
}

/// Submission/completion ring with a bounded window of in-flight operations.
#[derive(Clone, Copy, Debug, PartialEq, Eq, Structural)]
pub struct BufferedUring {
    pub block_size: u32,
    pub concurrency: u32,
}

/// Cache-bypassing asynchronous operations with a pool of reused buffers.
#[derive(Clone, Copy, Debug, PartialEq, Eq, Structural)]
pub struct DirectAsync {
    pub block_size: u32,
    pub concurrency: u32,
}

/// One configured strategy.
#[derive(Clone, Copy, Debug, PartialEq, Eq, Structural)]
pub enum IoMethodSettings {
    Buffered(Buffered),
    BufferedUring(BufferedUring),
    Direct(Direct),
    DirectAsync(DirectAsync),
}

/// The whole benchmark: one test file size and the strategies to run on it.
#[derive(Clone, Debug)]
pub struct BenchSettings {
    pub file_size: u64,
    pub methods: Vec<IoMethodSettings>,
}

/// Why a strategy cannot run a pass over a file of a given size.
#[derive(Clone, Copy, Debug, PartialEq, Eq, Structural)]
pub enum ConfigError {
    /// The block size is zero.
    ZeroBlockSize,
    /// The file size is not a whole number of blocks.
    UnevenFileSize,
    /// A concurrent strategy allows no operation in flight.
    ZeroConcurrency,
}

impl IoMethodSettings {
    pub open spec fn spec_block_size(&self) -> u32 {
        match *self {
            IoMethodSettings::Buffered(m) => m.block_size,
            IoMethodSettings::BufferedUring(m) => m.block_size,
            IoMethodSettings::Direct(m) => m.block_size,
            IoMethodSettings::DirectAsync(m) => m.block_size,
        }
    }

    /// The bound on in-flight operations of a concurrent strategy; `None` for
    /// the blocking ones.
    pub open spec fn spec_concurrency(&self) -> Option<u32> {
        match *self {
            IoMethodSettings::BufferedUring(m) => Some(m.concurrency),
            IoMethodSettings::DirectAsync(m) => Some(m.concurrency),
            _ => None,
        }
    }

    /// The size in bytes of every operation the strategy issues.
    pub fn block_size(&self) -> (r: u32)
        ensures
            r == self.spec_block_size(),
    {
        match self {
            IoMethodSettings::Buffered(m) => m.block_size,
            IoMethodSettings::BufferedUring(m) => m.block_size,
            IoMethodSettings::Direct(m) => m.block_size,
            IoMethodSettings::DirectAsync(m) => m.block_size,
        }
    }

    pub fn concurrency(&self) -> (r: Option<u32>)
        ensures
            r == self.spec_concurrency(),
    {
        match self {
            IoMethodSettings::BufferedUring(m) => Some(m.concurrency),
            IoMethodSettings::DirectAsync(m) => Some(m.concurrency),
            _ => None,
        }
    }

    /// What checking the strategy against a file size gives: the number of
    /// blocks of one pass, or the first configuration fault.
    pub open spec fn spec_pass_pages(&self, file_size: u64) -> Result<u64, ConfigError> {
        let bs = self.spec_block_size() as u64;
        if bs == 0 {
            Err(ConfigError::ZeroBlockSize)
        } else if file_size % bs != 0 {
            Err(ConfigError::UnevenFileSize)
        } else if self.spec_concurrency() == Some(0u32) {
            Err(ConfigError::ZeroConcurrency)
        } else {
            Ok(file_size / bs)
        }
    }

    /// Checks the strategy against a file size before any I/O and returns the
    /// number of blocks one pass visits.
    pub fn pass_pages(&self, file_size: u64) -> (r: Result<u64, ConfigError>)
        ensures
            r == self.spec_pass_pages(file_size),
    {
        let block_size = self.block_size();
        if block_size == 0 {
            return Err(ConfigError::ZeroBlockSize);
        }
        if file_size % (block_size as u64) != 0 {
            return Err(ConfigError::UnevenFileSize);
        }
        match self.concurrency() {
            Some(c) => {
                if c == 0 {
                    return Err(ConfigError::ZeroConcurrency);
                }
            },
            None => {},
        }
        Ok(file_size / (block_size as u64))
    }

    /// Checks the strategy against the file size and draws the order in which
    /// one pass visits the blocks.
    pub fn access_order(&self, file_size: u64, sequence: IoSequence) -> (r: Result<
        Vec<u64>,
        ConfigError,
    >)
        ensures
            r is Err <==> self.spec_pass_pages(file_size) is Err,
            r is Err ==> r->Err_0 == self.spec_pass_pages(file_size)->Err_0,
            r is Ok ==> {
                let n = file_size / (self.spec_block_size() as u64);
                &&& is_page_order(r->Ok_0@, n)
                &&& pages_within(r->Ok_0@, file_size, self.spec_block_size() as u64)
                &&& sequence == IoSequence::Sequential ==> r->Ok_0@ == page_range(n)
            },
    {
        match self.pass_pages(file_size) {
            Err(e) => Err(e),
            Ok(n) => {
                let pages = access_seq(sequence, n);
                proof {
                    lemma_page_order_facts(pages@, n);
                }
                Ok(pages)
            },
        }
    }
}

impl BenchSettings {
    /// Checks every strategy against the file size before any I/O, and
    /// returns the position and fault of the first that cannot run.
    pub fn first_fault(&self) -> (r: Option<(usize, ConfigError)>)
        ensures
            r is None <==> forall|i: int|
                0 <= i < self.methods@.len() ==> (#[trigger] self.methods@[i]).spec_pass_pages(
                    self.file_size,
                ) is Ok,
            r matches Some((i, e)) ==> {
                &&& i < self.methods@.len()
                &&& self.methods@[i as int].spec_pass_pages(self.file_size) == Err::<u64, ConfigError>(e)
                &&& forall|j: int|
                    0 <= j < i ==> (#[trigger] self.methods@[j]).spec_pass_pages(
                        self.file_size,
                    ) is Ok
            },
    {
        let mut i: usize = 0;
        while i < self.methods.len()
            invariant
                i <= self.methods@.len(),
                forall|j: int|
                    0 <= j < i ==> (#[trigger] self.methods@[j]).spec_pass_pages(
                        self.file_size,
                    ) is Ok,
            decreases self.methods@.len() - i,
        {
            match self.methods[i].pass_pages(self.file_size) {
                Err(e) => {
                    return Some((i, e));
                },
                Ok(_) => {},
            }
            i = i + 1;
        }
        None
    }

    /// The benchmark's cases: every configured strategy, in order, each with
    /// the sequential pattern and then the random one.
    pub fn cases(&self) -> (r: Vec<(IoMethodSettings, IoSequence)>)
        ensures
            r@.len() == 2 * self.methods@.len(),
            forall|i: int|
                0 <= i < self.methods@.len() ==> #[trigger] r@[2 * i] == (
                    self.methods@[i],
                    IoSequence::Sequential,
                ) && r@[2 * i + 1] == (self.methods@[i], IoSequence::Random),
    {
        let mut r: Vec<(IoMethodSettings, IoSequence)> = Vec::new();
        let mut i: usize = 0;
        while i < self.methods.len()
            invariant
                i <= self.methods@.len(),
                r@.len() == 2 * i,
                forall|j: int|
                    0 <= j < i ==> #[trigger] r@[2 * j] == (
                        self.methods@[j],
                        IoSequence::Sequential,
                    ) && r@[2 * j + 1] == (self.methods@[j], IoSequence::Random),
            decreases self.methods@.len() - i,
        {
            let m = self.methods[i];
            let ghost prev = r@;
            r.push((m, IoSequence::Sequential));
            r.push((m, IoSequence::Random));
            i = i + 1;
            proof {
                assert forall|j: int| 0 <= j < i implies #[trigger] r@[2 * j] == (
                    self.methods@[j],
                    IoSequence::Sequential,
                ) && r@[2 * j + 1] == (self.methods@[j], IoSequence::Random) by {
                    if j < i - 1 {
                        assert(r@[2 * j] == prev[2 * j]);
                        assert(r@[2 * j + 1] == prev[2 * j + 1]);
                    }
                }
            }
        }
        r
    }
}

} // verus!
