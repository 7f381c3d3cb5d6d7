use iobench::pattern::IoSequence;
use iobench::plan::pass_offsets;
use iobench::strategy::{
    BenchSettings, Buffered, BufferedUring, ConfigError, Direct, DirectAsync, IoMethodSettings,
};

#[test]
fn block_size_of_every_strategy() {
    assert_eq!(IoMethodSettings::Buffered(Buffered { block_size: 4096 }).block_size(), 4096);
    assert_eq!(IoMethodSettings::Direct(Direct { block_size: 512 }).block_size(), 512);
    let ring = IoMethodSettings::BufferedUring(BufferedUring { block_size: 8192, concurrency: 4 });
    assert_eq!(ring.block_size(), 8192);
    assert_eq!(ring.concurrency(), Some(4));
    let tasks = IoMethodSettings::DirectAsync(DirectAsync { block_size: 65536, concurrency: 8 });
    assert_eq!(tasks.block_size(), 65536);
    assert_eq!(tasks.concurrency(), Some(8));
    assert_eq!(IoMethodSettings::Direct(Direct { block_size: 512 }).concurrency(), None);
}

#[test]
fn configuration_faults_are_reported() {
    let b = IoMethodSettings::Buffered(Buffered { block_size: 0 });
    assert_eq!(b.pass_pages(4096), Err(ConfigError::ZeroBlockSize));
    let b = IoMethodSettings::Buffered(Buffered { block_size: 4096 });
    assert_eq!(b.pass_pages(4097), Err(ConfigError::UnevenFileSize));
    assert_eq!(b.pass_pages(8192), Ok(2));
    assert_eq!(b.pass_pages(0), Ok(0));
    let r = IoMethodSettings::BufferedUring(BufferedUring { block_size: 4096, concurrency: 0 });
    assert_eq!(r.pass_pages(8192), Err(ConfigError::ZeroConcurrency));
    assert_eq!(r.access_order(8192, IoSequence::Random), Err(ConfigError::ZeroConcurrency));
}

#[test]
fn buffered_sequential_four_mebibytes() {
    let m = IoMethodSettings::Buffered(Buffered { block_size: 4096 });
    let file_size: u64 = 4 * 1024 * 1024;
    let pages = m.access_order(file_size, IoSequence::Sequential).unwrap();
    let offs = pass_offsets(&pages, file_size, 4096);
    assert_eq!(offs.len(), 1024);
    let expected: Vec<u64> = (0..4194304u64).step_by(4096).collect();
    assert_eq!(offs, expected);
}

#[test]
fn cases_pair_each_method_with_both_patterns() {
    let a = IoMethodSettings::Buffered(Buffered { block_size: 4096 });
    let b = IoMethodSettings::DirectAsync(DirectAsync { block_size: 4096, concurrency: 2 });
    let s = BenchSettings { file_size: 8192, methods: vec![a, b] };
    let c = s.cases();
    assert_eq!(
        c,
        vec![
            (a, IoSequence::Sequential),
            (a, IoSequence::Random),
            (b, IoSequence::Sequential),
            (b, IoSequence::Random),
        ]
    );
    let empty = BenchSettings { file_size: 0, methods: vec![] };
    assert!(empty.cases().is_empty());
}

#[test]
fn first_fault_names_the_first_bad_method() {
    let good = IoMethodSettings::Direct(Direct { block_size: 4096 });
    let uneven = IoMethodSettings::Buffered(Buffered { block_size: 3000 });
    let idle = IoMethodSettings::DirectAsync(DirectAsync { block_size: 4096, concurrency: 0 });
    let s = BenchSettings { file_size: 8192, methods: vec![good, uneven, idle] };
    assert_eq!(s.first_fault(), Some((1, ConfigError::UnevenFileSize)));
    let s = BenchSettings { file_size: 8192, methods: vec![good, idle] };
    assert_eq!(s.first_fault(), Some((1, ConfigError::ZeroConcurrency)));
    let s = BenchSettings { file_size: 8192, methods: vec![good, good] };
    assert_eq!(s.first_fault(), None);
}
