use iobench::buffer::{buf_data, zeroed_buffer};
use iobench::pattern::{access_seq, IoSequence};
use iobench::plan::pass_offsets;

#[test]
fn sequential_order_is_identity() {
    assert_eq!(access_seq(IoSequence::Sequential, 5), vec![0, 1, 2, 3, 4]);
    assert_eq!(access_seq(IoSequence::Sequential, 0), Vec::<u64>::new());
}

#[test]
fn random_order_is_permutation() {
    let mut r = access_seq(IoSequence::Random, 1000);
    assert_eq!(r.len(), 1000);
    r.sort();
    assert_eq!(r, (0..1000).collect::<Vec<u64>>());
}

#[test]
fn random_order_is_shuffled() {
    let r = access_seq(IoSequence::Random, 1000);
    assert_ne!(r, (0..1000).collect::<Vec<u64>>());
}

#[test]
fn short_random_orders_are_unique() {
    assert_eq!(access_seq(IoSequence::Random, 0), Vec::<u64>::new());
    assert_eq!(access_seq(IoSequence::Random, 1), vec![0]);
}

#[test]
fn offsets_cover_every_block_once() {
    let pages = access_seq(IoSequence::Random, 64);
    let mut offs = pass_offsets(&pages, 64 * 512, 512);
    assert_eq!(offs.len(), 64);
    for (i, p) in pages.iter().enumerate() {
        assert_eq!(offs[i], p * 512);
    }
    offs.sort();
    assert_eq!(offs, (0..64).map(|k| k * 512).collect::<Vec<u64>>());
}

#[test]
fn payload_has_block_size_and_random_bytes() {
    let b = buf_data(4096);
    assert_eq!(b.len(), 4096);
    assert!(b.iter().any(|&x| x != 0));
    assert_eq!(buf_data(0).len(), 0);
}

#[test]
fn landing_buffer_is_zeroed() {
    let b = zeroed_buffer(100);
    assert_eq!(b.len(), 100);
    assert!(b.iter().all(|&x| x == 0));
}
