//! The file offsets that one pass reads or writes.
use vstd::prelude::*;
use crate::pattern::{is_page_order, lemma_page_order_facts, page_range};

verus! {

/// The byte offset of each visited block, in visiting order.
pub open spec fn offsets_of(pages: Seq<u64>, block_size: u64) -> Seq<u64> {
    pages.map_values(|p: u64| (p * block_size) as u64)
}

/// Every index of `pages` names a block that lies inside the file.
pub open spec fn pages_within(pages: Seq<u64>, file_size: u64, block_size: u64) -> bool {
    forall|i: int| 0 <= i < pages.len() ==> #[trigger] pages[i] < file_size / block_size
}

/// A block that starts inside the file also ends inside it.
pub proof fn lemma_block_fits(page: u64, file_size: u64, block_size: u64)
    requires
        block_size > 0,
        page < file_size / block_size,
    ensures
        page * block_size + block_size <= file_size,
{
    let n = file_size / block_size;
    assert(n * block_size <= file_size) by (nonlinear_arith)
        requires
            n == file_size / block_size,
            block_size > 0,
    ;
    assert(page * block_size + block_size <= n * block_size) by (nonlinear_arith)
        requires
            page < n,
            block_size > 0,
    ;
}

/// The offsets, in visiting order, that a blocking pass over `pages` reads or
/// writes, one block each.
pub fn pass_offsets(pages: &Vec<u64>, file_size: u64, block_size: u32) -> (r: Vec<u64>)
    requires
        block_size > 0,
        pages_within(pages@, file_size, block_size as u64),
    ensures
        r@ == offsets_of(pages@, block_size as u64),
{
    let bs = block_size as u64;
    let mut r: Vec<u64> = Vec::new();
    let mut i: usize = 0;
    while i < pages.len()
        invariant
            bs == block_size,
            bs > 0,
            i <= pages@.len(),
            pages_within(pages@, file_size, bs),
            r@ == offsets_of(pages@.take(i as int), bs),
        decreases pages@.len() - i,
    {
        let p = pages[i];
        proof {
            lemma_block_fits(p, file_size, bs);
        }
        r.push(p * bs);
        i = i + 1;
        assert(r@ =~= offsets_of(pages@.take(i as int), bs));
    }
    assert(pages@.take(i as int) =~= pages@);
    r
}

/// The offsets of all blocks of an `n`-block file: `0, bs, 2*bs, ...`.
pub open spec fn block_offsets(n: u64, block_size: u64) -> Seq<u64> {
    offsets_of(page_range(n), block_size)
}

/// A pass that follows an access order touches the offsets
/// `0, bs, 2*bs, ..., (n-1)*bs`, each exactly once and nothing else.
pub proof fn lemma_pass_covers_every_block(pages: Seq<u64>, n: u64, block_size: u64)
    requires
        is_page_order(pages, n),
        block_size > 0,
        n * block_size <= u64::MAX,
    ensures
        offsets_of(pages, block_size).len() == n,
        offsets_of(pages, block_size).no_duplicates(),
        forall|k: int|
            0 <= k < n ==> offsets_of(pages, block_size).contains(
                #[trigger] block_offsets(n, block_size)[k],
            ),
        forall|i: int|
            0 <= i < n ==> {
                let o = #[trigger] offsets_of(pages, block_size)[i];
                o % block_size == 0 && o < n * block_size
            },
{
    lemma_page_order_facts(pages, n);
    let offs = offsets_of(pages, block_size);
    assert forall|i: int| 0 <= i < n implies offs[i] == pages[i] * block_size && offs[i] % block_size
        == 0 && offs[i] < n * block_size by {
        let p = pages[i];
        assert(p < n);
        assert(p * block_size < n * block_size) by (nonlinear_arith)
            requires
                p < n,
                block_size > 0,
        ;
        assert((p * block_size) % (block_size as int) == 0) by (nonlinear_arith)
            requires
                block_size > 0,
        ;
    }
    assert forall|i: int, j: int| 0 <= i < n && 0 <= j < n && i != j implies offs[i]
        != offs[j] by {
        let (a, b) = (pages[i], pages[j]);
        assert(a != b);
        assert(a * block_size != b * block_size) by (nonlinear_arith)
            requires
                a != b,
                block_size > 0,
        ;
    }
    assert forall|k: int| 0 <= k < n implies offs.contains(
        #[trigger] block_offsets(n, block_size)[k],
    ) by {
        assert(pages.contains(k as u64));
        let i = choose|i: int| 0 <= i < pages.len() && pages[i] == k as u64;
        assert(offs[i] == block_offsets(n, block_size)[k]);
    }
}

} // verus!
