//! Access patterns: the order in which the blocks of a file are visited.
use vstd::prelude::*;

verus! {

/// How the blocks of the test file are visited during one pass.
#[derive(Clone, Copy, Debug, PartialEq, Eq, Structural)]
pub enum IoSequence {
    Sequential,
    Random,
}

/// The block indices `0, 1, ..., n-1` in increasing order.
pub open spec fn page_range(n: u64) -> Seq<u64> {
    Seq::new(n as nat, |i: int| i as u64)
}

/// `s` visits every block index below `n` exactly once, in any order.
pub open spec fn is_page_order(s: Seq<u64>, n: u64) -> bool {
    s.to_multiset() == page_range(n).to_multiset()
}

/// Relies on rand's `SliceRandom::shuffle` (Fisher-Yates by swaps, driven by
/// the thread-local generator): the slice ends up as a permutation of itself.
#[verifier::external_body]
fn shuffle_in_place(v: &mut Vec<u64>)
    ensures
        final(v)@.len() == old(v)@.len(),
        final(v)@.to_multiset() == old(v)@.to_multiset(),
{
    rand::seq::SliceRandom::shuffle(v.as_mut_slice(), &mut rand::rng())
}

/// The order in which a pass visits the `n` blocks of the file: increasing for
/// `Sequential`, a freshly drawn permutation for `Random`.
pub fn access_seq(sequence: IoSequence, n: u64) -> (r: Vec<u64>)
    ensures
        r@.len() == n,
        is_page_order(r@, n),
        sequence == IoSequence::Sequential ==> r@ == page_range(n),
{
    let mut result: Vec<u64> = Vec::new();
    let mut i: u64 = 0;
    while i < n
        invariant
            i <= n,
            result@ == page_range(i),
        decreases n - i,
    {
        result.push(i);
        i = i + 1;
        assert(result@ =~= page_range(i));
    }
    assert(result@ =~= page_range(n));
    match sequence {
        IoSequence::Sequential => {},
        IoSequence::Random => {
            shuffle_in_place(&mut result);
        },
    }
    result
}

/// A page order touches each block below `n`, only those, and none twice.
pub proof fn lemma_page_order_facts(s: Seq<u64>, n: u64)
    requires
        is_page_order(s, n),
    ensures
        s.len() == n,
        s.no_duplicates(),
        forall|i: int| 0 <= i < s.len() ==> s[i] < n,
        forall|k: u64| k < n ==> s.contains(k),
{
    broadcast use vstd::seq_lib::group_to_multiset_ensures;

    let r = page_range(n);
    assert(s.len() == s.to_multiset().len());
    assert(r.len() == r.to_multiset().len());
    assert(r.no_duplicates());
    r.lemma_multiset_has_no_duplicates();
    s.lemma_multiset_has_no_duplicates_conv();
    assert forall|i: int| 0 <= i < s.len() implies s[i] < n by {
        assert(s.contains(s[i]));
        assert(s.to_multiset().count(s[i]) > 0);
        assert(r.to_multiset().count(s[i]) > 0);
        assert(r.contains(s[i]));
        let j = choose|j: int| 0 <= j < r.len() && r[j] == s[i];
        assert(r[j] == j);
    }
    assert forall|k: u64| k < n implies s.contains(k) by {
        assert(r[k as int] == k);
        assert(r.contains(k));
        assert(r.to_multiset().count(k) > 0);
        assert(s.to_multiset().count(k) > 0);
    }
}

/// The sequential pattern visits `0, 1, ..., n-1` in that order.
pub proof fn lemma_sequential_is_identity(s: Seq<u64>, n: u64)
    requires
        s == page_range(n),
    ensures
        s.len() == n,
        forall|i: int| 0 <= i < n ==> s[i] == i,
{
}

/// Any access order of at most one block is the identity order.
pub proof fn lemma_short_order_unique(s: Seq<u64>, n: u64)
    requires
        is_page_order(s, n),
        n <= 1,
    ensures
        s == page_range(n),
{
    lemma_page_order_facts(s, n);
    assert(s =~= page_range(n));
}

} // verus!
