use vstd::prelude::*;

verus! {

/// Number of positions of `s` that hold the byte `b`.
pub open spec fn count_of(s: Seq<u8>, b: u8) -> nat
    decreases s.len(),
{
    if s.len() == 0 {
        0
    } else {
        count_of(s.drop_last(), b) + if s.last() == b { 1nat } else { 0nat }
    }
}

proof fn lemma_count_bounded(s: Seq<u8>, b: u8)
    ensures
        count_of(s, b) <= s.len(),
    decreases s.len(),
{
    if s.len() > 0 {
        lemma_count_bounded(s.drop_last(), b);
    }
}

/// Frequency of each of the 256 byte values in `window`.
pub fn byte_histogram(window: &[u8]) -> (counts: Vec<u32>)
    requires
        window@.len() <= u32::MAX,
    ensures
        counts@.len() == 256,
        forall|b: u8| #[trigger] counts@[b as int] == count_of(window@, b),
{
    let mut counts: Vec<u32> = vec![0u32; 256];
    let mut i: usize = 0;
    while i < window.len()
        invariant
            i <= window@.len(),
            window@.len() <= u32::MAX,
            counts@.len() == 256,
            forall|b: u8| #[trigger] counts@[b as int] == count_of(window@.subrange(0, i as int), b),
        decreases window@.len() - i,
    {
        let x = window[i];
        proof {
            let pre = window@.subrange(0, i as int);
            let next = window@.subrange(0, i as int + 1);
            assert(next.drop_last() == pre);
            lemma_count_bounded(pre, x);
        }
        let c = counts[x as usize];
        counts.set(x as usize, c + 1);
        i = i + 1;
    }
    assert(window@.subrange(0, window@.len() as int) == window@);
    counts
}

/// In a window of one repeated byte, that byte's count is the window's length
/// and every other count is zero: all the probability mass stands on one
/// value, which is what makes the entropy of such a window zero.
pub proof fn lemma_constant_window_histogram(s: Seq<u8>, b: u8)
    requires
        forall|i: int| 0 <= i < s.len() ==> #[trigger] s[i] == b,
    ensures
        count_of(s, b) == s.len(),
        forall|c: u8| c != b ==> #[trigger] count_of(s, c) == 0,
    decreases s.len(),
{
    if s.len() > 0 {
        let f = s.drop_last();
        assert forall|i: int| 0 <= i < f.len() implies #[trigger] f[i] == b by {
            assert(f[i] == s[i]);
        }
        lemma_constant_window_histogram(f, b);
        assert(s.last() == b);
        assert forall|c: u8| c != b implies #[trigger] count_of(s, c) == 0 by {
            assert(count_of(f, c) == 0);
        }
    }
}

} // verus!
