use vstd::prelude::*;

verus! {

/// `pat` stands contiguously in `hay` starting at position `p`.
pub open spec fn occurs_at(hay: Seq<u8>, pat: Seq<u8>, p: int) -> bool {
    0 <= p && p + pat.len() <= hay.len() && hay.subrange(p, p + pat.len()) == pat
}

/// `pat` stands contiguously somewhere in `hay`.
pub open spec fn occurs_in(hay: Seq<u8>, pat: Seq<u8>) -> bool {
    exists|p: int| #[trigger] occurs_at(hay, pat, p)
}

/// Whether `pat` stands in `hay` at position `p`.
pub fn matches_at(hay: &[u8], pat: &[u8], p: usize) -> (r: bool)
    ensures
        r == occurs_at(hay@, pat@, p as int),
{
    if p > hay.len() || pat.len() > hay.len() - p {
        return false;
    }
    let mut j: usize = 0;
    while j < pat.len()
        invariant
            j <= pat@.len(),
            p + pat@.len() <= hay.len(),
            forall|k: int| 0 <= k < j ==> hay@[p + k] == pat@[k],
        decreases pat@.len() - j,
    {
        if hay[p + j] != pat[j] {
            proof {
                assert(hay@.subrange(p as int, p + pat@.len())[j as int] != pat@[j as int]);
            }
            return false;
        }
        j = j + 1;
    }
    assert(hay@.subrange(p as int, p + pat@.len()) =~= pat@);
    true
}

/// Whether `pat` stands contiguously anywhere in `hay`.
pub fn contains_slice(hay: &[u8], pat: &[u8]) -> (r: bool)
    ensures
        r == occurs_in(hay@, pat@),
{
    if pat.len() > hay.len() {
        assert forall|p: int| !occurs_at(hay@, pat@, p) by {}
        return false;
    }
    if pat.len() == 0 {
        assert(hay@.subrange(0, 0) =~= pat@);
        assert(occurs_at(hay@, pat@, 0));
        return true;
    }
    let end: usize = hay.len() - pat.len() + 1;
    let mut p: usize = 0;
    while p < end
        invariant
            end == hay@.len() - pat@.len() + 1,
            p <= end,
            forall|q: int| 0 <= q < p ==> !#[trigger] occurs_at(hay@, pat@, q),
        decreases end - p,
    {
        if matches_at(hay, pat, p) {
            return true;
        }
        p = p + 1;
    }
    false
}

} // verus!
