use vstd::prelude::*;

verus! {

/// A byte window judged plausible key material, with its heuristic score
/// (entropy in millionths of a bit) and its offset in the scanned region.
#[derive(Clone, Debug)]
pub struct Candidate {
    pub offset: usize,
    pub bytes: Vec<u8>,
    pub score: u32,
}

/// The value of a candidate: its offset, its bytes and its score.
pub struct CandidateView {
    pub offset: usize,
    pub bytes: Seq<u8>,
    pub score: u32,
}

impl View for Candidate {
    type V = CandidateView;

    open spec fn view(&self) -> CandidateView {
        CandidateView { offset: self.offset, bytes: self.bytes@, score: self.score }
    }
}

/// The values of a sequence of candidates.
pub open spec fn views(s: Seq<Candidate>) -> Seq<CandidateView> {
    s.map_values(|c: Candidate| c@)
}

/// Scores never increase along `s`.
pub open spec fn sorted_desc(s: Seq<CandidateView>) -> bool {
    forall|i: int, j: int| 0 <= i < j < s.len() ==> #[trigger] s[i].score >= #[trigger] s[j].score
}

/// Index of the first entry of `s` scored strictly below `score`, or the
/// length of `s` if there is none.
pub open spec fn first_below(s: Seq<CandidateView>, score: u32) -> nat
    decreases s.len(),
{
    if s.len() == 0 {
        0
    } else if s[0].score < score {
        0
    } else {
        1 + first_below(s.drop_first(), score)
    }
}

/// `s` with `c` inserted after every entry scored at least as high, then cut
/// to at most `cap` entries.
pub open spec fn ranked_insert(s: Seq<CandidateView>, c: CandidateView, cap: nat) -> Seq<CandidateView> {
    let t = s.insert(first_below(s, c.score) as int, c);
    if t.len() > cap {
        t.take(cap as int)
    } else {
        t
    }
}

/// The entries that inserting each of `cs`, in order, into an empty set of
/// capacity `cap` leaves.
pub open spec fn ranked_insert_all(cs: Seq<CandidateView>, cap: nat) -> Seq<CandidateView>
    decreases cs.len(),
{
    if cs.len() == 0 {
        Seq::empty()
    } else {
        ranked_insert(ranked_insert_all(cs.drop_last(), cap), cs.last(), cap)
    }
}

proof fn lemma_first_below(s: Seq<CandidateView>, score: u32, k: int)
    requires
        0 <= k <= s.len(),
        forall|j: int| 0 <= j < k ==> #[trigger] s[j].score >= score,
        k == s.len() || s[k].score < score,
    ensures
        first_below(s, score) == k,
    decreases s.len(),
{
    if s.len() > 0 && k > 0 {
        let t = s.drop_first();
        assert forall|j: int| 0 <= j < k - 1 implies #[trigger] t[j].score >= score by {
            assert(t[j] == s[j + 1]);
        }
        lemma_first_below(t, score, k - 1);
    }
}

proof fn lemma_first_below_split(s: Seq<CandidateView>, score: u32)
    requires
        sorted_desc(s),
    ensures
        first_below(s, score) <= s.len(),
        forall|j: int| 0 <= j < first_below(s, score) ==> #[trigger] s[j].score >= score,
        forall|j: int| first_below(s, score) <= j < s.len() ==> #[trigger] s[j].score < score,
    decreases s.len(),
{
    if s.len() > 0 && s[0].score >= score {
        let t = s.drop_first();
        assert(sorted_desc(t)) by {
            assert forall|i: int, j: int| 0 <= i < j < t.len() implies #[trigger] t[i].score
                >= #[trigger] t[j].score by {
                assert(s[i + 1].score >= s[j + 1].score);
            }
        }
        lemma_first_below_split(t, score);
        assert forall|j: int| 1 <= j < s.len() implies s[j] == t[j - 1] by {}
    } else if s.len() > 0 {
        assert forall|j: int| 0 <= j < s.len() implies #[trigger] s[j].score < score by {
            if j > 0 {
                assert(s[0].score >= s[j].score);
            }
        }
    }
}

/// What one insertion keeps: the result is sorted and within capacity; it
/// grows by one until it is full; it holds only old entries and the new one;
/// an entry that is not kept scores no higher than the last kept one, which
/// is at least the old last entry once the set is full.
pub proof fn lemma_ranked_insert(s: Seq<CandidateView>, c: CandidateView, cap: nat)
    requires
        sorted_desc(s),
        s.len() <= cap,
        cap > 0,
    ensures
        ({
            let r = ranked_insert(s, c, cap);
            &&& sorted_desc(r)
            &&& r.len() == if s.len() < cap { s.len() + 1 } else { cap }
            &&& forall|j: int| 0 <= j < r.len() ==> #[trigger] r[j] == c || s.contains(r[j])
            &&& r.contains(c) || (r.len() == cap && c.score <= r[cap - 1].score)
            &&& forall|j: int|
                0 <= j < s.len() ==> r.contains(#[trigger] s[j]) || (r.len() == cap && s[j].score
                    <= r[cap - 1].score)
            &&& s.len() == cap ==> r[cap - 1].score >= s[cap - 1].score
        }),
{
    lemma_first_below_split(s, c.score);
    let k = first_below(s, c.score) as int;
    let t = s.insert(k, c);
    let r = ranked_insert(s, c, cap);
    assert(sorted_desc(t)) by {
        assert forall|i: int, j: int| 0 <= i < j < t.len() implies #[trigger] t[i].score
            >= #[trigger] t[j].score by {
            if j < k {
            } else if j == k {
            } else if i < k {
                assert(t[j] == s[j - 1]);
            } else if i == k {
                assert(t[j] == s[j - 1]);
            } else {
                assert(t[i] == s[i - 1] && t[j] == s[j - 1]);
            }
        }
    }
    assert forall|j: int| 0 <= j < t.len() implies #[trigger] t[j] == c || s.contains(t[j]) by {
        if j < k {
            assert(t[j] == s[j]);
        } else if j > k {
            assert(t[j] == s[j - 1]);
        }
    }
    assert forall|j: int| 0 <= j < s.len() implies t.contains(#[trigger] s[j]) && (j < k ==> t[j]
        == s[j]) && (j >= k ==> t[j + 1] == s[j]) by {
        if j < k {
            assert(t[j] == s[j]);
        } else {
            assert(t[j + 1] == s[j]);
        }
    }
    assert(t[k] == c);
    if t.len() > cap {
        assert(r == t.take(cap as int));
        assert forall|j: int| 0 <= j < r.len() implies #[trigger] r[j] == t[j] by {}
        assert(r[cap - 1].score >= t[cap as int].score);
        if k < cap {
            assert(r[k] == c);
        }
        assert forall|j: int| 0 <= j < s.len() implies r.contains(#[trigger] s[j]) || (r.len()
            == cap && s[j].score <= r[cap - 1].score) by {
            let pos = if j < k { j } else { j + 1 };
            assert(t[pos] == s[j]);
            if pos < cap {
                assert(r[pos] == s[j]);
            } else {
                assert(t[cap - 1].score >= t[pos].score);
            }
        }
        if s.len() == cap {
            if k <= cap - 1 {
                assert(r[cap - 1] == t[cap - 1]);
            }
        }
    } else {
        assert(r == t);
        assert(r[k] == c);
        assert forall|j: int| 0 <= j < s.len() implies r.contains(#[trigger] s[j]) by {
            let pos = if j < k { j } else { j + 1 };
            assert(t[pos] == s[j]);
        }
    }
}

/// Inserting candidates one by one, in any order, into an empty set of
/// capacity `cap` leaves a sequence sorted by descending score, as long as
/// the number inserted or the capacity, whichever is smaller; it holds only
/// inserted candidates, and every inserted candidate left out scores no
/// higher than the lowest one kept, so the top `cap` scores are retained.
pub proof fn lemma_insert_all_keeps_top(cs: Seq<CandidateView>, cap: nat)
    requires
        cap > 0,
    ensures
        ({
            let r = ranked_insert_all(cs, cap);
            &&& sorted_desc(r)
            &&& r.len() == if cs.len() < cap { cs.len() } else { cap }
            &&& forall|j: int| 0 <= j < r.len() ==> cs.contains(#[trigger] r[j])
            &&& forall|i: int|
                0 <= i < cs.len() ==> r.contains(#[trigger] cs[i]) || (r.len() == cap && cs[i].score
                    <= r[cap - 1].score)
        }),
    decreases cs.len(),
{
    if cs.len() > 0 {
        let front = cs.drop_last();
        let c = cs.last();
        lemma_insert_all_keeps_top(front, cap);
        let s = ranked_insert_all(front, cap);
        let r = ranked_insert_all(cs, cap);
        assert(r == ranked_insert(s, c, cap));
        lemma_ranked_insert(s, c, cap);
        assert forall|j: int| 0 <= j < r.len() implies cs.contains(#[trigger] r[j]) by {
            if r[j] == c {
                assert(cs[cs.len() - 1] == c);
            } else {
                let m = choose|m: int| 0 <= m < s.len() && s[m] == r[j];
                assert(front.contains(s[m]));
                let q = choose|q: int| 0 <= q < front.len() && front[q] == s[m];
                assert(cs[q] == front[q]);
            }
        }
        assert forall|i: int| 0 <= i < cs.len() implies r.contains(#[trigger] cs[i]) || (r.len()
            == cap && cs[i].score <= r[cap - 1].score) by {
            if i < cs.len() - 1 {
                assert(cs[i] == front[i]);
                if s.contains(front[i]) {
                    let m = choose|m: int| 0 <= m < s.len() && s[m] == front[i];
                    assert(r.contains(s[m]) || (r.len() == cap && s[m].score <= r[cap - 1].score));
                } else {
                    assert(s.len() == cap);
                }
            }
        }
    }
}

/// A bounded list of candidates kept sorted by descending score.
pub struct RankedSet {
    capacity: usize,
    items: Vec<Candidate>,
}

impl View for RankedSet {
    type V = Seq<CandidateView>;

    closed spec fn view(&self) -> Seq<CandidateView> {
        views(self.items@)
    }
}

impl RankedSet {
    /// The most entries the set keeps.
    pub closed spec fn cap(&self) -> nat {
        self.capacity as nat
    }

    /// Sorted by descending score and within capacity.
    pub open spec fn wf(&self) -> bool {
        sorted_desc(self@) && self@.len() <= self.cap()
    }

    /// An empty set that keeps at most `capacity` entries.
    pub fn new(capacity: usize) -> (r: RankedSet)
        ensures
            r.wf(),
            r@ == Seq::<CandidateView>::empty(),
            r.cap() == capacity,
    {
        let r = RankedSet { capacity, items: Vec::new() };
        assert(r@ =~= Seq::<CandidateView>::empty());
        r
    }

    pub fn capacity(&self) -> (r: usize)
        ensures
            r == self.cap(),
    {
        self.capacity
    }

    pub fn len(&self) -> (r: usize)
        ensures
            r == self@.len(),
    {
        self.items.len()
    }

    /// Inserts `c` after every entry scored at least as high, then drops the
    /// lowest entry if the set has grown past its capacity.
    pub fn insert(&mut self, c: Candidate)
        requires
            old(self).wf(),
        ensures
            final(self).wf(),
            final(self).cap() == old(self).cap(),
            final(self)@ == ranked_insert(old(self)@, c@, old(self).cap()),
    {
        let ghost s = self@;
        let ghost cv = c@;
        let n = self.items.len();
        let mut k: usize = 0;
        while k < n && self.items[k].score >= c.score
            invariant
                k <= n,
                n == s.len(),
                self@ == s,
                cv == c@,
                forall|j: int| 0 <= j < k ==> #[trigger] s[j].score >= cv.score,
            decreases n - k,
        {
            assert(s[k as int] == self.items@[k as int]@);
            k = k + 1;
        }
        proof {
            if k < n {
                assert(s[k as int] == self.items@[k as int]@);
            }
            lemma_first_below(s, cv.score, k as int);
            if self.capacity > 0 {
                lemma_ranked_insert(s, cv, self.capacity as nat);
            }
        }
        let ghost before = self.items@;
        self.items.insert(k, c);
        assert(self@ =~= s.insert(k as int, cv));
        if self.items.len() > self.capacity {
            let ghost longer = self.items@;
            self.items.truncate(self.capacity);
            assert(self@ =~= views(longer).take(self.capacity as int));
        }
        proof {
            if self.capacity == 0 {
                assert(self@ =~= Seq::<CandidateView>::empty());
            }
        }
    }

    /// The entries, highest score first.
    pub fn into_vec(self) -> (r: Vec<Candidate>)
        ensures
            views(r@) == self@,
    {
        self.items
    }
}

} // verus!
