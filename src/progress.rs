use vstd::prelude::*;

verus! {

/// How many bytes (or items) one worker has processed so far.
#[derive(Clone, Copy, Debug)]
pub struct Message {
    pub progress: usize,
    pub id: usize,
}

/// `s` without the entries of worker `id`, in order.
pub open spec fn drop_worker(s: Seq<(usize, usize)>, id: usize) -> Seq<(usize, usize)>
    decreases s.len(),
{
    if s.len() == 0 {
        Seq::empty()
    } else if s.last().0 == id {
        drop_worker(s.drop_last(), id)
    } else {
        drop_worker(s.drop_last(), id).push(s.last())
    }
}

/// `s` after a report of `progress` from worker `id`: the worker's earlier
/// entry goes, and the new one comes last.
pub open spec fn record_entry(s: Seq<(usize, usize)>, id: usize, progress: usize) -> Seq<
    (usize, usize),
> {
    drop_worker(s, id).push((id, progress))
}

/// Sum of the progress of all entries.
pub open spec fn progress_sum(s: Seq<(usize, usize)>) -> nat
    decreases s.len(),
{
    if s.len() == 0 {
        0
    } else {
        progress_sum(s.drop_last()) + s.last().1 as nat
    }
}

/// No worker has two entries.
pub open spec fn ids_unique(s: Seq<(usize, usize)>) -> bool {
    forall|i: int, j: int| 0 <= i < j < s.len() ==> #[trigger] s[i].0 != #[trigger] s[j].0
}

/// The latest progress of each worker that has reported.
pub struct ProgressAggregator {
    latest: Vec<Message>,
}

/// The `(worker id, progress)` pairs of a sequence of messages.
pub open spec fn pairs(v: Seq<Message>) -> Seq<(usize, usize)> {
    v.map_values(|m: Message| (m.id, m.progress))
}

impl View for ProgressAggregator {
    type V = Seq<(usize, usize)>;

    closed spec fn view(&self) -> Seq<(usize, usize)> {
        pairs(self.latest@)
    }
}

proof fn lemma_drop_worker_keeps(s: Seq<(usize, usize)>, id: usize)
    ensures
        forall|i: int|
            #![trigger drop_worker(s, id)[i]]
            0 <= i < drop_worker(s, id).len() ==> drop_worker(s, id)[i].0 != id && s.contains(
                drop_worker(s, id)[i],
            ),
        forall|i: int| 0 <= i < s.len() && s[i].0 != id ==> drop_worker(s, id).contains(#[trigger] s[i]),
        ids_unique(s) ==> ids_unique(drop_worker(s, id)),
    decreases s.len(),
{
    if s.len() > 0 {
        let f = s.drop_last();
        lemma_drop_worker_keeps(f, id);
        let d = drop_worker(s, id);
        let df = drop_worker(f, id);
        assert forall|i: int| #![trigger d[i]] 0 <= i < d.len() implies d[i].0 != id && s.contains(d[i]) by {
            if i < df.len() {
                assert(d[i] == df[i]);
                assert(df[i].0 != id && f.contains(df[i]));
                let m = choose|m: int| 0 <= m < f.len() && f[m] == df[i];
                assert(s[m] == f[m]);
            } else {
                assert(s[s.len() - 1] == s.last());
            }
        }
        assert forall|i: int| 0 <= i < s.len() && s[i].0 != id implies d.contains(#[trigger] s[i]) by {
            if i < f.len() {
                assert(s[i] == f[i]);
                assert(df.contains(f[i]));
                let m = choose|m: int| 0 <= m < df.len() && df[m] == f[i];
                assert(d[m] == df[m]);
            } else {
                assert(d[d.len() - 1] == s.last());
            }
        }
        if ids_unique(s) {
            assert(ids_unique(f)) by {
                assert forall|i: int, j: int| 0 <= i < j < f.len() implies #[trigger] f[i].0
                    != #[trigger] f[j].0 by {
                    assert(s[i] == f[i] && s[j] == f[j]);
                }
            }
            assert forall|i: int, j: int| 0 <= i < j < d.len() implies #[trigger] d[i].0
                != #[trigger] d[j].0 by {
                if j == df.len() {
                    assert(d[j] == s.last());
                    assert(d[i] == df[i]);
                    assert(df[i].0 != id && f.contains(df[i]));
                    let m = choose|m: int| 0 <= m < f.len() && f[m] == df[i];
                    assert(s[m] == f[m]);
                    assert(s[s.len() - 1] == s.last());
                } else {
                    assert(d[i] == df[i] && d[j] == df[j]);
                }
            }
        }
    }
}

impl ProgressAggregator {
    /// No worker has two entries.
    pub open spec fn wf(&self) -> bool {
        ids_unique(self@)
    }

    /// An aggregator that has heard from no worker.
    pub fn new() -> (r: ProgressAggregator)
        ensures
            r.wf(),
            r@ == Seq::<(usize, usize)>::empty(),
    {
        let r = ProgressAggregator { latest: Vec::new() };
        assert(r@ =~= Seq::<(usize, usize)>::empty());
        r
    }

    /// Takes a report: the worker's previous entry, if any, is replaced.
    pub fn record(&mut self, m: Message)
        requires
            old(self).wf(),
        ensures
            final(self).wf(),
            final(self)@ == record_entry(old(self)@, m.id, m.progress),
    {
        let ghost s = self@;
        let mut kept: Vec<Message> = Vec::new();
        let n = self.latest.len();
        let mut i: usize = 0;
        assert(pairs(kept@) =~= drop_worker(s.take(0), m.id));
        while i < n
            invariant
                n == self.latest@.len(),
                s == self@,
                i <= n,
                pairs(kept@) == drop_worker(s.take(i as int), m.id),
            decreases n - i,
        {
            let e = self.latest[i];
            assert(s[i as int] == (e.id, e.progress));
            assert(s.take(i as int + 1).drop_last() =~= s.take(i as int));
            if e.id != m.id {
                let ghost before = kept@;
                kept.push(e);
                assert(pairs(kept@) =~= pairs(before).push((e.id, e.progress)));
            }
            i = i + 1;
        }
        assert(s.take(n as int) =~= s);
        let ghost before = kept@;
        kept.push(m);
        assert(pairs(kept@) =~= pairs(before).push((m.id, m.progress)));
        self.latest = kept;
        proof {
            lemma_drop_worker_keeps(s, m.id);
            let d = drop_worker(s, m.id);
            let r = d.push((m.id, m.progress));
            assert forall|i: int, j: int| 0 <= i < j < r.len() implies #[trigger] r[i].0
                != #[trigger] r[j].0 by {
                if j == d.len() {
                    assert(r[i] == d[i]);
                } else {
                    assert(r[i] == d[i] && r[j] == d[j]);
                }
            }
        }
    }

    /// Total progress of all workers, saturating at the largest `usize`.
    pub fn total(&self) -> (r: usize)
        ensures
            r == if progress_sum(self@) > usize::MAX {
                usize::MAX as nat
            } else {
                progress_sum(self@)
            },
    {
        let ghost s = self@;
        let n = self.latest.len();
        let mut acc: usize = 0;
        let mut i: usize = 0;
        while i < n
            invariant
                n == self.latest@.len(),
                s == self@,
                i <= n,
                acc == if progress_sum(s.take(i as int)) > usize::MAX {
                    usize::MAX as nat
                } else {
                    progress_sum(s.take(i as int))
                },
            decreases n - i,
        {
            let p = self.latest[i].progress;
            assert(s[i as int].1 == p);
            assert(s.take(i as int + 1).drop_last() =~= s.take(i as int));
            if acc > usize::MAX - p {
                acc = usize::MAX;
            } else {
                acc = acc + p;
            }
            i = i + 1;
        }
        assert(s.take(n as int) =~= s);
        acc
    }
}

/// A report replaces the worker's earlier one instead of adding to it: after
/// two reports from one worker the total is what it would be after the
/// second alone.
pub proof fn lemma_report_replaces(s: Seq<(usize, usize)>, id: usize, first: usize, second: usize)
    ensures
        progress_sum(record_entry(record_entry(s, id, first), id, second)) == progress_sum(
            record_entry(s, id, second),
        ),
{
    let once = drop_worker(s, id);
    assert(once.push((id, first)).drop_last() == once);
    assert(drop_worker(once.push((id, first)), id) == drop_worker(once, id));
    lemma_drop_worker_idempotent(s, id);
}

proof fn lemma_drop_worker_idempotent(s: Seq<(usize, usize)>, id: usize)
    ensures
        drop_worker(drop_worker(s, id), id) == drop_worker(s, id),
    decreases s.len(),
{
    if s.len() > 0 {
        let f = s.drop_last();
        lemma_drop_worker_idempotent(f, id);
        if s.last().0 != id {
            let d = drop_worker(f, id);
            assert(d.push(s.last()).drop_last() == d);
        }
    }
}

} // verus!
