use vstd::prelude::*;

use crate::oracle::{is_potential_key, schedule_present};
use crate::ranked::{Candidate, CandidateView, RankedSet, ranked_insert_all, views};
use crate::scanner::{ScanConfig, window, window_count};

verus! {

/// Number of equal partitions the buffer is scanned in.
pub const PARTITION_COUNT: usize = 16;

/// Bytes scanned on each side of a seam between two partitions.
pub const SEAM_MARGIN: usize = 240;

/// How many candidates the merged first stage keeps.
pub const GLOBAL_CAPACITY: usize = 256;

/// Number of workers that check candidates against the buffer.
pub const VERIFY_WORKERS: usize = 8;

/// Why a buffer cannot be scanned.
#[derive(Clone, Copy, Debug, PartialEq, Eq)]
pub enum ScanError {
    /// An empty window or stride, or a window too short to hold a key that
    /// must be checked.
    InvalidConfig,
    /// A partition is shorter than a window with its lookahead, or than the
    /// margin scanned round a seam.
    BufferTooSmall,
}

/// Start of chunk `k` when `len` items are cut into `parts` equal chunks.
pub open spec fn part_start(len: nat, parts: nat, k: int) -> int {
    k * (len / parts) as int
}

/// End of chunk `k`; the last chunk takes the remainder.
pub open spec fn part_end(len: nat, parts: nat, k: int) -> int {
    if k == parts - 1 {
        len as int
    } else {
        (k + 1) * (len / parts) as int
    }
}

/// Offset of seam `k`, between chunks `k` and `k + 1`.
pub open spec fn seam_at(len: nat, parts: nat, k: int) -> int {
    (k + 1) * (len / parts) as int
}

/// Least length of a partition: a window with its lookahead, and the margin
/// that the seam scans read on either side.
pub open spec fn min_part_len(cfg: ScanConfig) -> nat {
    if cfg.chunk_size + cfg.lookahead() > SEAM_MARGIN {
        (cfg.chunk_size + cfg.lookahead()) as nat
    } else {
        SEAM_MARGIN as nat
    }
}

proof fn lemma_chunk_bounds(len: nat, parts: nat, k: int)
    requires
        parts > 0,
        0 <= k < parts,
    ensures
        0 <= part_start(len, parts, k) <= part_end(len, parts, k) <= len,
        k + 1 < parts ==> part_end(len, parts, k) == part_start(len, parts, k + 1),
        part_end(len, parts, k) - part_start(len, parts, k) >= len / parts,
{
    let q = len / parts;
    assert(q * parts <= len) by (nonlinear_arith)
        requires
            q == len / parts,
            parts > 0,
    ;
    assert(0 <= k * q) by (nonlinear_arith)
        requires
            k >= 0,
            q >= 0,
    ;
    assert((k + 1) * q == k * q + q) by (nonlinear_arith);
    assert((k + 1) * q <= parts * q) by (nonlinear_arith)
        requires
            k + 1 <= parts,
            q >= 0,
    ;
    assert(parts * q == q * parts) by (nonlinear_arith);
}

/// The bounds `(start, end)` of `parts` contiguous chunks of `len` items: all
/// but the last are `len / parts` long, and the last runs to the end.
pub fn partition_bounds(len: usize, parts: usize) -> (r: Vec<(usize, usize)>)
    requires
        parts > 0,
    ensures
        r@.len() == parts,
        forall|k: int|
            0 <= k < parts ==> #[trigger] r@[k] == (
            part_start(len as nat, parts as nat, k) as usize,
            part_end(len as nat, parts as nat, k) as usize,
        ),
        forall|k: int|
            0 <= k < parts ==> 0 <= part_start(len as nat, parts as nat, k) <= #[trigger] part_end(
                len as nat,
                parts as nat,
                k,
            ) <= len,
{
    let q = len / parts;
    let mut r: Vec<(usize, usize)> = Vec::new();
    let mut k: usize = 0;
    while k < parts
        invariant
            parts > 0,
            q == len / parts,
            k <= parts,
            r@.len() == k,
            forall|m: int|
                0 <= m < k ==> #[trigger] r@[m] == (
                part_start(len as nat, parts as nat, m) as usize,
                part_end(len as nat, parts as nat, m) as usize,
            ),
        decreases parts - k,
    {
        proof {
            lemma_chunk_bounds(len as nat, parts as nat, k as int);
        }
        assert((k + 1) * q == k * q + q) by (nonlinear_arith);
        let start = k * q;
        let end = if k == parts - 1 { len } else { start + q };
        r.push((start, end));
        assert(r@[k as int] == (
            part_start(len as nat, parts as nat, k as int) as usize,
            part_end(len as nat, parts as nat, k as int) as usize,
        ));
        k = k + 1;
    }
    assert forall|k: int|
        0 <= k < parts implies 0 <= part_start(len as nat, parts as nat, k) <= #[trigger] part_end(
        len as nat,
        parts as nat,
        k,
    ) <= len by {
        lemma_chunk_bounds(len as nat, parts as nat, k);
    }
    r
}

/// Where the first stage reads: the partitions, and a region of
/// `SEAM_MARGIN` bytes on each side of every seam between two partitions.
#[derive(Debug)]
pub struct ScanPlan {
    pub partitions: Vec<(usize, usize)>,
    pub seams: Vec<(usize, usize)>,
}

/// The scan plan of a buffer of `len` bytes is well formed: the partitions and
/// seam regions are those that `partition_bounds` and the seams give.
pub open spec fn is_plan(plan: ScanPlan, len: nat) -> bool {
    let parts = PARTITION_COUNT as nat;
    &&& plan.partitions@.len() == parts
    &&& forall|k: int|
        0 <= k < parts ==> #[trigger] plan.partitions@[k] == (
        part_start(len, parts, k) as usize,
        part_end(len, parts, k) as usize,
    )
    &&& plan.seams@.len() == parts - 1
    &&& forall|k: int|
        0 <= k < parts - 1 ==> #[trigger] plan.seams@[k] == (
        (seam_at(len, parts, k) - SEAM_MARGIN) as usize,
        (seam_at(len, parts, k) + SEAM_MARGIN) as usize,
    )
    &&& forall|k: int|
        0 <= k < parts - 1 ==> 0 <= #[trigger] seam_at(len, parts, k) - SEAM_MARGIN
            && seam_at(len, parts, k) + SEAM_MARGIN <= len
}

/// Cuts a buffer of `len` bytes into the partitions and seam regions of the
/// first stage; a configuration that is not valid, or a buffer whose
/// partitions would be shorter than `min_part_len`, is refused.
pub fn plan_scan(len: usize, cfg: &ScanConfig) -> (r: Result<ScanPlan, ScanError>)
    ensures
        !cfg.valid() ==> r == Err::<ScanPlan, ScanError>(ScanError::InvalidConfig),
        cfg.valid() && len / PARTITION_COUNT < min_part_len(*cfg) ==> r == Err::<
            ScanPlan,
            ScanError,
        >(ScanError::BufferTooSmall),
        cfg.valid() && len / PARTITION_COUNT >= min_part_len(*cfg) ==> r is Ok && is_plan(
            r->Ok_0,
            len as nat,
        ),
{
    if !cfg.is_valid() {
        return Err(ScanError::InvalidConfig);
    }
    let q = len / PARTITION_COUNT;
    let look: usize = if cfg.verify_schedule { 240 } else { 0 };
    if q < SEAM_MARGIN || q < cfg.chunk_size || q - cfg.chunk_size < look {
        return Err(ScanError::BufferTooSmall);
    }
    let partitions = partition_bounds(len, PARTITION_COUNT);
    let mut seams: Vec<(usize, usize)> = Vec::new();
    let mut k: usize = 0;
    while k < PARTITION_COUNT - 1
        invariant
            q == len / PARTITION_COUNT,
            q >= SEAM_MARGIN,
            k <= PARTITION_COUNT - 1,
            seams@.len() == k,
            forall|m: int|
                0 <= m < k ==> #[trigger] seams@[m] == (
                (seam_at(len as nat, PARTITION_COUNT as nat, m) - SEAM_MARGIN) as usize,
                (seam_at(len as nat, PARTITION_COUNT as nat, m) + SEAM_MARGIN) as usize,
            ),
        decreases PARTITION_COUNT - 1 - k,
    {
        assert((k + 1) * q <= 15 * q) by (nonlinear_arith)
            requires
                k + 1 <= 15,
                q >= 0,
        ;
        assert(16 * q <= len);
        assert((k + 1) * q >= q) by (nonlinear_arith)
            requires
                k + 1 >= 1,
                q >= 0,
        ;
        let s = (k + 1) * q;
        seams.push((s - SEAM_MARGIN, s + SEAM_MARGIN));
        k = k + 1;
    }
    let plan = ScanPlan { partitions, seams };
    assert forall|k: int| 0 <= k < PARTITION_COUNT - 1 implies 0 <= #[trigger] seam_at(
        len as nat,
        PARTITION_COUNT as nat,
        k,
    ) - SEAM_MARGIN && seam_at(len as nat, PARTITION_COUNT as nat, k) + SEAM_MARGIN <= len by {
        assert((k + 1) * q <= 15 * q) by (nonlinear_arith)
            requires
                k + 1 <= 15,
                q >= 0,
        ;
        assert((k + 1) * q >= q) by (nonlinear_arith)
            requires
                k + 1 >= 1,
                q >= 0,
        ;
    }
    Ok(plan)
}

/// A 32-byte window laid across a seam, half in each partition, is one of the
/// windows of that seam's scan, at least whenever the stride divides the
/// distance from the start of the seam region to the window and no lookahead
/// is read: the scan that neither partition can make is made there.
pub proof fn lemma_seam_scan_visits_straddling_window(buf: Seq<u8>, cfg: ScanConfig, k: int)
    requires
        cfg.valid(),
        !cfg.verify_schedule,
        cfg.chunk_size == 32,
        (SEAM_MARGIN - 16) % (cfg.stride as int) == 0,
        buf.len() / PARTITION_COUNT as nat >= min_part_len(cfg),
        0 <= k < PARTITION_COUNT - 1,
    ensures
        ({
            let s = seam_at(buf.len(), PARTITION_COUNT as nat, k);
            let region = buf.subrange(s - SEAM_MARGIN, s + SEAM_MARGIN);
            let j = (SEAM_MARGIN - 16) / (cfg.stride as int);
            &&& 0 <= s - SEAM_MARGIN
            &&& s + SEAM_MARGIN <= buf.len()
            &&& 0 <= j < window_count(region.len(), cfg)
            &&& window(region, cfg, j) == buf.subrange(s - 16, s + 16)
        }),
{
    let q = buf.len() / PARTITION_COUNT as nat;
    let s = seam_at(buf.len(), PARTITION_COUNT as nat, k);
    let st = cfg.stride as int;
    let j = 224int / st;
    assert(q * 16 <= buf.len()) by (nonlinear_arith)
        requires
            q == buf.len() / 16,
    ;
    assert((k + 1) * q <= 15 * q && (k + 1) * q >= q) by (nonlinear_arith)
        requires
            0 <= k < 15,
            q >= 0,
    ;
    let region = buf.subrange(s - 240, s + 240);
    vstd::arithmetic::div_mod::lemma_fundamental_div_mod(224, st);
    assert(j * st == 224) by (nonlinear_arith)
        requires
            224 == st * j + 224int % st,
            224int % st == 0,
    ;
    vstd::arithmetic::div_mod::lemma_div_is_ordered(224, 448, st);
    assert(window_count(region.len(), cfg) == 448int / st + 1);
    assert(j >= 0) by (nonlinear_arith)
        requires
            j == 224int / st,
            st > 0,
    ;
    assert(window(region, cfg, j) =~= buf.subrange(s - 16, s + 16));
}

/// The values of the candidates of each list, one list after the other.
pub open spec fn concat_views(ls: Seq<Vec<Candidate>>) -> Seq<CandidateView>
    decreases ls.len(),
{
    if ls.len() == 0 {
        Seq::empty()
    } else {
        concat_views(ls.drop_last()) + views(ls.last()@)
    }
}

/// Ranks the candidates of all `lists` together, taken list by list, keeping
/// at most `capacity` of them.
pub fn merge_candidates(lists: Vec<Vec<Candidate>>, capacity: usize) -> (r: Vec<Candidate>)
    ensures
        views(r@) == ranked_insert_all(concat_views(lists@), capacity as nat),
        r@.len() <= capacity,
{
    let ghost orig = lists@;
    let ghost cap = capacity as nat;
    let n = lists.len();
    let mut rest = lists;
    let mut set = RankedSet::new(capacity);
    let mut i: usize = 0;
    while rest.len() > 0
        invariant
            orig.len() == n,
            i <= orig.len(),
            rest@.len() == orig.len() - i,
            rest@ == orig.skip(i as int),
            set.wf(),
            set.cap() == cap,
            set@ == ranked_insert_all(concat_views(orig.take(i as int)), cap),
        decreases rest@.len(),
    {
        let mut list = rest.remove(0);
        let ghost cur = list@;
        let ghost done = concat_views(orig.take(i as int));
        assert(cur == orig[i as int]@);
        assert(done + views(cur).take(0) =~= done);
        while list.len() > 0
            invariant
                cur.len() >= list@.len(),
                list@ == cur.skip(cur.len() - list@.len()),
                set.wf(),
                set.cap() == cap,
                set@ == ranked_insert_all(done + views(cur).take(cur.len() - list@.len()), cap),
            decreases list@.len(),
        {
            let ghost j = cur.len() - list@.len();
            let c = list.remove(0);
            assert(c == cur[j]);
            let ghost before = done + views(cur).take(j);
            set.insert(c);
            assert(before.push(c@).drop_last() == before);
            assert(before.push(c@) =~= done + views(cur).take(j + 1));
            assert(list@ =~= cur.skip(j + 1));
        }
        proof {
            assert(views(cur).take(cur.len() as int) =~= views(cur));
            let next = orig.take(i as int + 1);
            assert(next.drop_last() =~= orig.take(i as int));
            assert(next.last()@ == cur);
        }
        i = i + 1;
        assert(rest@ =~= orig.skip(i as int));
    }
    assert(orig.take(i as int) =~= orig);
    set.into_vec()
}

/// The leading 32 bytes of the candidate, as an AES-256 key, have their whole
/// round-key schedule present in `hay`.
pub open spec fn key_passes(c: CandidateView, hay: Seq<u8>) -> bool {
    c.bytes.len() >= 32 && schedule_present(c.bytes.take(32), hay)
}

/// The candidates of `cs` that pass the schedule check against `hay`, in order.
pub open spec fn passing(cs: Seq<CandidateView>, hay: Seq<u8>) -> Seq<CandidateView>
    decreases cs.len(),
{
    if cs.len() == 0 {
        Seq::empty()
    } else if key_passes(cs.last(), hay) {
        passing(cs.drop_last(), hay).push(cs.last())
    } else {
        passing(cs.drop_last(), hay)
    }
}

/// Keeps, in order, the candidates whose key schedule is present in `bytes`.
pub fn filter_potential_keys(pks: Vec<Candidate>, bytes: &[u8]) -> (r: Vec<Candidate>)
    ensures
        views(r@) == passing(views(pks@), bytes@),
{
    let ghost orig = views(pks@);
    let n = pks.len();
    let mut rest = pks;
    let mut kept: Vec<Candidate> = Vec::new();
    let mut i: usize = 0;
    assert(orig.take(0) =~= Seq::<CandidateView>::empty());
    assert(views(kept@) =~= Seq::<CandidateView>::empty());
    while rest.len() > 0
        invariant
            orig.len() == n,
            i <= orig.len(),
            rest@.len() == orig.len() - i,
            views(rest@) == orig.skip(i as int),
            views(kept@) == passing(orig.take(i as int), bytes@),
        decreases rest@.len(),
    {
        let ghost old_rest = rest@;
        let c = rest.remove(0);
        assert(c@ == orig[i as int]) by {
            assert(views(old_rest)[0] == orig.skip(i as int)[0]);
        }
        let ghost prefix = orig.take(i as int + 1);
        assert(prefix.drop_last() =~= orig.take(i as int));
        assert(prefix.last() == c@);
        let ok = c.bytes.len() >= 32 && is_potential_key(c.bytes.as_slice(), bytes);
        if ok {
            assert(c.bytes@.subrange(0, 32) == c.bytes@.take(32));
            let ghost before = kept@;
            kept.push(c);
            assert(views(kept@) =~= views(before).push(c@));
        }
        assert forall|m: int| 0 <= m < rest@.len() implies #[trigger] views(rest@)[m] == orig[i + 1
            + m] by {
            assert(rest@[m] == old_rest[m + 1]);
            assert(views(old_rest)[m + 1] == orig.skip(i as int)[m + 1]);
        }
        i = i + 1;
        assert(views(rest@) =~= orig.skip(i as int));
    }
    assert(orig.take(i as int) =~= orig);
    kept
}

} // verus!
