use vstd::prelude::*;

use crate::oracle::{is_potential_key, schedule_present};
use crate::ranked::{Candidate, CandidateView, RankedSet, ranked_insert_all, views};
use crate::sniffer::{is_known_compressed_format, is_known_format};

verus! {

/// Window size used when none is given.
pub const DEFAULT_CHUNK_SIZE: usize = 64;

/// Distance between consecutive window starts when none is given.
pub const DEFAULT_STRIDE: usize = 4;

/// Least entropy, in millionths of a bit per byte, that a window needs.
pub const ENTROPY_THRESHOLD: u32 = 4_750_000;

/// How many candidates one scan keeps.
pub const SCAN_CAPACITY: usize = 256;

/// Bytes past a window that the schedule check reads.
pub const SCHEDULE_LOOKAHEAD: usize = 240;

/// Settings of one scan: window size, stride, entropy threshold, how many
/// candidates to keep, and whether a window must also pass the schedule check.
#[derive(Clone, Copy, Debug)]
pub struct ScanConfig {
    pub chunk_size: usize,
    pub stride: usize,
    pub threshold: u32,
    pub capacity: usize,
    pub verify_schedule: bool,
}

impl ScanConfig {
    /// Window size and stride as given, or their defaults; the default
    /// threshold and capacity; no schedule check.
    pub fn new(chunk_size: Option<usize>, stride: Option<usize>) -> (r: ScanConfig)
        ensures
            r.chunk_size == match chunk_size {
                Some(c) => c,
                None => DEFAULT_CHUNK_SIZE,
            },
            r.stride == match stride {
                Some(s) => s,
                None => DEFAULT_STRIDE,
            },
            r.threshold == ENTROPY_THRESHOLD,
            r.capacity == SCAN_CAPACITY,
            !r.verify_schedule,
    {
        let chunk_size = match chunk_size {
            Some(c) => c,
            None => DEFAULT_CHUNK_SIZE,
        };
        let stride = match stride {
            Some(s) => s,
            None => DEFAULT_STRIDE,
        };
        ScanConfig {
            chunk_size,
            stride,
            threshold: ENTROPY_THRESHOLD,
            capacity: SCAN_CAPACITY,
            verify_schedule: false,
        }
    }

    /// Windows and strides are not empty, and a window holds a whole
    /// AES-256 key when the schedule check is on.
    pub open spec fn valid(&self) -> bool {
        &&& self.chunk_size > 0
        &&& self.stride > 0
        &&& self.verify_schedule ==> self.chunk_size >= 32
    }

    pub fn is_valid(&self) -> (r: bool)
        ensures
            r == self.valid(),
    {
        self.chunk_size > 0 && self.stride > 0 && (!self.verify_schedule || self.chunk_size >= 32)
    }

    /// Bytes past a window that must lie in the region.
    pub open spec fn lookahead(&self) -> nat {
        if self.verify_schedule {
            240
        } else {
            0
        }
    }
}

/// Number of windows in a region of `len` bytes: a window starts at every
/// multiple of the stride from which the window and the lookahead fit.
pub open spec fn window_count(len: nat, cfg: ScanConfig) -> nat {
    if len < cfg.chunk_size + cfg.lookahead() || cfg.stride == 0 {
        0
    } else {
        ((len - cfg.chunk_size - cfg.lookahead()) as nat / cfg.stride as nat) + 1
    }
}

/// The `k`-th window of `bytes`.
pub open spec fn window(bytes: Seq<u8>, cfg: ScanConfig, k: int) -> Seq<u8> {
    bytes.subrange(k * cfg.stride, k * cfg.stride + cfg.chunk_size)
}

/// Whether the `k`-th window, of score `score`, survives the filters: it holds
/// no known signature, its score reaches the threshold and, when asked for,
/// the schedule of its leading 32 bytes stands in it and the lookahead after it.
pub open spec fn keeps_window(bytes: Seq<u8>, cfg: ScanConfig, score: u32, k: int) -> bool {
    let w = window(bytes, cfg, k);
    &&& !is_known_format(w)
    &&& score >= cfg.threshold
    &&& cfg.verify_schedule ==> schedule_present(
        w.take(32),
        bytes.subrange(k * cfg.stride, k * cfg.stride + cfg.chunk_size + 240),
    )
}

/// The candidate made of the `k`-th window.
pub open spec fn window_candidate(
    bytes: Seq<u8>,
    cfg: ScanConfig,
    scores: Seq<u32>,
    k: int,
) -> CandidateView {
    CandidateView {
        offset: (k * cfg.stride) as usize,
        bytes: window(bytes, cfg, k),
        score: scores[k],
    }
}

/// The candidates of the first `n` windows that survive the filters, in
/// window order; `scores[k]` is the score of window `k`.
pub open spec fn accepted(bytes: Seq<u8>, cfg: ScanConfig, scores: Seq<u32>, n: nat) -> Seq<
    CandidateView,
>
    decreases n,
{
    if n == 0 {
        Seq::empty()
    } else {
        let prev = accepted(bytes, cfg, scores, (n - 1) as nat);
        if keeps_window(bytes, cfg, scores[n - 1], n - 1) {
            prev.push(window_candidate(bytes, cfg, scores, n - 1))
        } else {
            prev
        }
    }
}

/// What a scan of `bytes` returns: the surviving windows, ranked as a set of
/// capacity `cfg.capacity` ranks them when they are inserted in window order.
pub open spec fn scan_result(bytes: Seq<u8>, cfg: ScanConfig, scores: Seq<u32>) -> Seq<
    CandidateView,
> {
    ranked_insert_all(accepted(bytes, cfg, scores, window_count(bytes.len(), cfg)), cfg.capacity as nat)
}

proof fn lemma_window_fits(len: nat, cfg: ScanConfig, k: nat)
    requires
        cfg.valid(),
        k < window_count(len, cfg),
    ensures
        k * cfg.stride + cfg.chunk_size + cfg.lookahead() <= len,
{
    let room = (len - cfg.chunk_size - cfg.lookahead()) as nat;
    let s = cfg.stride as nat;
    assert(k <= room / s);
    assert(k * s <= (room / s) * s) by (nonlinear_arith)
        requires
            k <= room / s,
            s > 0,
    ;
    assert((room / s) * s <= room) by (nonlinear_arith)
        requires
            s > 0,
    ;
}

proof fn lemma_window_after_last(len: nat, cfg: ScanConfig, k: nat)
    requires
        cfg.valid(),
        k == window_count(len, cfg),
    ensures
        k * cfg.stride + cfg.chunk_size + cfg.lookahead() > len,
{
    if len >= cfg.chunk_size + cfg.lookahead() {
        let room = (len - cfg.chunk_size - cfg.lookahead()) as nat;
        let s = cfg.stride as nat;
        assert(k * s > room) by (nonlinear_arith)
            requires
                k == room / s + 1,
                s > 0,
        ;
    }
}

proof fn lemma_next_offset(k: nat, s: nat)
    ensures
        (k + 1) * s == k * s + s,
{
    assert((k + 1) * s == k * s + s) by (nonlinear_arith);
}

/// Number of windows that a scan of a region of `len` bytes visits.
pub fn window_total(len: usize, cfg: &ScanConfig) -> (n: usize)
    requires
        cfg.valid(),
    ensures
        n == window_count(len as nat, *cfg),
{
    let look: usize = if cfg.verify_schedule { SCHEDULE_LOOKAHEAD } else { 0 };
    if len < cfg.chunk_size || len - cfg.chunk_size < look {
        0
    } else {
        (len - cfg.chunk_size - look) / cfg.stride + 1
    }
}

/// The start of each window of a scan of a region of `len` bytes, in the
/// order the scan visits them: each one stride past the one before.
pub fn window_offsets(len: usize, cfg: &ScanConfig) -> (r: Vec<usize>)
    requires
        cfg.valid(),
    ensures
        r@.len() == window_count(len as nat, *cfg),
        forall|k: int| 0 <= k < r@.len() ==> #[trigger] r@[k] == k * cfg.stride,
        forall|i: int, j: int| 0 <= i < j < r@.len() ==> #[trigger] r@[i] < #[trigger] r@[j],
{
    let n = window_total(len, cfg);
    let mut r: Vec<usize> = Vec::new();
    let mut k: usize = 0;
    let mut off: usize = 0;
    while k < n
        invariant
            cfg.valid(),
            n == window_count(len as nat, *cfg),
            k <= n,
            k < n ==> off == k * cfg.stride,
            r@.len() == k,
            forall|m: int| 0 <= m < k ==> #[trigger] r@[m] == m * cfg.stride,
        decreases n - k,
    {
        proof {
            lemma_window_fits(len as nat, *cfg, k as nat);
        }
        r.push(off);
        k = k + 1;
        if k < n {
            proof {
                lemma_window_fits(len as nat, *cfg, k as nat);
                lemma_next_offset((k - 1) as nat, cfg.stride as nat);
            }
            off = off + cfg.stride;
        }
    }
    assert forall|i: int, j: int| 0 <= i < j < r@.len() implies #[trigger] r@[i] < #[trigger] r@[j] by {
        assert(i * cfg.stride < j * cfg.stride) by (nonlinear_arith)
            requires
                i < j,
                cfg.stride > 0,
        ;
    }
    r
}

/// Slides a window over `bytes` one stride at a time and ranks the windows
/// that carry no known format signature, whose score reaches the threshold
/// and, when asked for, whose key schedule is found just after them.
/// `scores[k]` is the entropy score of window `k`.
pub fn filter_memory_dump(bytes: &[u8], cfg: &ScanConfig, scores: &Vec<u32>) -> (r: Vec<Candidate>)
    requires
        cfg.valid(),
        scores@.len() == window_count(bytes@.len(), *cfg),
    ensures
        views(r@) == scan_result(bytes@, *cfg, scores@),
        r@.len() <= cfg.capacity,
{
    let len = bytes.len();
    let n = window_total(len, cfg);
    let mut set = RankedSet::new(cfg.capacity);
    let mut k: usize = 0;
    while k < n
        invariant
            cfg.valid(),
            len == bytes@.len(),
            n == window_count(bytes@.len(), *cfg),
            scores@.len() == n,
            k <= n,
            set.wf(),
            set.cap() == cfg.capacity,
            set@ == ranked_insert_all(accepted(bytes@, *cfg, scores@, k as nat), cfg.capacity as nat),
        decreases n - k,
    {
        proof {
            lemma_window_fits(bytes@.len(), *cfg, k as nat);
        }
        assert(k * cfg.stride + cfg.chunk_size + cfg.lookahead() <= bytes@.len());
        let off: usize = k * cfg.stride;
        let end: usize = off + cfg.chunk_size;
        let w_slice = vstd::slice::slice_subrange(bytes, off, end);
        let w = vstd::slice::slice_to_vec(w_slice);
        let score = scores[k];
        let ghost prev = accepted(bytes@, *cfg, scores@, k as nat);
        assert(w@ == window(bytes@, *cfg, k as int));
        let mut keep = !is_known_compressed_format(&w) && score >= cfg.threshold;
        if keep && cfg.verify_schedule {
            let hay = vstd::slice::slice_subrange(bytes, off, end + SCHEDULE_LOOKAHEAD);
            keep = is_potential_key(w_slice, hay);
            assert(w_slice@.subrange(0, 32) == w@.take(32));
        }
        assert(keep == keeps_window(bytes@, *cfg, scores@[k as int], k as int));
        if keep {
            let c = Candidate { offset: off, bytes: w, score };
            assert(c@ == window_candidate(bytes@, *cfg, scores@, k as int));
            set.insert(c);
            assert(prev.push(c@).drop_last() == prev);
        }
        k = k + 1;
    }
    set.into_vec()
}

} // verus!
