use vstd::prelude::*;

use crate::aes::{expand_key, expand_key_schedule};
use crate::search::{contains_slice, occurs_at, occurs_in};

verus! {

/// Number of 16-byte round-key segments in an AES-256 schedule: the two
/// halves of the key and thirteen derived round keys.
pub const SEGMENT_COUNT: usize = 15;

/// Length in bytes of one round-key segment.
pub const SEGMENT_LEN: usize = 16;

/// Segment `k` of a round-key schedule.
pub open spec fn segment(schedule: Seq<u8>, k: int) -> Seq<u8> {
    schedule.subrange(16 * k, 16 * k + 16)
}

/// Every round-key segment of the schedule of `key` stands somewhere in `hay`.
pub open spec fn schedule_present(key: Seq<u8>, hay: Seq<u8>) -> bool {
    forall|k: int| 0 <= k < 15 ==> #[trigger] occurs_in(hay, segment(expand_key(key), k))
}

/// Whether the leading 32 bytes of `key`, taken as an AES-256 key, have each
/// segment of their expanded round-key schedule present in `bytes`.
pub fn is_potential_key(key: &[u8], bytes: &[u8]) -> (r: bool)
    requires
        key@.len() >= 32,
    ensures
        r == schedule_present(key@.subrange(0, 32), bytes@),
{
    let master = vstd::slice::slice_subrange(key, 0, 32);
    let schedule = expand_key_schedule(master);
    let mut k: usize = 0;
    while k < SEGMENT_COUNT
        invariant
            k <= SEGMENT_COUNT,
            master@ == key@.subrange(0, 32),
            schedule@ == expand_key(master@),
            forall|j: int| 0 <= j < k ==> #[trigger] occurs_in(bytes@, segment(schedule@, j)),
        decreases SEGMENT_COUNT - k,
    {
        let seg = vstd::slice::slice_subrange(
            schedule.as_slice(),
            k * SEGMENT_LEN,
            k * SEGMENT_LEN + SEGMENT_LEN,
        );
        if !contains_slice(bytes, seg) {
            assert(!occurs_in(bytes@, segment(schedule@, k as int)));
            return false;
        }
        k = k + 1;
    }
    true
}

/// A haystack that holds the whole round-key schedule of a key, contiguously
/// at some position, passes the schedule check for that key.
pub proof fn lemma_embedded_schedule_verifies(key: Seq<u8>, hay: Seq<u8>, p: int)
    requires
        occurs_at(hay, expand_key(key), p),
    ensures
        schedule_present(key, hay),
{
    let sched = expand_key(key);
    assert forall|k: int| 0 <= k < 15 implies #[trigger] occurs_in(hay, segment(sched, k)) by {
        let q = p + 16 * k;
        assert(hay.subrange(q, q + 16) =~= segment(sched, k)) by {
            assert forall|m: int| 0 <= m < 16 implies hay.subrange(q, q + 16)[m] == segment(
                sched,
                k,
            )[m] by {
                assert(hay.subrange(p, p + 240)[16 * k + m] == sched[16 * k + m]);
            }
        }
        assert(occurs_at(hay, segment(sched, k), q));
    }
}

} // verus!
