use vstd::prelude::*;

use crate::search::{contains_slice, occurs_at, occurs_in};

verus! {

/// How many magic signatures the sniffer knows.
pub const SIGNATURE_COUNT: usize = 13;

/// The magic byte sequences of container, compressed, image, document and
/// executable formats: gzip, bzip2, xz, zip, 7z, rar 1.5, rar 5, JPEG, PNG,
/// GIF, PDF, ELF and PE.
pub open spec fn signature(k: int) -> Seq<u8> {
    if k == 0 {
        seq![0x1fu8, 0x8bu8]
    } else if k == 1 {
        seq![0x42u8, 0x5au8, 0x68u8]
    } else if k == 2 {
        seq![0xfdu8, 0x37u8, 0x7au8, 0x58u8, 0x5au8, 0x00u8]
    } else if k == 3 {
        seq![0x50u8, 0x4bu8, 0x03u8, 0x04u8]
    } else if k == 4 {
        seq![0x37u8, 0x7au8, 0xbcu8, 0xafu8, 0x27u8, 0x1cu8]
    } else if k == 5 {
        seq![0x52u8, 0x61u8, 0x72u8, 0x21u8, 0x1au8, 0x07u8, 0x00u8]
    } else if k == 6 {
        seq![0x52u8, 0x61u8, 0x72u8, 0x21u8, 0x1au8, 0x07u8, 0x01u8]
    } else if k == 7 {
        seq![0xffu8, 0xd8u8, 0xffu8]
    } else if k == 8 {
        seq![0x89u8, 0x50u8, 0x4eu8, 0x47u8, 0x0du8, 0x0au8, 0x1au8, 0x0au8]
    } else if k == 9 {
        seq![0x47u8, 0x49u8, 0x46u8, 0x38u8]
    } else if k == 10 {
        seq![0x25u8, 0x50u8, 0x44u8, 0x46u8, 0x2du8]
    } else if k == 11 {
        seq![0x7fu8, 0x45u8, 0x4cu8, 0x46u8]
    } else {
        seq![0x4du8, 0x5au8]
    }
}

/// Some known signature stands contiguously in `window`.
pub open spec fn is_known_format(window: Seq<u8>) -> bool {
    exists|k: int| 0 <= k < SIGNATURE_COUNT && #[trigger] occurs_in(window, signature(k))
}

/// The bytes of the `k`-th known signature.
pub fn signature_bytes(k: usize) -> (r: Vec<u8>)
    requires
        k < SIGNATURE_COUNT,
    ensures
        r@ == signature(k as int),
{
    let r: Vec<u8> = if k == 0 {
        vec![0x1fu8, 0x8bu8]
    } else if k == 1 {
        vec![0x42u8, 0x5au8, 0x68u8]
    } else if k == 2 {
        vec![0xfdu8, 0x37u8, 0x7au8, 0x58u8, 0x5au8, 0x00u8]
    } else if k == 3 {
        vec![0x50u8, 0x4bu8, 0x03u8, 0x04u8]
    } else if k == 4 {
        vec![0x37u8, 0x7au8, 0xbcu8, 0xafu8, 0x27u8, 0x1cu8]
    } else if k == 5 {
        vec![0x52u8, 0x61u8, 0x72u8, 0x21u8, 0x1au8, 0x07u8, 0x00u8]
    } else if k == 6 {
        vec![0x52u8, 0x61u8, 0x72u8, 0x21u8, 0x1au8, 0x07u8, 0x01u8]
    } else if k == 7 {
        vec![0xffu8, 0xd8u8, 0xffu8]
    } else if k == 8 {
        vec![0x89u8, 0x50u8, 0x4eu8, 0x47u8, 0x0du8, 0x0au8, 0x1au8, 0x0au8]
    } else if k == 9 {
        vec![0x47u8, 0x49u8, 0x46u8, 0x38u8]
    } else if k == 10 {
        vec![0x25u8, 0x50u8, 0x44u8, 0x46u8, 0x2du8]
    } else if k == 11 {
        vec![0x7fu8, 0x45u8, 0x4cu8, 0x46u8]
    } else {
        vec![0x4du8, 0x5au8]
    };
    assert(r@ =~= signature(k as int));
    r
}

/// Whether `data` holds, contiguously and in order, the magic bytes of a
/// known file format; such a window is format metadata, not key material.
pub fn is_known_compressed_format(data: &Vec<u8>) -> (r: bool)
    ensures
        r == is_known_format(data@),
{
    let mut k: usize = 0;
    while k < SIGNATURE_COUNT
        invariant
            k <= SIGNATURE_COUNT,
            forall|j: int| 0 <= j < k ==> !#[trigger] occurs_in(data@, signature(j)),
        decreases SIGNATURE_COUNT - k,
    {
        let sig = signature_bytes(k);
        if contains_slice(data.as_slice(), sig.as_slice()) {
            assert(occurs_in(data@, signature(k as int)));
            return true;
        }
        k = k + 1;
    }
    false
}

/// A window that begins with the PNG signature is a known format.
pub proof fn lemma_png_prefix_is_known(window: Seq<u8>)
    requires
        window.len() >= 8,
        window.take(8) == seq![0x89u8, 0x50u8, 0x4eu8, 0x47u8, 0x0du8, 0x0au8, 0x1au8, 0x0au8],
    ensures
        is_known_format(window),
{
    assert(window.subrange(0, 8) == signature(8));
    assert(occurs_at(window, signature(8), 0));
    assert(occurs_in(window, signature(8)));
}

} // verus!
