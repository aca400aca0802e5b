use vstd::prelude::*;

verus! {

/// The AES S-box (FIPS-197, figure 7).
#[verifier::opaque]
pub open spec fn sbox_table() -> Seq<u8> {
    seq![
        0x63u8, 0x7cu8, 0x77u8, 0x7bu8, 0xf2u8, 0x6bu8, 0x6fu8, 0xc5u8,
        0x30u8, 0x01u8, 0x67u8, 0x2bu8, 0xfeu8, 0xd7u8, 0xabu8, 0x76u8,
        0xcau8, 0x82u8, 0xc9u8, 0x7du8, 0xfau8, 0x59u8, 0x47u8, 0xf0u8,
        0xadu8, 0xd4u8, 0xa2u8, 0xafu8, 0x9cu8, 0xa4u8, 0x72u8, 0xc0u8,
        0xb7u8, 0xfdu8, 0x93u8, 0x26u8, 0x36u8, 0x3fu8, 0xf7u8, 0xccu8,
        0x34u8, 0xa5u8, 0xe5u8, 0xf1u8, 0x71u8, 0xd8u8, 0x31u8, 0x15u8,
        0x04u8, 0xc7u8, 0x23u8, 0xc3u8, 0x18u8, 0x96u8, 0x05u8, 0x9au8,
        0x07u8, 0x12u8, 0x80u8, 0xe2u8, 0xebu8, 0x27u8, 0xb2u8, 0x75u8,
        0x09u8, 0x83u8, 0x2cu8, 0x1au8, 0x1bu8, 0x6eu8, 0x5au8, 0xa0u8,
        0x52u8, 0x3bu8, 0xd6u8, 0xb3u8, 0x29u8, 0xe3u8, 0x2fu8, 0x84u8,
        0x53u8, 0xd1u8, 0x00u8, 0xedu8, 0x20u8, 0xfcu8, 0xb1u8, 0x5bu8,
        0x6au8, 0xcbu8, 0xbeu8, 0x39u8, 0x4au8, 0x4cu8, 0x58u8, 0xcfu8,
        0xd0u8, 0xefu8, 0xaau8, 0xfbu8, 0x43u8, 0x4du8, 0x33u8, 0x85u8,
        0x45u8, 0xf9u8, 0x02u8, 0x7fu8, 0x50u8, 0x3cu8, 0x9fu8, 0xa8u8,
        0x51u8, 0xa3u8, 0x40u8, 0x8fu8, 0x92u8, 0x9du8, 0x38u8, 0xf5u8,
        0xbcu8, 0xb6u8, 0xdau8, 0x21u8, 0x10u8, 0xffu8, 0xf3u8, 0xd2u8,
        0xcdu8, 0x0cu8, 0x13u8, 0xecu8, 0x5fu8, 0x97u8, 0x44u8, 0x17u8,
        0xc4u8, 0xa7u8, 0x7eu8, 0x3du8, 0x64u8, 0x5du8, 0x19u8, 0x73u8,
        0x60u8, 0x81u8, 0x4fu8, 0xdcu8, 0x22u8, 0x2au8, 0x90u8, 0x88u8,
        0x46u8, 0xeeu8, 0xb8u8, 0x14u8, 0xdeu8, 0x5eu8, 0x0bu8, 0xdbu8,
        0xe0u8, 0x32u8, 0x3au8, 0x0au8, 0x49u8, 0x06u8, 0x24u8, 0x5cu8,
        0xc2u8, 0xd3u8, 0xacu8, 0x62u8, 0x91u8, 0x95u8, 0xe4u8, 0x79u8,
        0xe7u8, 0xc8u8, 0x37u8, 0x6du8, 0x8du8, 0xd5u8, 0x4eu8, 0xa9u8,
        0x6cu8, 0x56u8, 0xf4u8, 0xeau8, 0x65u8, 0x7au8, 0xaeu8, 0x08u8,
        0xbau8, 0x78u8, 0x25u8, 0x2eu8, 0x1cu8, 0xa6u8, 0xb4u8, 0xc6u8,
        0xe8u8, 0xddu8, 0x74u8, 0x1fu8, 0x4bu8, 0xbdu8, 0x8bu8, 0x8au8,
        0x70u8, 0x3eu8, 0xb5u8, 0x66u8, 0x48u8, 0x03u8, 0xf6u8, 0x0eu8,
        0x61u8, 0x35u8, 0x57u8, 0xb9u8, 0x86u8, 0xc1u8, 0x1du8, 0x9eu8,
        0xe1u8, 0xf8u8, 0x98u8, 0x11u8, 0x69u8, 0xd9u8, 0x8eu8, 0x94u8,
        0x9bu8, 0x1eu8, 0x87u8, 0xe9u8, 0xceu8, 0x55u8, 0x28u8, 0xdfu8,
        0x8cu8, 0xa1u8, 0x89u8, 0x0du8, 0xbfu8, 0xe6u8, 0x42u8, 0x68u8,
        0x41u8, 0x99u8, 0x2du8, 0x0fu8, 0xb0u8, 0x54u8, 0xbbu8, 0x16u8,
    ]
}

pub open spec fn sbox(b: u8) -> u8 {
    sbox_table()[b as int]
}

/// Round constant of AES-256 key expansion round `r` (1 to 7).
pub open spec fn rcon(r: int) -> u8 {
    seq![0x01u8, 0x02u8, 0x04u8, 0x08u8, 0x10u8, 0x20u8, 0x40u8][r - 1]
}

/// Byte `j` of the AES-256 round-key schedule of `key` (FIPS-197, 5.2): the
/// first 32 bytes are the key; word `w` after that is word `w - 8` xor the
/// previous word, rotated, substituted and xored with a round constant when
/// `w` is a multiple of 8, and substituted when `w` is 4 past one.
pub open spec fn schedule_byte(key: Seq<u8>, j: nat) -> u8
    decreases j,
{
    if j < 32 {
        key[j as int]
    } else {
        let w = j / 4;
        let b = j % 4;
        let prev = 4 * (w - 1);
        let t: u8 = if w % 8 == 0 {
            let s = sbox(schedule_byte(key, (prev + (b + 1) % 4) as nat));
            if b == 0 {
                s ^ rcon((w / 8) as int)
            } else {
                s
            }
        } else if w % 8 == 4 {
            sbox(schedule_byte(key, (prev + b) as nat))
        } else {
            schedule_byte(key, (prev + b) as nat)
        };
        schedule_byte(key, (j - 32) as nat) ^ t
    }
}

/// The 240-byte AES-256 round-key schedule of a 32-byte key.
pub open spec fn expand_key(key: Seq<u8>) -> Seq<u8> {
    Seq::new(240, |j: int| schedule_byte(key, j as nat))
}

fn sbox_vec() -> (r: Vec<u8>)
    ensures
        r@ == sbox_table(),
        r@.len() == 256,
{
    let r: Vec<u8> = vec![
        0x63u8, 0x7cu8, 0x77u8, 0x7bu8, 0xf2u8, 0x6bu8, 0x6fu8, 0xc5u8,
        0x30u8, 0x01u8, 0x67u8, 0x2bu8, 0xfeu8, 0xd7u8, 0xabu8, 0x76u8,
        0xcau8, 0x82u8, 0xc9u8, 0x7du8, 0xfau8, 0x59u8, 0x47u8, 0xf0u8,
        0xadu8, 0xd4u8, 0xa2u8, 0xafu8, 0x9cu8, 0xa4u8, 0x72u8, 0xc0u8,
        0xb7u8, 0xfdu8, 0x93u8, 0x26u8, 0x36u8, 0x3fu8, 0xf7u8, 0xccu8,
        0x34u8, 0xa5u8, 0xe5u8, 0xf1u8, 0x71u8, 0xd8u8, 0x31u8, 0x15u8,
        0x04u8, 0xc7u8, 0x23u8, 0xc3u8, 0x18u8, 0x96u8, 0x05u8, 0x9au8,
        0x07u8, 0x12u8, 0x80u8, 0xe2u8, 0xebu8, 0x27u8, 0xb2u8, 0x75u8,
        0x09u8, 0x83u8, 0x2cu8, 0x1au8, 0x1bu8, 0x6eu8, 0x5au8, 0xa0u8,
        0x52u8, 0x3bu8, 0xd6u8, 0xb3u8, 0x29u8, 0xe3u8, 0x2fu8, 0x84u8,
        0x53u8, 0xd1u8, 0x00u8, 0xedu8, 0x20u8, 0xfcu8, 0xb1u8, 0x5bu8,
        0x6au8, 0xcbu8, 0xbeu8, 0x39u8, 0x4au8, 0x4cu8, 0x58u8, 0xcfu8,
        0xd0u8, 0xefu8, 0xaau8, 0xfbu8, 0x43u8, 0x4du8, 0x33u8, 0x85u8,
        0x45u8, 0xf9u8, 0x02u8, 0x7fu8, 0x50u8, 0x3cu8, 0x9fu8, 0xa8u8,
        0x51u8, 0xa3u8, 0x40u8, 0x8fu8, 0x92u8, 0x9du8, 0x38u8, 0xf5u8,
        0xbcu8, 0xb6u8, 0xdau8, 0x21u8, 0x10u8, 0xffu8, 0xf3u8, 0xd2u8,
        0xcdu8, 0x0cu8, 0x13u8, 0xecu8, 0x5fu8, 0x97u8, 0x44u8, 0x17u8,
        0xc4u8, 0xa7u8, 0x7eu8, 0x3du8, 0x64u8, 0x5du8, 0x19u8, 0x73u8,
        0x60u8, 0x81u8, 0x4fu8, 0xdcu8, 0x22u8, 0x2au8, 0x90u8, 0x88u8,
        0x46u8, 0xeeu8, 0xb8u8, 0x14u8, 0xdeu8, 0x5eu8, 0x0bu8, 0xdbu8,
        0xe0u8, 0x32u8, 0x3au8, 0x0au8, 0x49u8, 0x06u8, 0x24u8, 0x5cu8,
        0xc2u8, 0xd3u8, 0xacu8, 0x62u8, 0x91u8, 0x95u8, 0xe4u8, 0x79u8,
        0xe7u8, 0xc8u8, 0x37u8, 0x6du8, 0x8du8, 0xd5u8, 0x4eu8, 0xa9u8,
        0x6cu8, 0x56u8, 0xf4u8, 0xeau8, 0x65u8, 0x7au8, 0xaeu8, 0x08u8,
        0xbau8, 0x78u8, 0x25u8, 0x2eu8, 0x1cu8, 0xa6u8, 0xb4u8, 0xc6u8,
        0xe8u8, 0xddu8, 0x74u8, 0x1fu8, 0x4bu8, 0xbdu8, 0x8bu8, 0x8au8,
        0x70u8, 0x3eu8, 0xb5u8, 0x66u8, 0x48u8, 0x03u8, 0xf6u8, 0x0eu8,
        0x61u8, 0x35u8, 0x57u8, 0xb9u8, 0x86u8, 0xc1u8, 0x1du8, 0x9eu8,
        0xe1u8, 0xf8u8, 0x98u8, 0x11u8, 0x69u8, 0xd9u8, 0x8eu8, 0x94u8,
        0x9bu8, 0x1eu8, 0x87u8, 0xe9u8, 0xceu8, 0x55u8, 0x28u8, 0xdfu8,
        0x8cu8, 0xa1u8, 0x89u8, 0x0du8, 0xbfu8, 0xe6u8, 0x42u8, 0x68u8,
        0x41u8, 0x99u8, 0x2du8, 0x0fu8, 0xb0u8, 0x54u8, 0xbbu8, 0x16u8,
    ];
    reveal(sbox_table);
    assert(r@ =~= sbox_table());
    r
}

fn rcon_byte(r: usize) -> (c: u8)
    requires
        1 <= r <= 7,
    ensures
        c == rcon(r as int),
{
    if r == 1 {
        0x01
    } else if r == 2 {
        0x02
    } else if r == 3 {
        0x04
    } else if r == 4 {
        0x08
    } else if r == 5 {
        0x10
    } else if r == 6 {
        0x20
    } else {
        0x40
    }
}

/// AES context: the expanded round keys and an initialisation vector.
#[allow(non_camel_case_types, non_snake_case)]
pub struct AES_ctx {
    pub RoundKey: [u8; 240],
    pub Iv: [u8; 16],
}

impl AES_ctx {
    /// A context whose round keys and initialisation vector are all zero.
    pub fn new() -> (r: Self)
        ensures
            forall|i: int| 0 <= i < 240 ==> #[trigger] r.RoundKey@[i] == 0,
            forall|i: int| 0 <= i < 16 ==> #[trigger] r.Iv@[i] == 0,
    {
        AES_ctx { RoundKey: [0u8; 240], Iv: [0u8; 16] }
    }
}

/// Bytes of a round-key word. Element `k` of the result is byte `k` of
/// word `i` of the schedule, for `8 <= i < 60`, in terms of the bytes before it.
pub open spec fn word_from_earlier(key: Seq<u8>, i: int, k: int) -> u8 {
    let p = 4 * (i - 1);
    let back = schedule_byte(key, (4 * i - 32 + k) as nat);
    if i % 8 == 0 {
        let s = sbox(schedule_byte(key, (p + (k + 1) % 4) as nat));
        back ^ (if k == 0 { s ^ rcon(i / 8) } else { s })
    } else if i % 8 == 4 {
        back ^ sbox(schedule_byte(key, (p + k) as nat))
    } else {
        back ^ schedule_byte(key, (p + k) as nat)
    }
}

proof fn lemma_schedule_word(key: Seq<u8>, i: int)
    requires
        8 <= i < 60,
    ensures
        forall|k: int|
            0 <= k < 4 ==> #[trigger] schedule_byte(key, (4 * i + k) as nat) == word_from_earlier(
                key,
                i,
                k,
            ),
{
    assert forall|k: int| 0 <= k < 4 implies #[trigger] schedule_byte(key, (4 * i + k) as nat)
        == word_from_earlier(key, i, k) by {
        let j = 4 * i + k;
        assert(j / 4 == i);
        assert(j % 4 == k);
        assert((k + 1) % 4 == (if k == 3 { 0 } else { k + 1 }));
    }
}

/// Expands a 32-byte AES-256 key into its 240-byte round-key schedule.
pub fn expand_key_schedule(key: &[u8]) -> (rk: [u8; 240])
    requires
        key@.len() == 32,
    ensures
        rk@ == expand_key(key@),
{
    let sb = sbox_vec();
    let mut rk: [u8; 240] = [0u8; 240];
    let mut j: usize = 0;
    while j < 32
        invariant
            j <= 32,
            key@.len() == 32,
            rk@.len() == 240,
            forall|m: int| 0 <= m < j ==> #[trigger] rk@[m] == schedule_byte(key@, m as nat),
        decreases 32 - j,
    {
        rk[j] = key[j];
        j = j + 1;
    }
    let mut i: usize = 8;
    while i < 60
        invariant
            8 <= i <= 60,
            sb@ == sbox_table(),
            sb@.len() == 256,
            rk@.len() == 240,
            forall|m: int| 0 <= m < 4 * i ==> #[trigger] rk@[m] == schedule_byte(key@, m as nat),
        decreases 60 - i,
    {
        let p: usize = 4 * (i - 1);
        let a0 = rk[p];
        let a1 = rk[p + 1];
        let a2 = rk[p + 2];
        let a3 = rk[p + 3];
        let (t0, t1, t2, t3) = if i % 8 == 0 {
            (sb[a1 as usize] ^ rcon_byte(i / 8), sb[a2 as usize], sb[a3 as usize], sb[a0 as usize])
        } else if i % 8 == 4 {
            (sb[a0 as usize], sb[a1 as usize], sb[a2 as usize], sb[a3 as usize])
        } else {
            (a0, a1, a2, a3)
        };
        let q: usize = 4 * i;
        let r0 = rk[q - 32] ^ t0;
        let r1 = rk[q - 31] ^ t1;
        let r2 = rk[q - 30] ^ t2;
        let r3 = rk[q - 29] ^ t3;
        rk[q] = r0;
        rk[q + 1] = r1;
        rk[q + 2] = r2;
        rk[q + 3] = r3;
        proof {
            lemma_schedule_word(key@, i as int);
            assert(rk@[4 * i + 0] == word_from_earlier(key@, i as int, 0));
            assert(rk@[4 * i + 1] == word_from_earlier(key@, i as int, 1));
            assert(rk@[4 * i + 2] == word_from_earlier(key@, i as int, 2));
            assert(rk@[4 * i + 3] == word_from_earlier(key@, i as int, 3));
        }
        i = i + 1;
    }
    assert(rk@ =~= expand_key(key@));
    rk
}

/// An AES context holding the round-key schedule of a 32-byte key and a zero
/// initialisation vector.
pub fn generate_round_keys(key: &[u8]) -> (ctx: AES_ctx)
    requires
        key@.len() == 32,
    ensures
        ctx.RoundKey@ == expand_key(key@),
        forall|i: int| 0 <= i < 16 ==> #[trigger] ctx.Iv@[i] == 0,
{
    let mut ctx = AES_ctx::new();
    ctx.RoundKey = expand_key_schedule(key);
    ctx
}

} // verus!
