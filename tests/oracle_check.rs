use cryptosift::aes::expand_key_schedule;
use cryptosift::oracle::is_potential_key;

fn from_hex(s: &str) -> Vec<u8> {
    (0..s.len()).step_by(2).map(|i| u8::from_str_radix(&s[i..i + 2], 16).unwrap()).collect()
}

fn noise(n: usize, mut state: u64) -> Vec<u8> {
    let mut out = Vec::new();
    for _ in 0..n {
        state ^= state << 13;
        state ^= state >> 7;
        state ^= state << 17;
        out.push((state >> 56) as u8);
    }
    out
}

fn key() -> Vec<u8> {
    from_hex("603deb1015ca71be2b73aef0857d77811f352c073b6108d72d9810a30914dff4")
}

#[test]
fn embedded_schedule_verifies() {
    let k = key();
    let schedule = expand_key_schedule(&k);
    let mut hay = noise(300, 7);
    hay.extend_from_slice(&schedule);
    hay.extend(noise(200, 11));
    assert!(is_potential_key(&k, &hay));
}

#[test]
fn altered_segment_fails() {
    let k = key();
    let schedule = expand_key_schedule(&k);
    let mut hay = noise(300, 7);
    hay.extend_from_slice(&schedule);
    hay.extend(noise(200, 11));
    hay[300 + 100] ^= 0x01;
    assert!(!is_potential_key(&k, &hay));
}

#[test]
fn scattered_segments_verify() {
    let k = key();
    let schedule = expand_key_schedule(&k);
    let mut hay = Vec::new();
    for seg in schedule.chunks(16).rev() {
        hay.extend(noise(5, seg[0] as u64 + 1));
        hay.extend_from_slice(seg);
    }
    assert!(is_potential_key(&k, &hay));
}

#[test]
fn only_leading_32_bytes_are_the_key() {
    let k = key();
    let schedule = expand_key_schedule(&k);
    let mut candidate = k.clone();
    candidate.extend(noise(32, 3));
    assert!(is_potential_key(&candidate, &schedule));
}

#[test]
fn empty_haystack_fails() {
    assert!(!is_potential_key(&key(), &[]));
}
