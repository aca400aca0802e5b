use cryptosift::search::contains_slice;
use cryptosift::sniffer::{is_known_compressed_format, signature_bytes, SIGNATURE_COUNT};

fn noise(n: usize, state: &mut u64) -> Vec<u8> {
    let mut out = Vec::new();
    for _ in 0..n {
        *state ^= *state << 13;
        *state ^= *state >> 7;
        *state ^= *state << 17;
        out.push((*state >> 56) as u8);
    }
    out
}

#[test]
fn png_prefix_is_known() {
    let mut w = vec![0x89, 0x50, 0x4E, 0x47, 0x0D, 0x0A, 0x1A, 0x0A];
    w.extend(vec![0x11u8; 24]);
    assert!(is_known_compressed_format(&w));
}

#[test]
fn random_windows_are_rarely_known() {
    let mut state: u64 = 0x9e3779b97f4a7c15;
    let mut known = 0;
    for _ in 0..1000 {
        let w = noise(64, &mut state);
        if is_known_compressed_format(&w) {
            known += 1;
        }
    }
    assert!(known < 50, "{} of 1000 random windows flagged", known);
}

#[test]
fn every_signature_is_found_inside_a_window() {
    for k in 0..SIGNATURE_COUNT {
        let mut w = vec![0x11u8; 10];
        w.extend(signature_bytes(k));
        w.extend(vec![0x22u8; 10]);
        assert!(is_known_compressed_format(&w), "signature {}", k);
    }
}

#[test]
fn scattered_signature_bytes_are_not_a_match() {
    let w = vec![0x1f, 0x00, 0x8b, 0x00, 0x4d, 0x11, 0x5a, 0x89, 0x50, 0x33, 0x4e, 0x47];
    assert!(!is_known_compressed_format(&w));
}

#[test]
fn signature_order_matters() {
    assert!(!is_known_compressed_format(&vec![0x8b, 0x1f, 0x5a, 0x4d]));
    assert!(is_known_compressed_format(&vec![0x00, 0x4d, 0x5a, 0x00]));
}

#[test]
fn truncated_signature_at_end_is_not_a_match() {
    assert!(!is_known_compressed_format(&vec![0x00, 0x25, 0x50, 0x44, 0x46]));
    assert!(is_known_compressed_format(&vec![0x00, 0x25, 0x50, 0x44, 0x46, 0x2d]));
}

#[test]
fn empty_window_is_not_known() {
    assert!(!is_known_compressed_format(&Vec::new()));
}

#[test]
fn substring_search() {
    assert!(contains_slice(&[1, 2, 3, 4], &[3, 4]));
    assert!(!contains_slice(&[1, 2, 3, 4], &[4, 5]));
    assert!(contains_slice(&[1, 2], &[]));
    assert!(!contains_slice(&[1], &[1, 1]));
}
