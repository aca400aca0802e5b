use cryptosift::aes::expand_key_schedule;
use cryptosift::coordinator::{
    filter_potential_keys, merge_candidates, partition_bounds, plan_scan, ScanError,
    GLOBAL_CAPACITY, PARTITION_COUNT, SEAM_MARGIN,
};
use cryptosift::entropy::byte_histogram;
use cryptosift::ranked::Candidate;
use cryptosift::scanner::{
    filter_memory_dump, window_offsets, window_total, ScanConfig, DEFAULT_CHUNK_SIZE,
    DEFAULT_STRIDE, ENTROPY_THRESHOLD, SCAN_CAPACITY,
};

fn entropy(window: &[u8]) -> f64 {
    let counts = byte_histogram(window);
    let n = window.len() as f64;
    let mut h = 0.0f64;
    for c in counts {
        if c > 0 {
            let p = c as f64 / n;
            h -= p * p.log2();
        }
    }
    h
}

fn scores(region: &[u8], cfg: &ScanConfig) -> Vec<u32> {
    window_offsets(region.len(), cfg)
        .iter()
        .map(|&off| (entropy(&region[off..off + cfg.chunk_size]) * 1_000_000.0).round() as u32)
        .collect()
}

fn scan(region: &[u8], cfg: &ScanConfig) -> Vec<Candidate> {
    let s = scores(region, cfg);
    filter_memory_dump(region, cfg, &s)
}

fn marker() -> Vec<u8> {
    let mut m: Vec<u8> = (0x40u8..0x60).collect();
    m[20] = m[10];
    m
}

fn stage_one(buf: &[u8], cfg: &ScanConfig) -> (Vec<Vec<Candidate>>, Vec<Vec<Candidate>>) {
    let plan = plan_scan(buf.len(), cfg).unwrap();
    let parts = plan.partitions.iter().map(|&(a, b)| scan(&buf[a..b], cfg)).collect();
    let seams = plan.seams.iter().map(|&(a, b)| scan(&buf[a..b], cfg)).collect();
    (parts, seams)
}

#[test]
fn uniform_and_constant_entropy() {
    assert_eq!(entropy(&[7u8; 64]), 0.0);
    let all: Vec<u8> = (0..=255u8).chain(0..=255u8).collect();
    assert!((entropy(&all) - 8.0).abs() < 1e-9);
}

#[test]
fn histogram_counts_bytes() {
    let counts = byte_histogram(&[1, 1, 2, 255, 1]);
    assert_eq!(counts.len(), 256);
    assert_eq!(counts[1], 3);
    assert_eq!(counts[2], 1);
    assert_eq!(counts[255], 1);
    assert_eq!(counts[0], 0);
}

#[test]
fn config_defaults() {
    let cfg = ScanConfig::new(None, None);
    assert_eq!(cfg.chunk_size, DEFAULT_CHUNK_SIZE);
    assert_eq!(cfg.stride, DEFAULT_STRIDE);
    assert_eq!(cfg.threshold, ENTROPY_THRESHOLD);
    assert_eq!(cfg.capacity, SCAN_CAPACITY);
    assert!(!cfg.verify_schedule);
    let cfg = ScanConfig::new(Some(32), Some(8));
    assert_eq!((cfg.chunk_size, cfg.stride), (32, 8));
}

#[test]
fn window_offsets_step_by_stride() {
    let cfg = ScanConfig::new(Some(32), Some(4));
    assert_eq!(window_offsets(44, &cfg), vec![0, 4, 8, 12]);
    assert_eq!(window_total(44, &cfg), 4);
    assert_eq!(window_offsets(31, &cfg), Vec::<usize>::new());
    assert_eq!(window_offsets(32, &cfg), vec![0]);
}

#[test]
fn window_offsets_reserve_lookahead() {
    let mut cfg = ScanConfig::new(Some(32), Some(4));
    cfg.verify_schedule = true;
    assert_eq!(window_total(271, &cfg), 0);
    assert_eq!(window_offsets(280, &cfg), vec![0, 4, 8]);
}

#[test]
fn progress_offsets_increase() {
    let cfg = ScanConfig::new(Some(32), Some(4));
    let offs = window_offsets(1000, &cfg);
    assert!(offs.windows(2).all(|p| p[0] < p[1]));
}

#[test]
fn scan_finds_high_entropy_window() {
    let cfg = ScanConfig::new(Some(32), Some(4));
    let mut region = vec![0u8; 200];
    region[64..96].copy_from_slice(&marker());
    let found = scan(&region, &cfg);
    assert_eq!(found.len(), 1);
    assert_eq!(found[0].offset, 64);
    assert_eq!(found[0].bytes, marker());
    assert_eq!(found[0].score, 4_937_500);
}

#[test]
fn scan_skips_signature_windows() {
    let cfg = ScanConfig::new(Some(32), Some(4));
    let mut region = vec![0u8; 200];
    let mut m = marker();
    m[5] = 0x4d;
    m[6] = 0x5a;
    region[64..96].copy_from_slice(&m);
    assert!(scan(&region, &cfg).is_empty());
}

#[test]
fn scan_uses_given_scores_and_threshold() {
    let cfg = ScanConfig::new(Some(4), Some(4));
    let region = vec![1u8, 2, 3, 4, 5, 6, 7, 8, 9, 10, 11, 12];
    let s = vec![4_749_999, 4_750_000, 6_000_000];
    let found = filter_memory_dump(&region, &cfg, &s);
    let offs: Vec<usize> = found.iter().map(|c| c.offset).collect();
    assert_eq!(offs, vec![8, 4]);
    assert_eq!(found[0].bytes, vec![9, 10, 11, 12]);
}

#[test]
fn scan_capacity_limits_results() {
    let mut cfg = ScanConfig::new(Some(2), Some(2));
    cfg.capacity = 2;
    let region = vec![1u8, 2, 3, 4, 5, 6, 7, 8];
    let s = vec![5_000_000, 7_000_000, 6_000_000, 8_000_000];
    let found = filter_memory_dump(&region, &cfg, &s);
    let offs: Vec<usize> = found.iter().map(|c| c.offset).collect();
    assert_eq!(offs, vec![6, 2]);
}

#[test]
fn scan_with_schedule_check() {
    let key: Vec<u8> = (0u8..32).map(|b| b.wrapping_mul(37).wrapping_add(11)).collect();
    let schedule = expand_key_schedule(&key);
    let mut region = schedule.to_vec();
    region.extend(vec![0u8; 40]);
    let mut cfg = ScanConfig::new(Some(32), Some(4));
    cfg.verify_schedule = true;
    let found = scan(&region, &cfg);
    assert!(found.iter().any(|c| c.offset == 0 && c.bytes == key));
    assert!(found.iter().all(|c| c.offset == 0));
}

#[test]
fn plan_refuses_bad_config_and_small_buffer() {
    let cfg = ScanConfig::new(Some(0), None);
    assert_eq!(plan_scan(100_000, &cfg).unwrap_err(), ScanError::InvalidConfig);
    let cfg = ScanConfig::new(Some(32), Some(0));
    assert_eq!(plan_scan(100_000, &cfg).unwrap_err(), ScanError::InvalidConfig);
    let mut cfg = ScanConfig::new(Some(16), None);
    cfg.verify_schedule = true;
    assert_eq!(plan_scan(100_000, &cfg).unwrap_err(), ScanError::InvalidConfig);
    let cfg = ScanConfig::new(Some(32), None);
    assert_eq!(plan_scan(16 * 240 - 1, &cfg).unwrap_err(), ScanError::BufferTooSmall);
    assert!(plan_scan(16 * 240, &cfg).is_ok());
    let mut cfg = ScanConfig::new(Some(32), None);
    cfg.verify_schedule = true;
    assert_eq!(plan_scan(16 * 271, &cfg).unwrap_err(), ScanError::BufferTooSmall);
    assert!(plan_scan(16 * 272, &cfg).is_ok());
}

#[test]
fn plan_partitions_and_seams() {
    let cfg = ScanConfig::new(Some(32), Some(4));
    let plan = plan_scan(16 * 500 + 7, &cfg).unwrap();
    assert_eq!(plan.partitions.len(), PARTITION_COUNT);
    assert_eq!(plan.partitions[0], (0, 500));
    assert_eq!(plan.partitions[1], (500, 1000));
    assert_eq!(plan.partitions[15], (7500, 8007));
    assert_eq!(plan.seams.len(), PARTITION_COUNT - 1);
    assert_eq!(plan.seams[0], (500 - SEAM_MARGIN, 500 + SEAM_MARGIN));
    assert_eq!(plan.seams[14], (7500 - SEAM_MARGIN, 7500 + SEAM_MARGIN));
}

#[test]
fn partition_bounds_of_candidates() {
    assert_eq!(partition_bounds(10, 4), vec![(0, 2), (2, 4), (4, 6), (6, 10)]);
    assert_eq!(partition_bounds(3, 8).len(), 8);
    assert_eq!(partition_bounds(3, 8)[7], (0, 3));
    assert_eq!(partition_bounds(3, 8)[0], (0, 0));
}

#[test]
fn boundary_marker_is_found_by_seam_scan() {
    let cfg = ScanConfig::new(Some(32), Some(4));
    let mut buf = vec![0u8; 16 * 512];
    let seam = 512 * 3;
    buf[seam - 16..seam + 16].copy_from_slice(&marker());
    let (parts, seams) = stage_one(&buf, &cfg);
    assert!(parts.iter().flatten().all(|c| c.bytes != marker()));
    assert!(seams[2].iter().any(|c| c.bytes == marker()));
    let mut all = parts;
    all.extend(seams);
    let merged = merge_candidates(all, GLOBAL_CAPACITY);
    assert!(merged.iter().any(|c| c.bytes == marker()));
}

#[test]
fn single_embedded_region_is_the_only_candidate() {
    let cfg = ScanConfig::new(Some(32), Some(4));
    let mut buf = vec![0u8; 16 * 1024];
    buf[3 * 1024 + 500..3 * 1024 + 532].copy_from_slice(&marker());
    let (parts, seams) = stage_one(&buf, &cfg);
    let mut all = parts;
    all.extend(seams);
    let merged = merge_candidates(all, GLOBAL_CAPACITY);
    assert_eq!(merged.len(), 1);
    assert_eq!(merged[0].bytes, marker());
    assert_eq!(merged[0].offset, 500);
}

#[test]
fn merge_ranks_across_lists() {
    let c = |o: usize, s: u32| Candidate { offset: o, bytes: vec![o as u8], score: s };
    let lists = vec![vec![c(0, 9), c(1, 3)], vec![], vec![c(2, 7), c(3, 9)]];
    let merged = merge_candidates(lists, 3);
    let offs: Vec<usize> = merged.iter().map(|x| x.offset).collect();
    assert_eq!(offs, vec![0, 3, 2]);
}

#[test]
fn stage_two_keeps_candidates_with_schedule() {
    let good: Vec<u8> = (0u8..32).map(|b| b.wrapping_mul(29).wrapping_add(3)).collect();
    let bad: Vec<u8> = (0u8..32).map(|b| b.wrapping_mul(31).wrapping_add(5)).collect();
    let mut buf = vec![0u8; 100];
    buf.extend_from_slice(&expand_key_schedule(&good));
    buf.extend(vec![0u8; 100]);
    let pks = vec![
        Candidate { offset: 1, bytes: bad.clone(), score: 9 },
        Candidate { offset: 2, bytes: good.clone(), score: 8 },
        Candidate { offset: 3, bytes: vec![1, 2, 3], score: 7 },
    ];
    let kept = filter_potential_keys(pks, &buf);
    assert_eq!(kept.len(), 1);
    assert_eq!(kept[0].offset, 2);
    assert_eq!(kept[0].bytes, good);
}
