use cryptosift::ranked::{Candidate, RankedSet};

fn cand(offset: usize, score: u32) -> Candidate {
    Candidate { offset, bytes: vec![offset as u8], score }
}

fn scores(v: &[Candidate]) -> Vec<u32> {
    v.iter().map(|c| c.score).collect()
}

#[test]
fn insert_keeps_descending_order() {
    let mut set = RankedSet::new(10);
    for (i, s) in [5u32, 9, 1, 7, 3].iter().enumerate() {
        set.insert(cand(i, *s));
    }
    assert_eq!(set.len(), 5);
    assert_eq!(scores(&set.into_vec()), vec![9, 7, 5, 3, 1]);
}

#[test]
fn capacity_keeps_top_scores() {
    let mut set = RankedSet::new(3);
    for (i, s) in [4u32, 8, 2, 10, 6, 1, 9].iter().enumerate() {
        set.insert(cand(i, *s));
    }
    assert_eq!(set.capacity(), 3);
    assert_eq!(scores(&set.into_vec()), vec![10, 9, 8]);
}

#[test]
fn ties_keep_insertion_order() {
    let mut set = RankedSet::new(4);
    set.insert(cand(0, 5));
    set.insert(cand(1, 5));
    set.insert(cand(2, 7));
    set.insert(cand(3, 5));
    let offsets: Vec<usize> = set.into_vec().iter().map(|c| c.offset).collect();
    assert_eq!(offsets, vec![2, 0, 1, 3]);
}

#[test]
fn full_set_drops_equal_newcomer() {
    let mut set = RankedSet::new(2);
    set.insert(cand(0, 5));
    set.insert(cand(1, 5));
    set.insert(cand(2, 5));
    let offsets: Vec<usize> = set.into_vec().iter().map(|c| c.offset).collect();
    assert_eq!(offsets, vec![0, 1]);
}

#[test]
fn zero_capacity_keeps_nothing() {
    let mut set = RankedSet::new(0);
    set.insert(cand(0, 5));
    assert_eq!(set.len(), 0);
}

#[test]
fn any_order_gives_same_top_scores() {
    let orders: [[u32; 6]; 3] = [[1, 2, 3, 4, 5, 6], [6, 5, 4, 3, 2, 1], [3, 6, 1, 5, 2, 4]];
    for order in orders.iter() {
        let mut set = RankedSet::new(4);
        for (i, s) in order.iter().enumerate() {
            set.insert(cand(i, *s));
        }
        assert_eq!(scores(&set.into_vec()), vec![6, 5, 4, 3]);
    }
}
