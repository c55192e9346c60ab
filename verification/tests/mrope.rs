use qwen3_asr::mrope::{
    build_contiguous_dim_map, build_interleaved_dim_map, compute_mrope_cos_sin, join_halves,
    rotary_positions,
};

#[test]
fn contiguous_axes() {
    assert_eq!(build_contiguous_dim_map(&[2, 1, 3], 6), vec![0, 0, 1, 2, 2, 2]);
    assert_eq!(build_contiguous_dim_map(&[2, 1, 3], 4), vec![0, 0, 1, 2]);
    // beyond all shares the last axis goes on
    assert_eq!(build_contiguous_dim_map(&[2, 0], 5), vec![0, 0, 1, 1, 1]);
    assert_eq!(build_contiguous_dim_map(&[], 0), Vec::<usize>::new());
}

#[test]
fn alternating_axes() {
    assert_eq!(build_interleaved_dim_map(&[2, 1, 3], 6), vec![0, 1, 2, 0, 2, 2]);
    assert_eq!(build_interleaved_dim_map(&[2, 1, 3], 4), vec![0, 1, 2, 0]);
    // shorter than asked for where the shares are used up
    assert_eq!(build_interleaved_dim_map(&[1, 1], 5), vec![0, 1]);
    assert_eq!(build_interleaved_dim_map(&[], 3), Vec::<usize>::new());
}

#[test]
fn both_maps_give_every_share() {
    let s = [24, 20, 20];
    for m in [build_contiguous_dim_map(&s, 64), build_interleaved_dim_map(&s, 64)] {
        assert_eq!(m.len(), 64);
        for d in 0..3 {
            assert_eq!(m.iter().filter(|&&x| x == d).count(), s[d]);
        }
    }
}

#[test]
fn positions_follow_the_map() {
    let pos = vec![vec![0, 1], vec![10, 11], vec![20, 21]];
    assert_eq!(rotary_positions(&pos, &[0, 2, 1], 3, 2), vec![0, 20, 10, 1, 21, 11]);
}

#[test]
fn halves_lie_side_by_side() {
    let half = [1, 2, 3, 4];
    assert_eq!(join_halves(&half, &half, 2, 4, 0), vec![1, 2, 1, 2, 3, 4, 3, 4]);
    assert_eq!(join_halves(&half, &[5, 6, 7, 8], 2, 4, 0), vec![1, 2, 5, 6, 3, 4, 7, 8]);
    // the odd column stays empty
    assert_eq!(join_halves(&[1, 2], &[3, 4], 2, 3, 0), vec![1, 3, 0, 2, 4, 0]);
}

#[test]
fn alternating_axes_use_up_their_shares() {
    let shares = [3, 0, 2];
    let whole = build_interleaved_dim_map(&shares, 9);
    assert_eq!(whole, vec![0, 2, 0, 2, 0]);
    for t in 0..9 {
        let m = build_interleaved_dim_map(&shares, t);
        assert_eq!(m.len(), t.min(5));
        assert_eq!(m[..], whole[..m.len()]);
        for (d, &share) in shares.iter().enumerate() {
            assert!(m.iter().filter(|&&x| x == d).count() <= share);
        }
    }
}

fn turn(p: i64, j: usize) -> (i64, i64) {
    (100 * p + j as i64, -100 * p - j as i64)
}

#[test]
fn rotary_tables_have_equal_halves() {
    let pos = vec![vec![1, 2], vec![10, 20], vec![5, 6]];
    let (cos, sin) = compute_mrope_cos_sin(&pos, 5, &[1, 1], true, 7, turn);
    assert_eq!(cos, vec![100, 1001, 100, 1001, 7, 200, 2001, 200, 2001, 7]);
    assert_eq!(sin, vec![-100, -1001, -100, -1001, 7, -200, -2001, -200, -2001, 7]);
    let none = vec![vec![], vec![], vec![]];
    assert_eq!(compute_mrope_cos_sin(&none, 4, &[1], false, 7, turn), (vec![], vec![]));
}

#[test]
fn equal_axes_give_one_table() {
    let pos = vec![vec![3, 4, 9]; 3];
    let first = compute_mrope_cos_sin(&pos, 8, &[4], false, 0, turn);
    for ms in [vec![2, 1, 1], vec![0, 4, 0], vec![1, 1, 5]] {
        for il in [false, true] {
            assert_eq!(compute_mrope_cos_sin(&pos, 8, &ms, il, 0, turn), first);
        }
    }
}
