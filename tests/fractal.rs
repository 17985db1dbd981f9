use boxfractal::{candidate_count, render_set, unit_cube_edges, RenderSet, MAX_CUBES};

#[test]
fn depth_zero_renders_base_boxes() {
    assert!(matches!(render_set(3, 0), RenderSet::Base));
    assert!(matches!(render_set(0, 0), RenderSet::Base));
}

#[test]
fn depth_one_lists_all_pairs_in_order() {
    match render_set(2, 1) {
        RenderSet::Full(v) => {
            assert_eq!(v, vec![vec![0, 0], vec![0, 1], vec![1, 0], vec![1, 1]]);
        }
        _ => panic!("expected full boxes"),
    }
}

#[test]
fn combination_count_is_power() {
    match render_set(3, 2) {
        RenderSet::Full(v) => {
            assert_eq!(v.len(), 27);
            assert_eq!(v[0], vec![0, 0, 0]);
            assert_eq!(v[5], vec![0, 1, 2]);
            assert_eq!(v[26], vec![2, 2, 2]);
        }
        _ => panic!("expected full boxes"),
    }
}

#[test]
fn single_box_has_one_combination() {
    match render_set(1, 4) {
        RenderSet::Full(v) => assert_eq!(v, vec![vec![0, 0, 0, 0, 0]]),
        _ => panic!("expected full boxes"),
    }
}

#[test]
fn no_boxes_give_no_combinations() {
    match render_set(0, 3) {
        RenderSet::Full(v) => assert!(v.is_empty()),
        _ => panic!("expected full boxes"),
    }
}

#[test]
fn under_ceiling_is_full() {
    // 2^10 = 1024 <= 2000
    match render_set(2, 9) {
        RenderSet::Full(v) => assert_eq!(v.len(), 1024),
        _ => panic!("expected full boxes"),
    }
}

#[test]
fn over_ceiling_is_point_cloud() {
    // 2^11 = 2048 > 2000
    match render_set(2, 10) {
        RenderSet::PointCloud(v) => {
            assert_eq!(v.len(), 2048);
            assert!(v.len() > MAX_CUBES);
            assert_eq!(v[2047], vec![1; 11]);
        }
        _ => panic!("expected a point cloud"),
    }
    // 3^7 = 2187 > 2000
    match render_set(3, 6) {
        RenderSet::PointCloud(v) => assert_eq!(v.len(), 2187),
        _ => panic!("expected a point cloud"),
    }
}

#[test]
fn candidate_counts() {
    assert_eq!(candidate_count(3, 2), Some(27));
    assert_eq!(candidate_count(5, 0), Some(5));
    assert_eq!(candidate_count(0, 7), Some(0));
    assert_eq!(candidate_count(1, usize::MAX), Some(1));
    assert_eq!(candidate_count(10, 30), None);
    assert_eq!(candidate_count(2, 63), None);
    assert_eq!(candidate_count(2, 62), Some(1usize << 63));
}

#[test]
fn unit_cube_has_twelve_edges() {
    let edges = unit_cube_edges();
    assert_eq!(
        edges,
        vec![
            (0, 1), (0, 2), (0, 4), (1, 3), (1, 5), (2, 3),
            (2, 6), (3, 7), (4, 5), (4, 6), (5, 7), (6, 7),
        ]
    );
    for (a, b) in edges {
        assert_eq!((a ^ b).count_ones(), 1);
    }
}

#[test]
fn every_combination_appears_once() {
    let n = 3usize;
    let k = 4usize;
    match render_set(n, k - 1) {
        RenderSet::Full(v) => {
            assert_eq!(v.len(), 81);
            let mut seen = std::collections::HashSet::new();
            for t in &v {
                assert_eq!(t.len(), k);
                assert!(t.iter().all(|&x| x < n));
                assert!(seen.insert(t.clone()));
            }
            let mut sorted = v.clone();
            sorted.sort();
            assert_eq!(sorted, v);
        }
        _ => panic!("expected full boxes"),
    }
}
