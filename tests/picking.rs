use boxfractal::{nearest, World};

#[test]
fn pick_on_empty_world_is_none() {
    let w: World<u32, ()> = World::new();
    assert_eq!(w.pick(&Vec::new()), None);
    assert_eq!(nearest(&Vec::new()), None);
}

#[test]
fn pick_returns_the_nearer_box() {
    let mut w: World<u32, ()> = World::new();
    let a = w.create_box(0).unwrap();
    let b = w.create_box(1).unwrap();
    let t1 = 1.5f32.to_bits();
    let t2 = 4.0f32.to_bits();
    assert_eq!(w.pick(&vec![Some(t1), Some(t2)]), Some(a));
    assert_eq!(w.pick(&vec![Some(t2), Some(t1)]), Some(b));
}

#[test]
fn pick_with_no_hit_is_none() {
    let mut w: World<u32, ()> = World::new();
    w.create_box(0).unwrap();
    w.create_box(1).unwrap();
    assert_eq!(w.pick(&vec![None, None]), None);
}

#[test]
fn nearest_skips_misses_and_keeps_first_of_ties() {
    assert_eq!(nearest(&vec![None, Some(9), None, Some(3), Some(3), Some(7)]), Some(3));
    assert_eq!(nearest(&vec![Some(5), Some(5)]), Some(0));
    assert_eq!(nearest(&vec![None, Some(0)]), Some(1));
}

#[test]
fn time_keys_follow_float_order() {
    let times = [0.0f32, 0.25, 1.0, 3.5, 100.0];
    let keys: Vec<Option<u32>> = times.iter().rev().map(|t| Some(t.to_bits())).collect();
    assert_eq!(nearest(&keys), Some(4));
}
