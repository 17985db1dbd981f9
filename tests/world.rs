use boxfractal::{BoxRef, Component, World};

fn world_with(n: u32) -> (World<u32, &'static str>, Vec<BoxRef>) {
    let mut w = World::new();
    let mut refs = Vec::new();
    for g in 0..n {
        refs.push(w.create_box(g).unwrap());
    }
    (w, refs)
}

#[test]
fn new_world_is_empty_and_idle() {
    let w: World<u32, ()> = World::new();
    assert_eq!(w.len(), 0);
    assert_eq!(w.depth(), 0);
    assert_eq!(w.selection(), None);
    assert!(!w.is_dragging());
    assert!(w.wireframes_enabled());
}

#[test]
fn created_boxes_get_fresh_ids_in_order() {
    let (w, refs) = world_with(3);
    assert_eq!(w.len(), 3);
    assert_eq!(refs, vec![BoxRef { uid: 0 }, BoxRef { uid: 1 }, BoxRef { uid: 2 }]);
    for (i, r) in refs.iter().enumerate() {
        let c = w.get(*r).unwrap();
        assert_eq!(c.geometry, i as u32);
        assert!(!c.hovered);
        assert_eq!(w.component_at(i).handle(), *r);
    }
}

#[test]
fn boxes_with_identical_fields_are_not_equal() {
    let mut w: World<u32, ()> = World::new();
    let a = w.create_box(7).unwrap();
    let b = w.create_box(7).unwrap();
    assert_ne!(a, b);
    let ca = w.get(a).unwrap();
    let cb = w.get(b).unwrap();
    assert_eq!(ca.geometry, cb.geometry);
    assert_eq!(ca.hovered, cb.hovered);
    assert!(*ca != *cb);
    assert!(*ca == *w.get(a).unwrap());
}

#[test]
fn box_equality_ignores_geometry() {
    let mut w: World<u32, ()> = World::new();
    let a = w.create_box(1).unwrap();
    let before = w.get(a).unwrap().geometry;
    assert!(w.set_geometry(a, 2));
    assert_eq!(before, 1);
    assert_eq!(w.get(a).unwrap().geometry, 2);
    assert_eq!(w.get(a).unwrap().handle(), a);
}

#[test]
fn press_on_box_selects_and_drags() {
    let (mut w, refs) = world_with(2);
    w.on_press(Some((refs[1], "snapshot")));
    assert_eq!(w.selection(), Some(refs[1]));
    assert!(w.is_dragging());
    let (r, d) = w.drag().unwrap();
    assert_eq!(r, refs[1]);
    assert_eq!(*d, "snapshot");
}

#[test]
fn release_ends_drag_but_keeps_selection() {
    let (mut w, refs) = world_with(2);
    w.on_press(Some((refs[0], "s")));
    w.on_release();
    assert!(!w.is_dragging());
    assert!(w.drag().is_none());
    assert_eq!(w.selection(), Some(refs[0]));
}

#[test]
fn press_on_nothing_goes_idle() {
    let (mut w, refs) = world_with(2);
    w.on_press(Some((refs[0], "s")));
    w.on_press(None);
    assert_eq!(w.selection(), None);
    assert!(!w.is_dragging());
}

#[test]
fn deselect_clears_selection_and_drag() {
    let (mut w, refs) = world_with(1);
    w.on_press(Some((refs[0], "s")));
    w.deselect();
    assert_eq!(w.selection(), None);
    assert!(!w.is_dragging());
    assert_eq!(w.len(), 1);
}

#[test]
fn delete_selected_goes_idle_and_handle_dies() {
    let (mut w, refs) = world_with(3);
    w.take_dirty();
    w.on_press(Some((refs[1], "s")));
    w.delete_selected();
    assert_eq!(w.selection(), None);
    assert!(!w.is_dragging());
    assert!(w.drag().is_none());
    assert!(w.get(refs[1]).is_none());
    assert_eq!(w.len(), 2);
    assert_eq!(w.component_at(0).handle(), refs[0]);
    assert_eq!(w.component_at(1).handle(), refs[2]);
    assert!(w.take_dirty());
    // a press through the stale handle changes nothing
    w.on_press(Some((refs[1], "s")));
    assert_eq!(w.selection(), None);
    assert!(!w.set_geometry(refs[1], 9));
}

#[test]
fn delete_without_selection_keeps_boxes() {
    let (mut w, _refs) = world_with(2);
    w.take_dirty();
    w.delete_selected();
    assert_eq!(w.len(), 2);
    assert!(!w.take_dirty());
}

#[test]
fn ids_are_not_reused_after_delete() {
    let (mut w, refs) = world_with(2);
    w.on_press(Some((refs[1], "s")));
    w.delete_selected();
    let c = w.create_box(5).unwrap();
    assert_eq!(c, BoxRef { uid: 2 });
    assert!(w.get(refs[1]).is_none());
}

#[test]
fn depth_steps_and_floor() {
    let mut w: World<u32, ()> = World::new();
    w.take_dirty();
    w.decrease_depth();
    assert_eq!(w.depth(), 0);
    assert!(!w.take_dirty());
    w.increase_depth();
    w.increase_depth();
    assert_eq!(w.depth(), 2);
    assert!(w.take_dirty());
    w.decrease_depth();
    assert_eq!(w.depth(), 1);
    w.set_depth(1);
    assert!(w.take_dirty());
    w.set_depth(1);
    assert!(!w.take_dirty());
    w.set_depth(4);
    assert_eq!(w.depth(), 4);
    assert!(w.take_dirty());
}

#[test]
fn edits_mark_render_set_due() {
    let mut w: World<u32, ()> = World::new();
    assert!(w.take_dirty());
    assert!(!w.take_dirty());
    let a = w.create_box(0).unwrap();
    assert!(w.take_dirty());
    assert!(w.set_geometry(a, 3));
    assert!(w.take_dirty());
    w.update_hover(Some(a));
    assert!(!w.take_dirty());
}

#[test]
fn toggle_wireframes_flips() {
    let mut w: World<u32, ()> = World::new();
    w.toggle_wireframes();
    assert!(!w.wireframes_enabled());
    w.toggle_wireframes();
    assert!(w.wireframes_enabled());
}

#[test]
fn hover_marks_exactly_the_hit() {
    let (mut w, refs) = world_with(3);
    w.update_hover(Some(refs[2]));
    assert!(!w.get(refs[0]).unwrap().hovered);
    assert!(!w.get(refs[1]).unwrap().hovered);
    assert!(w.get(refs[2]).unwrap().hovered);
    w.update_hover(Some(refs[0]));
    assert!(w.get(refs[0]).unwrap().hovered);
    assert!(!w.get(refs[2]).unwrap().hovered);
    w.update_hover(None);
    for r in &refs {
        assert!(!w.get(*r).unwrap().hovered);
    }
}

#[test]
fn translation_waits_for_drag_to_end() {
    let (mut w, refs) = world_with(2);
    assert_eq!(w.translation_target(), None);
    w.on_press(Some((refs[0], "s")));
    assert_eq!(w.translation_target(), None);
    w.on_release();
    assert_eq!(w.translation_target(), Some(refs[0]));
    w.deselect();
    assert_eq!(w.translation_target(), None);
}

#[test]
fn component_equality_is_by_id() {
    let a = Component::new(3, 1.0f32);
    let mut b = Component::new(3, 2.0f32);
    b.hovered = true;
    let c = Component::new(4, 1.0f32);
    assert!(a == b);
    assert!(a != c);
    assert_eq!(a.handle(), BoxRef { uid: 3 });
}
