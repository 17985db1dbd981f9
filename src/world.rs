use vstd::prelude::*;

use vstd::std_specs::cmp::PartialEqSpec;

use crate::component::{BoxRef, Component};

verus! {

/// What a world holds, as mathematics: its boxes in order, the selection and
/// drag snapshot, the next id to hand out, the iteration depth and two flags.
pub struct WorldView<G, D> {
    pub boxes: Seq<Component<G>>,
    pub selection: Option<BoxRef>,
    pub drag: Option<D>,
    pub next_uid: nat,
    pub depth: nat,
    pub dirty: bool,
    pub wireframes: bool,
}

impl<G, D> WorldView<G, D> {
    /// Some box of the world has the handle's id.
    pub open spec fn live(self, r: BoxRef) -> bool {
        exists|i: int| 0 <= i < self.boxes.len() && self.boxes[i].uid == r.uid
    }

    /// The position of the box with the handle's id (meaningful when live).
    pub open spec fn slot(self, r: BoxRef) -> int {
        choose|i: int| 0 <= i < self.boxes.len() && self.boxes[i].uid == r.uid
    }

    /// What the selection resolves to: the selected box, if it still exists.
    pub open spec fn resolved_selection(self) -> Option<BoxRef> {
        match self.selection {
            Some(r) => if self.live(r) { Some(r) } else { None },
            None => None,
        }
    }

    /// Ids are unique and below the next one to hand out; a drag is only
    /// under way on a selected box, and a selected box exists.
    pub open spec fn wf(self) -> bool {
        &&& self.next_uid <= u64::MAX
        &&& forall|i: int| 0 <= i < self.boxes.len() ==> self.boxes[i].uid < self.next_uid
        &&& forall|i: int, j: int|
            0 <= i < self.boxes.len() && 0 <= j < self.boxes.len() && i != j
                ==> self.boxes[i].uid != self.boxes[j].uid
        &&& self.drag.is_some() ==> self.selection.is_some()
        &&& self.selection matches Some(r) ==> self.live(r)
    }

    /// Nothing is selected and nothing is dragged.
    pub open spec fn idle(self) -> bool {
        self.selection.is_none() && self.drag.is_none()
    }
}

/// In a well-formed world the box with a handle's id sits at `slot`, and
/// nowhere else.
pub proof fn lemma_slot_unique<G, D>(w: WorldView<G, D>, r: BoxRef, i: int)
    requires
        w.wf(),
        0 <= i < w.boxes.len(),
        w.boxes[i].uid == r.uid,
    ensures
        w.live(r),
        w.slot(r) == i,
{
    assert(w.live(r));
    let k = w.slot(r);
    assert(0 <= k < w.boxes.len() && w.boxes[k].uid == r.uid);
}

/// Boxes are told apart by id alone: two boxes at different positions of a
/// well-formed world are never equal, whatever their fields hold.
pub proof fn lemma_distinct_boxes_unequal<G, D>(w: WorldView<G, D>, i: int, j: int)
    requires
        w.wf(),
        0 <= i < w.boxes.len(),
        0 <= j < w.boxes.len(),
        i != j,
    ensures
        !w.boxes[i].eq_spec(&w.boxes[j]),
{
}

/// The box that `create_box` adds is equal to no box already in the world,
/// even to one with the very same geometry.
pub proof fn lemma_created_box_is_new<G, D>(w: WorldView<G, D>, geometry: G)
    requires
        w.wf(),
        w.next_uid < u64::MAX,
    ensures
        forall|i: int| 0 <= i < w.boxes.len() ==> !(Component {
            geometry,
            hovered: false,
            uid: w.next_uid as u64,
        }).eq_spec(&#[trigger] w.boxes[i]),
{
}

/// Deleting the selected box leaves the world idle: the selection then
/// resolves to nothing, and the deleted box's handle to no box.
pub proof fn lemma_delete_selected_idles<G, D>(w: WorldView<G, D>, r: BoxRef)
    requires
        w.wf(),
        w.resolved_selection() == Some(r),
    ensures
        ({
            let after = WorldView {
                boxes: w.boxes.remove(w.slot(r)),
                selection: None,
                drag: None,
                dirty: true,
                ..w
            };
            &&& after.wf()
            &&& after.idle()
            &&& after.resolved_selection() is None
            &&& !after.live(r)
        }),
{
    let k = w.slot(r);
    let nb = w.boxes.remove(k);
    assert(0 <= k < w.boxes.len() && w.boxes[k].uid == r.uid);
    assert forall|i: int| 0 <= i < nb.len() implies nb[i].uid != r.uid by {
        let i0 = if i < k { i } else { i + 1 };
        assert(nb[i] == w.boxes[i0]);
    }
    assert forall|a: int, b: int| 0 <= a < nb.len() && 0 <= b < nb.len() && a != b
        implies nb[a].uid != nb[b].uid by {
        let a0 = if a < k { a } else { a + 1 };
        let b0 = if b < k { b } else { b + 1 };
        assert(nb[a] == w.boxes[a0] && nb[b] == w.boxes[b0]);
    }
    assert forall|a: int| 0 <= a < nb.len() implies nb[a].uid < w.next_uid by {
        let a0 = if a < k { a } else { a + 1 };
        assert(nb[a] == w.boxes[a0]);
    }
}

/// The boxes of the editor, the selection and drag state machine over them,
/// and the fractal iteration depth.
///
/// `G` is a box's geometry and colour, `D` the snapshot taken when a drag
/// starts; both belong to the caller, which does the arithmetic on them.
pub struct World<G, D> {
    components: Vec<Component<G>>,
    selection: Option<BoxRef>,
    drag_state: Option<D>,
    next_uid: u64,
    depth: usize,
    dirty: bool,
    wireframes: bool,
}

impl<G, D> View for World<G, D> {
    type V = WorldView<G, D>;

    closed spec fn view(&self) -> WorldView<G, D> {
        WorldView {
            boxes: self.components@,
            selection: self.selection,
            drag: self.drag_state,
            next_uid: self.next_uid as nat,
            depth: self.depth as nat,
            dirty: self.dirty,
            wireframes: self.wireframes,
        }
    }
}

impl<G, D> World<G, D> {
    /// An empty world at depth zero, idle, with wireframes shown and its
    /// render set still to be built.
    pub fn new() -> (r: Self)
        ensures
            r@.wf(),
            r@.boxes.len() == 0,
            r@.idle(),
            r@.next_uid == 0,
            r@.depth == 0,
            r@.dirty,
            r@.wireframes,
    {
        World {
            components: Vec::new(),
            selection: None,
            drag_state: None,
            next_uid: 0,
            depth: 0,
            dirty: true,
            wireframes: true,
        }
    }

    /// The number of boxes.
    pub fn len(&self) -> (r: usize)
        ensures
            r == self@.boxes.len(),
    {
        self.components.len()
    }

    /// The box at position `i`, in the order in which boxes were created.
    pub fn component_at(&self, i: usize) -> (r: &Component<G>)
        requires
            i < self@.boxes.len(),
        ensures
            *r == self@.boxes[i as int],
    {
        &self.components[i]
    }

    /// The position of the box with the handle's id, if it still exists.
    fn find(&self, r: BoxRef) -> (res: Option<usize>)
        requires
            self@.wf(),
        ensures
            match res {
                Some(i) => i < self@.boxes.len() && self@.live(r) && self@.slot(r) == i,
                None => !self@.live(r),
            },
    {
        let mut i: usize = 0;
        while i < self.components.len()
            invariant
                self@.wf(),
                i <= self.components@.len(),
                forall|j: int| 0 <= j < i ==> self.components@[j].uid != r.uid,
            decreases self.components@.len() - i,
        {
            if self.components[i].uid == r.uid {
                proof {
                    lemma_slot_unique(self@, r, i as int);
                }
                return Some(i);
            }
            i += 1;
        }
        None
    }

    /// Looks a handle up: the box, or nothing once it has been deleted.
    pub fn get(&self, r: BoxRef) -> (res: Option<&Component<G>>)
        requires
            self@.wf(),
        ensures
            res is None <==> !self@.live(r),
            res matches Some(c) ==> *c == self@.boxes[self@.slot(r)] && c.uid == r.uid,
    {
        match self.find(r) {
            Some(i) => Some(&self.components[i]),
            None => None,
        }
    }

    /// Adds a box with the given geometry under a fresh id, after all the
    /// others. Nothing else changes but the render set, which is due again.
    /// Only when all 2^64 ids have been handed out is no box added.
    pub fn create_box(&mut self, geometry: G) -> (res: Option<BoxRef>)
        requires
            old(self)@.wf(),
        ensures
            final(self)@.wf(),
            old(self)@.next_uid < u64::MAX ==> {
                &&& res == Some(BoxRef { uid: old(self)@.next_uid as u64 })
                &&& final(self)@ == (WorldView {
                    boxes: old(self)@.boxes.push(
                        Component { geometry, hovered: false, uid: old(self)@.next_uid as u64 },
                    ),
                    next_uid: old(self)@.next_uid + 1,
                    dirty: true,
                    ..old(self)@
                })
            },
            old(self)@.next_uid == u64::MAX ==> res is None && final(self)@ == old(self)@,
            forall|q: BoxRef| #[trigger] final(self)@.live(q) <==> (old(self)@.live(q) || res == Some(q)),
    {
        if self.next_uid == u64::MAX {
            return None;
        }
        let uid = self.next_uid;
        self.components.push(Component::new(uid, geometry));
        self.next_uid = uid + 1;
        self.dirty = true;
        proof {
            let n = old(self)@.boxes.len() as int;
            assert forall|r: BoxRef| #[trigger] final(self)@.live(r) <==> (old(self)@.live(r) || r == BoxRef { uid }) by {
                if old(self)@.live(r) {
                    let k = old(self)@.slot(r);
                    assert(final(self)@.boxes[k] == old(self)@.boxes[k]);
                }
                if r == (BoxRef { uid }) {
                    assert(final(self)@.boxes[n].uid == uid);
                }
                if final(self)@.live(r) && r != (BoxRef { uid }) {
                    let k = final(self)@.slot(r);
                    if k < n {
                        assert(final(self)@.boxes[k] == old(self)@.boxes[k]);
                    }
                }
            }
        }
        Some(BoxRef { uid })
    }

    /// Replaces the geometry of the box behind the handle, and marks the
    /// render set as due. A handle whose box is gone changes nothing.
    pub fn set_geometry(&mut self, r: BoxRef, geometry: G) -> (done: bool)
        requires
            old(self)@.wf(),
        ensures
            final(self)@.wf(),
            done == old(self)@.live(r),
            done ==> final(self)@ == (WorldView {
                boxes: old(self)@.boxes.update(
                    old(self)@.slot(r),
                    Component { geometry, ..old(self)@.boxes[old(self)@.slot(r)] },
                ),
                dirty: true,
                ..old(self)@
            }),
            !done ==> final(self)@ == old(self)@,
            forall|q: BoxRef| #[trigger] final(self)@.live(q) == old(self)@.live(q),
    {
        match self.find(r) {
            Some(i) => {
                self.components[i].geometry = geometry;
                self.dirty = true;
                proof {
                    assert forall|q: BoxRef| #[trigger] final(self)@.live(q) == old(self)@.live(q) by {
                        if old(self)@.live(q) {
                            let k = old(self)@.slot(q);
                            assert(final(self)@.boxes[k].uid == old(self)@.boxes[k].uid);
                        }
                        if final(self)@.live(q) {
                            let k = final(self)@.slot(q);
                            assert(final(self)@.boxes[k].uid == old(self)@.boxes[k].uid);
                        }
                    }
                }
                true
            },
            None => false,
        }
    }

    /// What the selection resolves to: the selected box, or nothing if there
    /// is none or it has been deleted.
    pub fn selection(&self) -> (res: Option<BoxRef>)
        requires
            self@.wf(),
        ensures
            res == self@.resolved_selection(),
    {
        match self.selection {
            Some(r) => match self.find(r) {
                Some(_) => Some(r),
                None => None,
            },
            None => None,
        }
    }

    /// A drag is under way.
    pub fn is_dragging(&self) -> (res: bool)
        ensures
            res == self@.drag.is_some(),
    {
        self.drag_state.is_some()
    }

    /// The dragged box and the snapshot taken when the drag started, while a
    /// drag is under way on a box that still exists.
    pub fn drag(&self) -> (res: Option<(BoxRef, &D)>)
        requires
            self@.wf(),
        ensures
            match res {
                Some((r, d)) => self@.resolved_selection() == Some(r) && self@.drag == Some(*d),
                None => self@.resolved_selection() is None || self@.drag is None,
            },
    {
        match (&self.drag_state, self.selection()) {
            (Some(d), Some(r)) => Some((r, d)),
            _ => None,
        }
    }

    /// The box that a translation edit moves: the selected box, except while
    /// a drag holds its position.
    pub fn translation_target(&self) -> (res: Option<BoxRef>)
        requires
            self@.wf(),
        ensures
            res == if self@.drag is Some { None } else { self@.resolved_selection() },
    {
        if self.drag_state.is_some() {
            None
        } else {
            self.selection()
        }
    }

    /// A press of the pointer. `hit` is the box under the cursor, if any,
    /// with the snapshot that a drag of it starts from.
    ///
    /// A hit on an existing box selects it and starts dragging it; a press
    /// that hits nothing leaves the world idle. A hit on a handle whose box is
    /// gone changes nothing.
    pub fn on_press(&mut self, hit: Option<(BoxRef, D)>)
        requires
            old(self)@.wf(),
        ensures
            final(self)@.wf(),
            match hit {
                Some((r, d)) => if old(self)@.live(r) {
                    final(self)@ == (WorldView { selection: Some(r), drag: Some(d), ..old(self)@ })
                } else {
                    final(self)@ == old(self)@
                },
                None => final(self)@ == (WorldView { selection: None, drag: None, ..old(self)@ }),
            },
    {
        match hit {
            Some((r, d)) => {
                if self.find(r).is_some() {
                    self.selection = Some(r);
                    self.drag_state = Some(d);
                }
            },
            None => {
                self.selection = None;
                self.drag_state = None;
            },
        }
    }

    /// Release of the pointer: the drag ends, the selection stays.
    pub fn on_release(&mut self)
        requires
            old(self)@.wf(),
        ensures
            final(self)@.wf(),
            final(self)@ == (WorldView { drag: None, ..old(self)@ }),
    {
        self.drag_state = None;
    }

    /// Clears the selection and any drag.
    pub fn deselect(&mut self)
        requires
            old(self)@.wf(),
        ensures
            final(self)@.wf(),
            final(self)@ == (WorldView { selection: None, drag: None, ..old(self)@ }),
    {
        self.selection = None;
        self.drag_state = None;
    }

    /// Removes the selected box, if any; the others keep their order. The
    /// world is idle afterwards, and the render set is due when a box went.
    pub fn delete_selected(&mut self)
        requires
            old(self)@.wf(),
        ensures
            final(self)@.wf(),
            match old(self)@.resolved_selection() {
                Some(r) => final(self)@ == (WorldView {
                    boxes: old(self)@.boxes.remove(old(self)@.slot(r)),
                    selection: None,
                    drag: None,
                    dirty: true,
                    ..old(self)@
                }),
                None => final(self)@ == (WorldView { selection: None, drag: None, ..old(self)@ }),
            },
            forall|q: BoxRef| #[trigger] final(self)@.live(q) <==> (old(self)@.live(q)
                && old(self)@.resolved_selection() != Some(q)),
    {
        let selected = self.selection;
        self.selection = None;
        self.drag_state = None;
        if let Some(r) = selected {
            if let Some(i) = self.find(r) {
                let _gone = self.components.remove(i);
                self.dirty = true;
                proof {
                    let ob = old(self)@.boxes;
                    let nb = self.components@;
                    assert forall|a: int, b: int|
                        0 <= a < nb.len() && 0 <= b < nb.len() && a != b
                        implies nb[a].uid != nb[b].uid by {
                        let a0 = if a < i { a } else { a + 1 };
                        let b0 = if b < i { b } else { b + 1 };
                        assert(nb[a] == ob[a0] && nb[b] == ob[b0]);
                    }
                    assert forall|a: int| 0 <= a < nb.len() implies nb[a].uid < self.next_uid by {
                        let a0 = if a < i { a } else { a + 1 };
                        assert(nb[a] == ob[a0]);
                    }
                    assert(ob[i as int].uid == r.uid);
                    assert forall|q: BoxRef| #[trigger] self@.live(q) implies old(self)@.live(q) && q != r by {
                        let a = self@.slot(q);
                        let a0 = if a < i { a } else { a + 1 };
                        assert(nb[a] == ob[a0]);
                        assert(ob[a0].uid == q.uid);
                        assert(a0 != i);
                        assert(q.uid != r.uid);
                    }
                    assert forall|q: BoxRef| old(self)@.live(q) && q != r implies #[trigger] self@.live(q) by {
                        let a0 = old(self)@.slot(q);
                        assert(ob[a0].uid == q.uid);
                        assert(q.uid != r.uid);
                        assert(a0 != i);
                        let a = if a0 < i { a0 } else { a0 - 1 };
                        assert(nb[a] == ob[a0]);
                        assert(nb[a].uid == q.uid);
                        assert(0 <= a < self@.boxes.len() && self@.boxes[a].uid == q.uid);
                    }
                }
            }
        }
    }


    /// The iteration depth of the fractal.
    pub fn depth(&self) -> (r: usize)
        ensures
            r == self@.depth,
    {
        self.depth
    }

    /// Sets the iteration depth; the render set is due when it changed.
    pub fn set_depth(&mut self, depth: usize)
        requires
            old(self)@.wf(),
        ensures
            final(self)@.wf(),
            final(self)@ == (WorldView {
                depth: depth as nat,
                dirty: old(self)@.dirty || depth != old(self)@.depth,
                ..old(self)@
            }),
    {
        if depth != self.depth {
            self.depth = depth;
            self.dirty = true;
        }
    }

    /// One more level of iteration (none past the largest `usize`).
    pub fn increase_depth(&mut self)
        requires
            old(self)@.wf(),
        ensures
            final(self)@.wf(),
            old(self)@.depth < usize::MAX ==> final(self)@ == (WorldView {
                depth: old(self)@.depth + 1,
                dirty: true,
                ..old(self)@
            }),
            old(self)@.depth == usize::MAX ==> final(self)@ == old(self)@,
    {
        if self.depth < usize::MAX {
            self.set_depth(self.depth + 1);
        }
    }

    /// One level of iteration less; at depth zero nothing happens.
    pub fn decrease_depth(&mut self)
        requires
            old(self)@.wf(),
        ensures
            final(self)@.wf(),
            old(self)@.depth > 0 ==> final(self)@ == (WorldView {
                depth: (old(self)@.depth - 1) as nat,
                dirty: true,
                ..old(self)@
            }),
            old(self)@.depth == 0 ==> final(self)@ == old(self)@,
    {
        if self.depth > 0 {
            self.set_depth(self.depth - 1);
        }
    }

    /// Whether box wireframes are drawn.
    pub fn wireframes_enabled(&self) -> (r: bool)
        ensures
            r == self@.wireframes,
    {
        self.wireframes
    }

    /// Shows the wireframes if they were hidden, hides them otherwise.
    pub fn toggle_wireframes(&mut self)
        requires
            old(self)@.wf(),
        ensures
            final(self)@.wf(),
            final(self)@ == (WorldView { wireframes: !old(self)@.wireframes, ..old(self)@ }),
    {
        self.wireframes = !self.wireframes;
    }

    /// Whether the render set is due, clearing the mark: the boxes or the
    /// depth changed since the last call.
    pub fn take_dirty(&mut self) -> (r: bool)
        requires
            old(self)@.wf(),
        ensures
            final(self)@.wf(),
            r == old(self)@.dirty,
            final(self)@ == (WorldView { dirty: false, ..old(self)@ }),
    {
        let r = self.dirty;
        self.dirty = false;
        r
    }

    /// Marks exactly the box under the cursor, if any, as hovered, and every
    /// other box as not hovered. Nothing else changes.
    pub fn update_hover(&mut self, hit: Option<BoxRef>)
        requires
            old(self)@.wf(),
        ensures
            final(self)@.wf(),
            final(self)@.boxes.len() == old(self)@.boxes.len(),
            forall|i: int| 0 <= i < old(self)@.boxes.len() ==> #[trigger] final(self)@.boxes[i] == (
                Component {
                    hovered: hit == Some(BoxRef { uid: old(self)@.boxes[i].uid }),
                    ..old(self)@.boxes[i]
                }),
            final(self)@ == (WorldView { boxes: final(self)@.boxes, ..old(self)@ }),
            forall|q: BoxRef| #[trigger] final(self)@.live(q) == old(self)@.live(q),
    {
        let n = self.components.len();
        let mut i: usize = 0;
        while i < n
            invariant
                n == old(self)@.boxes.len(),
                i <= n,
                self.components@.len() == n,
                forall|j: int| 0 <= j < i ==> #[trigger] self.components@[j] == (Component {
                    hovered: hit == Some(BoxRef { uid: old(self)@.boxes[j].uid }),
                    ..old(self)@.boxes[j]
                }),
                forall|j: int| i <= j < n ==> #[trigger] self.components@[j] == old(self)@.boxes[j],
                self@ == (WorldView { boxes: self@.boxes, ..old(self)@ }),
            decreases n - i,
        {
            let h = self.components[i].handle();
            self.components[i].hovered = hit == Some(h);
            i += 1;
        }
        proof {
            let ob = old(self)@.boxes;
            let nb = self.components@;
            assert forall|r: BoxRef| #[trigger] self@.live(r) == old(self)@.live(r) by {
                if old(self)@.live(r) {
                    let k = old(self)@.slot(r);
                    assert(nb[k].uid == ob[k].uid);
                }
                if self@.live(r) {
                    let k = self@.slot(r);
                    assert(nb[k].uid == ob[k].uid);
                }
            }
            assert forall|a: int, b: int|
                0 <= a < nb.len() && 0 <= b < nb.len() && a != b implies nb[a].uid != nb[b].uid by {
                assert(nb[a].uid == ob[a].uid && nb[b].uid == ob[b].uid);
            }
            assert forall|a: int| 0 <= a < nb.len() implies nb[a].uid < self.next_uid by {
                assert(nb[a].uid == ob[a].uid);
            }
        }
    }

}

} // verus!
