use vstd::prelude::*;

use crate::fractal::{index_tuples, power, tuple_at};

verus! {

/// A non-owning handle to a box of a world: the box's unique id.
///
/// A handle never dangles: once its box is deleted, looking it up yields
/// nothing, because ids are never handed out twice.
#[derive(Clone, Copy, Debug, PartialEq, Eq, Structural)]
pub struct BoxRef {
    pub uid: u64,
}

/// One placeable cuboid: its geometry (kept opaque here), whether the cursor
/// ray currently hovers it, and the id that identifies it.
pub struct Component<G> {
    pub geometry: G,
    pub hovered: bool,
    pub uid: u64,
}

impl<G> Component<G> {
    /// A box with the given id and geometry, not hovered.
    pub fn new(uid: u64, geometry: G) -> (r: Self)
        ensures
            r.uid == uid,
            r.geometry == geometry,
            !r.hovered,
    {
        Component { geometry, hovered: false, uid }
    }

    /// The handle by which the world refers to this box.
    pub fn handle(&self) -> (r: BoxRef)
        ensures
            r == (BoxRef { uid: self.uid }),
    {
        BoxRef { uid: self.uid }
    }
}

/// Two boxes are the same box exactly when their ids agree, whatever their
/// fields hold: a box is edited in place and compared with earlier views of
/// itself.
impl<G> PartialEq for Component<G> {
    fn eq(&self, other: &Self) -> (r: bool)
        ensures
            r == (self.uid == other.uid),
    {
        self.uid == other.uid
    }
}

impl<G> vstd::std_specs::cmp::PartialEqSpecImpl for Component<G> {
    open spec fn obeys_eq_spec() -> bool {
        true
    }

    open spec fn eq_spec(&self, other: &Self) -> bool {
        self.uid == other.uid
    }
}

impl<G> Eq for Component<G> {
}


/// Corners `a` and `b` of the unit cube, with `a < b`, are joined by an edge.
///
/// Corner `c` (below 8) lies at +1/2 along axis `x` when bit `x` of `c` is
/// set and at -1/2 otherwise; an edge joins two corners that differ along
/// exactly one axis.
pub open spec fn is_cube_edge(a: int, b: int) -> bool {
    &&& 0 <= a < b < 8
    &&& (b - a == 1 || b - a == 2 || b - a == 4)
    &&& (a / (b - a)) % 2 == 0
}

/// The edges of the unit cube as pairs of corners, each once, ordered by
/// first and then second corner: its wireframe, before a box's transform.
pub fn unit_cube_edges() -> (r: Vec<(usize, usize)>)
    ensures
        forall|k: int| 0 <= k < r@.len() ==> is_cube_edge(#[trigger] r@[k].0 as int, r@[k].1 as int),
        forall|a: int, b: int| #[trigger] is_cube_edge(a, b) ==> exists|k: int|
            0 <= k < r@.len() && #[trigger] r@[k] == (a as usize, b as usize),
        forall|k: int, l: int| 0 <= k < l < r@.len() ==> r@[k].0 * 8 + r@[k].1 < r@[l].0 * 8 + r@[l].1,
{
    assert(power(8, 0) == 1 && power(8, 1) == 8 && power(8, 2) == 64);
    let pairs = index_tuples(8, 2);
    let mut edges: Vec<(usize, usize)> = Vec::new();
    let mut i: usize = 0;
    while i < pairs.len()
        invariant
            pairs@.len() == 64,
            forall|m: int| 0 <= m < 64 ==> (#[trigger] pairs@[m])@.map_values(|x: usize| x as int)
                == tuple_at(8, 2, m as nat),
            i <= 64,
            forall|k: int| 0 <= k < edges@.len() ==> is_cube_edge(#[trigger] edges@[k].0 as int, edges@[k].1 as int),
            forall|k: int| 0 <= k < edges@.len() ==> #[trigger] edges@[k].0 * 8 + edges@[k].1 < i,
            forall|a: int, b: int| #[trigger] is_cube_edge(a, b) && a * 8 + b < i ==> exists|k: int|
                0 <= k < edges@.len() && #[trigger] edges@[k] == (a as usize, b as usize),
            forall|k: int, l: int| 0 <= k < l < edges@.len() ==> edges@[k].0 * 8 + edges@[k].1 < edges@[l].0 * 8 + edges@[l].1,
        decreases 64 - i,
    {
        let pair = &pairs[i];
        proof {
            let t = tuple_at(8, 2, i as nat);
            assert(t == tuple_at(8, 1, (i / 8) as nat).push((i % 8) as int));
            assert(tuple_at(8, 1, (i / 8) as nat) == tuple_at(8, 0, ((i / 8) as nat / 8) as nat).push(((i / 8) as nat % 8) as int));
            assert(t.len() == 2 && t[0] == i / 8 && t[1] == i % 8);
            assert(pair@.map_values(|x: usize| x as int)[0] == pair@[0] as int);
            assert(pair@.map_values(|x: usize| x as int)[1] == pair@[1] as int);
        }
        let a = pair[0];
        let b = pair[1];
        let ghost before = edges@;
        if a < b && (b - a == 1 || b - a == 2 || b - a == 4) && (a / (b - a)) % 2 == 0 {
            edges.push((a, b));
        }
        proof {
            assert forall|x: int, y: int| #[trigger] is_cube_edge(x, y) && x * 8 + y < i + 1 implies exists|k: int|
                0 <= k < edges@.len() && #[trigger] edges@[k] == (x as usize, y as usize) by {
                if x * 8 + y < i {
                    let k = choose|k: int| 0 <= k < before.len() && before[k] == (x as usize, y as usize);
                    assert(edges@[k] == before[k]);
                } else {
                    assert(x == a && y == b);
                    assert(edges@[edges@.len() - 1] == (x as usize, y as usize));
                }
            }
        }
        i += 1;
    }
    edges
}

} // verus!
