use vstd::prelude::*;

use crate::component::BoxRef;
use crate::world::{World, WorldView};

verus! {

/// Entry `i` of `tois` is the nearest hit: it holds a time, no entry holds a
/// smaller one, and no entry before it holds the same.
///
/// A time is an order key: smaller is nearer. The bit pattern of a
/// non-negative `f32` is such a key.
pub open spec fn is_nearest(tois: Seq<Option<u32>>, i: int) -> bool {
    &&& 0 <= i < tois.len()
    &&& tois[i] is Some
    &&& forall|j: int| 0 <= j < tois.len() && tois[j] is Some ==> tois[i]->0 <= tois[j]->0
    &&& forall|j: int| 0 <= j < i && tois[j] is Some ==> tois[i]->0 < tois[j]->0
}

/// No entry holds a time.
pub open spec fn no_hit(tois: Seq<Option<u32>>) -> bool {
    forall|j: int| 0 <= j < tois.len() ==> tois[j] is None
}

/// The position of the nearest hit among the times at which a ray meets each
/// box, or nothing when it meets none. Of equal times the first wins, so one
/// query always gives one answer.
pub fn nearest(tois: &Vec<Option<u32>>) -> (res: Option<usize>)
    ensures
        res is None <==> no_hit(tois@),
        res matches Some(i) ==> is_nearest(tois@, i as int),
{
    let mut best: Option<usize> = None;
    let mut i: usize = 0;
    while i < tois.len()
        invariant
            i <= tois@.len(),
            best is None <==> no_hit(tois@.take(i as int)),
            best matches Some(b) ==> is_nearest(tois@.take(i as int), b as int),
        decreases tois@.len() - i,
    {
        let prefix = Ghost(tois@.take(i as int));
        if let Some(t) = tois[i] {
            best = match best {
                Some(b) => {
                    let tb = tois[b].unwrap();
                    if t < tb { Some(i) } else { Some(b) }
                },
                None => Some(i),
            };
        }
        proof {
            let next = tois@.take(i + 1);
            assert forall|j: int| 0 <= j < i implies next[j] == prefix@[j] by {}
            assert(next[i as int] == tois@[i as int]);
        }
        i += 1;
    }
    proof {
        assert(tois@.take(tois@.len() as int) =~= tois@);
    }
    best
}

/// There is at most one nearest hit.
pub proof fn lemma_nearest_unique(tois: Seq<Option<u32>>, a: int, b: int)
    requires
        is_nearest(tois, a),
        is_nearest(tois, b),
    ensures
        a == b,
{
}

/// When a ray meets exactly two boxes, at times `t1 < t2`, the nearest hit is
/// the box met at `t1`.
pub proof fn lemma_earlier_hit_wins(tois: Seq<Option<u32>>, a: int, b: int, t1: u32, t2: u32)
    requires
        0 <= a < tois.len(),
        0 <= b < tois.len(),
        tois[a] == Some(t1),
        tois[b] == Some(t2),
        t1 < t2,
        forall|j: int| 0 <= j < tois.len() && j != a && j != b ==> tois[j] is None,
    ensures
        is_nearest(tois, a),
        forall|i: int| is_nearest(tois, i) ==> i == a,
{
}

impl<G, D> World<G, D> {
    /// The box that a ray meets first. `tois[i]` is the time at which the ray
    /// meets the box at position `i`, if it does.
    pub fn pick(&self, tois: &Vec<Option<u32>>) -> (res: Option<BoxRef>)
        requires
            self@.wf(),
            tois@.len() == self@.boxes.len(),
        ensures
            res is None <==> no_hit(tois@),
            res matches Some(r) ==> exists|i: int|
                is_nearest(tois@, i) && r == (BoxRef { uid: #[trigger] self@.boxes[i].uid }),
    {
        match nearest(tois) {
            Some(i) => Some(self.component_at(i).handle()),
            None => None,
        }
    }
}

/// An empty world has nothing to pick: no ray meets any of its boxes.
pub proof fn lemma_empty_world_picks_nothing<G, D>(w: WorldView<G, D>, tois: Seq<Option<u32>>)
    requires
        w.boxes.len() == 0,
        tois.len() == w.boxes.len(),
    ensures
        no_hit(tois),
{
}

} // verus!
