use crate::bezier::position::SplitPosition;
use crate::collision::collider::Collider;
use crate::collision::space::Space;
use vstd::arithmetic::power2::pow2;
use vstd::prelude::*;

verus! {

/// One side of a pair: a collider together with the dyadic parameter range
/// it covers on its parent spline.
#[derive(Debug, Clone, Copy)]
pub struct XBox {
    pub position: SplitPosition,
    pub collider: Collider,
}

/// Whether one side of a pair can still be bisected: the collider is above
/// the chord size and the dyadic depth is not exhausted.
pub open spec fn spec_splits(x: XBox, space: Space) -> bool {
    x.collider.size_level > space.line_level && x.position.power < 62
}

/// `child` is the given half of `parent`: the matching half of the bisected
/// position, and a well-formed collider over the matching half of the
/// bisected spline (its boundary, size class, and hull tie pinned by
/// well-formedness).
pub open spec fn spec_xbox_half(child: XBox, parent: XBox, right: bool) -> bool {
    &&& child.position.power == parent.position.power + 1
    &&& child.position.value == 2 * parent.position.value + (if right {
        1int
    } else {
        0int
    })
    &&& child.collider.spline == (if right {
        parent.collider.spline.spec_bisect().1
    } else {
        parent.collider.spline.spec_bisect().0
    })
    &&& child.collider.wf()
    &&& child.wf()
}

impl XBox {
    pub open spec fn wf(self) -> bool {
        &&& self.position.wf()
    &&& self.position.power < 63
    &&& self.position.value < pow2(self.position.power as nat)
    &&& self.collider.wf()
    }

    /// Bisects the collider when it is still above the chord size; the
    /// parameter range halves with it.
    fn bisect(&self, space: &Space) -> (r: Option<(XBox, XBox)>)
        requires
            self.wf(),
            space.wf(),
        ensures
            r is Some <==> spec_splits(*self, *space),
            r is Some ==> ({
                let (x0, x1) = r->0;
                spec_xbox_half(x0, *self, false) && spec_xbox_half(x1, *self, true)
            }),
    {
        let split = self.collider.split(space);
        match split {
            Some((col_0, col_1)) => {
                if self.position.power >= 62 {
                    // The dyadic depth is exhausted; stop splitting here.
                    return None;
                }
                let (pos_0, pos_1) = self.position.bisect();
                Some(
                    (
                        XBox { position: pos_0, collider: col_0 },
                        XBox { position: pos_1, collider: col_1 },
                    ),
                )
            },
            None => None,
        }
    }
}

/// A pair of colliders, one from each input spline, still suspected to
/// cross.
#[derive(Debug, Clone, Copy)]
pub struct Pair {
    pub a_box: XBox,
    pub b_box: XBox,
}

impl Pair {
    pub open spec fn wf(self) -> bool {
        self.a_box.wf() && self.b_box.wf()
    }

    /// The coarse test: boxes meet, and the hulls come within the margin.
    pub fn overlap(&self, space: &Space) -> (r: bool)
        requires
            self.wf(),
            space.wf(),
        ensures
            r == self.a_box.collider.spec_overlap(self.b_box.collider, *space),
    {
        self.a_box.collider.overlap(&self.b_box.collider, space)
    }

    /// Replaces the pair by its children, appended after the prior content:
    /// the four-way cartesian product of the bisection halves when both
    /// sides split, the two pairs of one side's halves against the other
    /// side unchanged when only one splits, and the pair itself at a leaf.
    pub fn split_into(&self, space: &Space, vec: &mut Vec<Pair>)
        requires
            self.wf(),
            space.wf(),
            forall|i: int| 0 <= i < old(vec)@.len() ==> (#[trigger] old(vec)@[i]).wf(),
        ensures
            forall|i: int| 0 <= i < old(vec)@.len() ==> final(vec)@[i] == old(vec)@[i],
            forall|i: int| 0 <= i < final(vec)@.len() ==> (#[trigger] final(vec)@[i]).wf(),
            ({
                let n = old(vec)@.len() as int;
                let post = final(vec)@;
                let sa = spec_splits(self.a_box, *space);
                let sb = spec_splits(self.b_box, *space);
                if sa && sb {
                    &&& post.len() == n + 4
                    &&& spec_xbox_half(post[n].a_box, self.a_box, false) && spec_xbox_half(
                        post[n].b_box,
                        self.b_box,
                        false,
                    )
                    &&& spec_xbox_half(post[n + 1].a_box, self.a_box, false) && spec_xbox_half(
                        post[n + 1].b_box,
                        self.b_box,
                        true,
                    )
                    &&& spec_xbox_half(post[n + 2].a_box, self.a_box, true) && spec_xbox_half(
                        post[n + 2].b_box,
                        self.b_box,
                        false,
                    )
                    &&& spec_xbox_half(post[n + 3].a_box, self.a_box, true) && spec_xbox_half(
                        post[n + 3].b_box,
                        self.b_box,
                        true,
                    )
                } else if sa {
                    &&& post.len() == n + 2
                    &&& spec_xbox_half(post[n].a_box, self.a_box, false) && post[n].b_box
                        == self.b_box
                    &&& spec_xbox_half(post[n + 1].a_box, self.a_box, true) && post[n + 1].b_box
                        == self.b_box
                } else if sb {
                    &&& post.len() == n + 2
                    &&& post[n].a_box == self.a_box && spec_xbox_half(
                        post[n].b_box,
                        self.b_box,
                        false,
                    )
                    &&& post[n + 1].a_box == self.a_box && spec_xbox_half(
                        post[n + 1].b_box,
                        self.b_box,
                        true,
                    )
                } else {
                    &&& post.len() == n + 1
                    &&& post[n] == *self
                }
            }),
    {
        let a = self.a_box.bisect(space);
        let b = self.b_box.bisect(space);

        match (a, b) {
            (Some((a0, a1)), Some((b0, b1))) => {
                vec.push(Pair { a_box: a0.clone(), b_box: b0.clone() });
                vec.push(Pair { a_box: a0, b_box: b1.clone() });
                vec.push(Pair { a_box: a1.clone(), b_box: b0 });
                vec.push(Pair { a_box: a1, b_box: b1 });
            },
            (Some((a0, a1)), None) => {
                vec.push(Pair { a_box: a0, b_box: self.b_box.clone() });
                vec.push(Pair { a_box: a1, b_box: self.b_box.clone() });
            },
            (None, Some((b0, b1))) => {
                vec.push(Pair { a_box: self.a_box.clone(), b_box: b0 });
                vec.push(Pair { a_box: self.a_box.clone(), b_box: b1 });
            },
            (None, None) => {
                vec.push(self.clone());
            },
        }
    }
}

} // verus!
