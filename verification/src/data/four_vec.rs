use crate::math::point::IntPoint;
use vstd::prelude::*;

verus! {

/// An inline vector of at most four points: a fixed array plus a length.
/// The four-vertex cap is a semantic invariant of the hull code, not an
/// optimization.
#[derive(Debug, Clone, Copy)]
pub struct FourVec {
    pub buffer: [IntPoint; 4],
    pub len: usize,
}

impl View for FourVec {
    type V = Seq<IntPoint>;

    open spec fn view(&self) -> Seq<IntPoint> {
        self.buffer@.take(self.len as int)
    }
}

impl FourVec {
    pub open spec fn wf(self) -> bool {
        self.len <= 4
    }

    pub fn new() -> (r: Self)
        ensures
            r.wf(),
            r@ =~= Seq::<IntPoint>::empty(),
    {
        Self { buffer: [IntPoint { x: 0, y: 0 }; 4], len: 0 }
    }

    pub fn with_slice(src: &[IntPoint]) -> (r: Self)
        requires
            src@.len() <= 4,
        ensures
            r.wf(),
            r@ =~= src@,
    {
        let mut buf = [IntPoint { x: 0, y: 0 }; 4];
        let n = src.len();
        let mut i: usize = 0;
        while i < n
            invariant
                i <= n,
                n == src@.len() <= 4,
                forall|k: int| 0 <= k < i ==> buf@[k] == src@[k],
            decreases n - i,
        {
            buf[i] = src[i];
            i = i + 1;
        }
        let r = Self { buffer: buf, len: n };
        proof {
            assert(r@ =~= src@);
        }
        r
    }

    pub fn is_empty(&self) -> (r: bool)
        requires
            self.wf(),
        ensures
            r == (self@.len() == 0),
    {
        self.len == 0
    }

    pub fn push(&mut self, value: IntPoint)
        requires
            old(self).wf(),
            old(self)@.len() < 4,
        ensures
            final(self).wf(),
            final(self)@ =~= old(self)@.push(value),
    {
        self.buffer[self.len] = value;
        self.len = self.len + 1;
    }

    /// Removes the element at `idx` by moving the last element into its
    /// place (order is not kept).
    pub fn remove(&mut self, idx: usize)
        requires
            old(self).wf(),
            idx < old(self)@.len(),
        ensures
            final(self).wf(),
            final(self)@ =~= old(self)@.update(idx as int, old(self)@.last()).drop_last(),
    {
        let last = self.len - 1;
        let v = self.buffer[last];
        self.buffer[idx] = v;
        self.len = last;
        proof {
            assert(self@ =~= old(self)@.update(idx as int, old(self)@.last()).drop_last());
        }
    }

    /// Removes and returns the element at `idx` (swap-remove order).
    pub fn extract(&mut self, idx: usize) -> (r: IntPoint)
        requires
            old(self).wf(),
            idx < old(self)@.len(),
        ensures
            final(self).wf(),
            r == old(self)@[idx as int],
            final(self)@ =~= old(self)@.update(idx as int, old(self)@.last()).drop_last(),
    {
        let val = self.buffer[idx];
        self.remove(idx);
        val
    }

    /// The live elements, copied out in order.
    pub fn slice(&self) -> (r: Vec<IntPoint>)
        requires
            self.wf(),
        ensures
            r@ =~= self@,
    {
        let mut v: Vec<IntPoint> = Vec::new();
        let mut i: usize = 0;
        while i < self.len
            invariant
                i <= self.len <= 4,
                v@ =~= self@.take(i as int),
            decreases self.len - i,
        {
            v.push(self.buffer[i]);
            proof {
                assert(v@ =~= self@.take(i + 1));
            }
            i = i + 1;
        }
        proof {
            assert(self@.take(self.len as int) =~= self@);
        }
        v
    }

    /// The two-point outline of a straight chord.
    pub fn line(a: IntPoint, b: IntPoint) -> (r: Self)
        ensures
            r.wf(),
            r@ =~= seq![a, b],
    {
        let r = Self {
            buffer: [a, b, IntPoint { x: 0, y: 0 }, IntPoint { x: 0, y: 0 }],
            len: 2,
        };
        proof {
            assert(r@ =~= seq![a, b]);
        }
        r
    }
}

} // verus!
