//! The canvas on which a stroke is drawn point by point.
//!
//! The canvas keeps the points and decides what becomes of a stroke. Whether
//! two points are close to each other is for the caller to say.

use vstd::prelude::*;

use crate::compact::{Compact, Region};
use crate::compact_vec::{lemma_plain_content, CompactVec};

verus! {

/// How far a stroke has come.
#[derive(Copy, Clone, Debug, PartialEq, Eq, Structural)]
pub enum StrokeState {
    Preview,
    Intermediate,
    Finished,
}

/// The points of a stroke and how far it has come.
pub struct Stroke<P>(pub CompactVec<P>, pub StrokeState);

/// The points that were set so far.
pub struct StrokeCanvas<P> {
    points: CompactVec<P>,
}

impl<P: Copy> Compact for Stroke<P> {
    type Content = (Seq<P>, StrokeState);

    open spec fn wf(&self) -> bool {
        self.0.wf()
    }

    open spec fn content(&self) -> (Seq<P>, StrokeState) {
        (self.0.content(), self.1)
    }

    open spec fn spec_is_still_compact(&self) -> bool {
        self.0.spec_is_still_compact()
    }

    open spec fn spec_is_independent(&self) -> bool {
        self.0.spec_is_independent()
    }

    open spec fn spec_dynamic_size_bytes(&self) -> nat {
        self.0.spec_dynamic_size_bytes()
    }

    open spec fn spec_laid_out_at(&self, start: int) -> bool {
        self.0.spec_laid_out_at(start)
    }

    fn is_still_compact(&self) -> (r: bool) {
        self.0.is_still_compact() && self.1.is_still_compact()
    }

    fn dynamic_size_bytes(&self) -> (r: usize) {
        self.0.dynamic_size_bytes() + self.1.dynamic_size_bytes()
    }

    fn compact_from(&mut self, source: &Self, region: &mut Region) {
        self.0.compact_from(&source.0, region);
        self.1.compact_from(&source.1, region);
    }

    fn decompact(&self) -> (r: Self) {
        Stroke(self.0.decompact(), self.1.decompact())
    }
}

impl<P: Copy> Compact for StrokeCanvas<P> {
    type Content = Seq<P>;

    open spec fn wf(&self) -> bool {
        self.spec_points().wf()
    }

    open spec fn content(&self) -> Seq<P> {
        self.spec_points().content()
    }

    open spec fn spec_is_still_compact(&self) -> bool {
        self.spec_points().spec_is_still_compact()
    }

    open spec fn spec_is_independent(&self) -> bool {
        self.spec_points().spec_is_independent()
    }

    open spec fn spec_dynamic_size_bytes(&self) -> nat {
        self.spec_points().spec_dynamic_size_bytes()
    }

    open spec fn spec_laid_out_at(&self, start: int) -> bool {
        self.spec_points().spec_laid_out_at(start)
    }

    fn is_still_compact(&self) -> (r: bool) {
        self.points.is_still_compact()
    }

    fn dynamic_size_bytes(&self) -> (r: usize) {
        self.points.dynamic_size_bytes()
    }

    fn compact_from(&mut self, source: &Self, region: &mut Region) {
        self.points.compact_from(&source.points, region);
    }

    fn decompact(&self) -> (r: Self) {
        StrokeCanvas { points: self.points.decompact() }
    }
}

impl<P> StrokeCanvas<P> {
    /// The sequence that holds the points.
    pub closed spec fn spec_points(&self) -> CompactVec<P> {
        self.points
    }
}

impl<P> View for StrokeCanvas<P> {
    type V = Seq<P>;

    /// The points that were set so far, in their order.
    open spec fn view(&self) -> Seq<P> {
        self.spec_points()@
    }
}

impl<P: Copy> StrokeCanvas<P> {
    /// A canvas without points.
    pub fn new() -> (r: Self)
        ensures
            r.wf(),
            r@ == Seq::<P>::empty(),
    {
        StrokeCanvas { points: CompactVec::new() }
    }

    /// The points that were set so far.
    pub fn points(&self) -> (r: &[P])
        ensures
            r@ == self@,
    {
        self.points.as_slice()
    }

    /// The point that was set last.
    pub fn last_point(&self) -> (r: Option<P>)
        ensures
            r == if self@.len() > 0 {
                Some(self@.last())
            } else {
                None
            },
    {
        let n = self.points.len();
        if n > 0 {
            Some(*self.points.get(n - 1))
        } else {
            None
        }
    }

    /// The pointer hovers at `at`: the stroke as it would be with a point
    /// there. The canvas stays as it is.
    pub fn on_hover(&self, at: P) -> (r: Stroke<P>)
        requires
            self.wf(),
            self@.len() < usize::MAX,
        ensures
            r.wf(),
            r.0@ == self@.push(at),
            r.1 == StrokeState::Preview,
    {
        let mut preview_points = self.points.decompact();
        proof {
            lemma_plain_content(preview_points);
            lemma_plain_content(self.points);
        }
        preview_points.push(at);
        Stroke(preview_points, StrokeState::Preview)
    }

    /// A drag starts at `new_point`; `close_to_last` says whether that is
    /// close to the point that was set last.
    ///
    /// Close to the last point, the stroke is finished: the canvas hands it
    /// out and starts over. Anywhere else the point is set, and the stroke
    /// so far is handed out if it has more than one point.
    pub fn on_drag_started(&mut self, new_point: P, close_to_last: bool) -> (r: Option<Stroke<P>>)
        requires
            old(self).wf(),
            old(self)@.len() < usize::MAX,
        ensures
            final(self).wf(),
            old(self)@.len() > 0 && close_to_last ==> {
                &&& final(self)@ == Seq::<P>::empty()
                &&& r matches Some(stroke) && stroke.wf() && stroke.0@ == old(self)@ && stroke.1
                    == StrokeState::Finished
            },
            !(old(self)@.len() > 0 && close_to_last) ==> {
                &&& final(self)@ == old(self)@.push(new_point)
                &&& if old(self)@.len() > 0 {
                    r matches Some(stroke) && stroke.wf() && stroke.0@ == final(self)@ && stroke.1
                        == StrokeState::Intermediate
                } else {
                    r is None
                }
            },
    {
        proof {
            lemma_plain_content(self.points);
        }
        let finished = !self.points.is_empty() && close_to_last;
        if finished {
            let points = self.points.decompact();
            proof {
                lemma_plain_content(points);
            }
            self.points.clear();
            Some(Stroke(points, StrokeState::Finished))
        } else {
            self.points.push(new_point);
            if self.points.len() > 1 {
                let points = self.points.decompact();
                proof {
                    lemma_plain_content(points);
                    lemma_plain_content(self.points);
                }
                Some(Stroke(points, StrokeState::Intermediate))
            } else {
                None
            }
        }
    }
}

} // verus!
