//! Frames: grids of palette colors, and the ordered sets of them that make
//! up one animation loop.

use crate::color::Color;
use vstd::prelude::*;

verus! {

/// What a frame is: its geometry and its cells in row-major order.
pub struct GridView {
    pub width: nat,
    pub height: nat,
    pub cells: Seq<Color>,
}

impl GridView {
    /// A grid holds exactly one color for each of its `width * height`
    /// cells, and no more cells than can be counted in a `usize`.
    pub open spec fn well_formed(self) -> bool {
        &&& self.cells.len() == self.width * self.height
        &&& self.cells.len() <= usize::MAX
    }
}

/// One rendered frame. It is never resized after it was made.
#[derive(Debug)]
pub struct FrameGrid {
    width: usize,
    height: usize,
    cells: Vec<Color>,
}

impl View for FrameGrid {
    type V = GridView;

    closed spec fn view(&self) -> GridView {
        GridView {
            width: self.width as nat,
            height: self.height as nat,
            cells: self.cells@,
        }
    }
}

impl FrameGrid {
    #[verifier::type_invariant]
    pub open spec fn wf(self) -> bool {
        self@.well_formed()
    }

    /// Makes a frame of the given geometry from its cells in row-major
    /// order. The cells are accepted exactly when there are `width * height`
    /// of them.
    pub fn new(width: usize, height: usize, cells: Vec<Color>) -> (r: Option<FrameGrid>)
        ensures
            r is Some <==> cells@.len() == width * height,
            r matches Some(grid) ==> grid@ == (GridView {
                width: width as nat,
                height: height as nat,
                cells: cells@,
            }),
    {
        let given = cells.len();
        match width.checked_mul(height) {
            Some(count) => {
                if given == count {
                    Some(FrameGrid { width, height, cells })
                } else {
                    None
                }
            },
            None => None,
        }
    }

    /// The number of columns.
    pub fn width(&self) -> (w: usize)
        ensures
            w == self@.width,
    {
        self.width
    }

    /// The number of rows.
    pub fn height(&self) -> (h: usize)
        ensures
            h == self@.height,
    {
        self.height
    }

    /// The cells in row-major order.
    pub fn cells(&self) -> (cells: &Vec<Color>)
        ensures
            cells@ == self@.cells,
            self@.well_formed(),
    {
        proof {
            use_type_invariant(self);
        }
        &self.cells
    }
}

/// Whether the frames can form one animation loop: there is at least one,
/// each is well formed, and all share the geometry of the first.
pub open spec fn is_frame_set(frames: Seq<GridView>) -> bool {
    &&& frames.len() > 0
    &&& forall|i: int|
        0 <= i < frames.len() ==> {
            &&& (#[trigger] frames[i]).well_formed()
            &&& frames[i].width == frames[0].width
            &&& frames[i].height == frames[0].height
        }
}

/// The frames of one animation loop, in the order in which they play. All
/// have the same geometry, and the set does not change once it was made.
#[derive(Debug)]
pub struct FrameSet {
    frames: Vec<FrameGrid>,
}

impl View for FrameSet {
    type V = Seq<GridView>;

    closed spec fn view(&self) -> Seq<GridView> {
        Seq::new(self.frames@.len(), |i: int| self.frames@[i]@)
    }
}

impl FrameSet {
    #[verifier::type_invariant]
    pub open spec fn wf(self) -> bool {
        is_frame_set(self@)
    }

    /// Makes a frame set from its frames in playing order. The frames are
    /// accepted exactly when there is at least one and all have the
    /// geometry of the first.
    pub fn new(frames: Vec<FrameGrid>) -> (r: Option<FrameSet>)
        ensures
            r is Some <==> frames@.len() > 0 && forall|i: int|
                0 <= i < frames@.len() ==> (#[trigger] frames@[i])@.width == frames@[0]@.width
                    && frames@[i]@.height == frames@[0]@.height,
            r matches Some(set) ==> set@ == Seq::new(frames@.len(), |i: int| frames@[i]@),
    {
        let count = frames.len();
        if count == 0 {
            return None;
        }
        let width = frames[0].width();
        let height = frames[0].height();
        let mut i: usize = 0;
        while i < count
            invariant
                0 <= i <= count,
                count == frames@.len(),
                count > 0,
                width == frames@[0]@.width,
                height == frames@[0]@.height,
                forall|j: int|
                    0 <= j < i ==> {
                        &&& (#[trigger] frames@[j])@.well_formed()
                        &&& frames@[j]@.width == width
                        &&& frames@[j]@.height == height
                    },
            decreases count - i,
        {
            let frame = &frames[i];
            proof {
                use_type_invariant(frame);
            }
            if frame.width() != width || frame.height() != height {
                return None;
            }
            i += 1;
        }
        Some(FrameSet { frames })
    }

    /// The number of frames, which is at least one.
    pub fn len(&self) -> (count: usize)
        ensures
            count == self@.len(),
            count > 0,
    {
        proof {
            use_type_invariant(self);
        }
        self.frames.len()
    }

    /// The frame at a position in playing order, if there is one.
    pub fn frame(&self, index: usize) -> (r: Option<&FrameGrid>)
        ensures
            r is Some <==> index < self@.len(),
            r matches Some(frame) ==> frame@ == self@[index as int] && frame@.well_formed(),
    {
        proof {
            use_type_invariant(self);
        }
        if index < self.frames.len() {
            Some(&self.frames[index])
        } else {
            None
        }
    }

    /// The number of columns of every frame.
    pub fn width(&self) -> (w: usize)
        ensures
            w == self@[0].width,
    {
        proof {
            use_type_invariant(self);
        }
        self.frames[0].width()
    }

    /// The number of rows of every frame.
    pub fn height(&self) -> (h: usize)
        ensures
            h == self@[0].height,
    {
        proof {
            use_type_invariant(self);
        }
        self.frames[0].height()
    }
}

} // verus!
