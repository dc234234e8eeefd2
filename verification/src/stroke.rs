//! The stroke data model: points, tools, styles, and one recorded gesture.

use vstd::prelude::*;

verus! {

/// A position on the logical drawing surface.
///
/// Each coordinate is stored as the raw 32-bit encoding of the host's scalar
/// coordinate; the log never does arithmetic on positions, it only compares
/// them, and two points are the same exactly when both encodings match.
#[derive(Clone, Copy, Debug, PartialEq, Eq, Structural)]
pub struct Point {
    pub x: u32,
    pub y: u32,
}

/// The drawing mode fixed per stroke, deciding how the stroke is rendered.
#[derive(Clone, Copy, Debug, PartialEq, Eq, Structural)]
pub enum Tool {
    Paint,
    Erase,
}

/// Visual attributes captured when a stroke is created: the line width as the
/// raw 32-bit encoding of the host's scalar width, and a packed RGBA color.
#[derive(Clone, Copy, Debug, PartialEq, Eq, Structural)]
pub struct Style {
    pub width: u32,
    pub color: u32,
}

/// One continuous pointer gesture: an ordered, append-only point sequence
/// plus the tool and style it is rendered with. While `open` is true the
/// stroke may still receive points; once closed it is immutable.
#[derive(Debug, PartialEq)]
pub struct Stroke {
    pub points: Vec<Point>,
    pub tool: Tool,
    pub style: Style,
    pub open: bool,
}

/// The mathematical value of a [`Stroke`].
#[verifier::ext_equal]
pub ghost struct StrokeView {
    pub points: Seq<Point>,
    pub tool: Tool,
    pub style: Style,
    pub open: bool,
}

impl StrokeView {
    /// A freshly opened stroke with no points yet.
    pub open spec fn new_open(tool: Tool, style: Style) -> StrokeView {
        StrokeView { points: Seq::empty(), tool, style, open: true }
    }

    /// The same stroke, marked closed.
    pub open spec fn closed(self) -> StrokeView {
        StrokeView { open: false, ..self }
    }

    /// Whether the stroke clears the rendering threshold: a polyline needs at
    /// least two points to draw.
    pub open spec fn visible(self) -> bool {
        self.points.len() >= 2
    }
}

impl View for Stroke {
    type V = StrokeView;

    open spec fn view(&self) -> StrokeView {
        StrokeView { points: self.points@, tool: self.tool, style: self.style, open: self.open }
    }
}

impl Stroke {
    /// Opens a new, empty stroke with the given tool and style.
    pub fn new(tool: Tool, style: Style) -> (s: Stroke)
        ensures
            s@ == StrokeView::new_open(tool, style),
    {
        Stroke { points: Vec::new(), tool, style, open: true }
    }

    /// An independent copy of the stroke with the same value.
    pub fn duplicate(&self) -> (s: Stroke)
        ensures
            s@ == self@,
    {
        let mut points: Vec<Point> = Vec::new();
        let mut i: usize = 0;
        while i < self.points.len()
            invariant
                i <= self.points.len(),
                points@ == self.points@.take(i as int),
            decreases self.points.len() - i,
        {
            points.push(self.points[i]);
            proof {
                assert(points@ =~= self.points@.take(i as int + 1));
            }
            i += 1;
        }
        proof {
            assert(self.points@.take(self.points.len() as int) =~= self.points@);
        }
        Stroke { points, tool: self.tool, style: self.style, open: self.open }
    }
}

} // verus!
