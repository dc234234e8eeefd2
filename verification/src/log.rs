//! The stroke log: a committed history and a redo buffer, with the state
//! machine that turns the per-frame input signal into stroke boundaries.

use vstd::prelude::*;

use crate::stroke::Point;
use crate::stroke::Stroke;
use crate::stroke::StrokeView;
use crate::stroke::Style;
use crate::stroke::Tool;

verus! {

/// The mathematical value of a [`StrokeLog`]: the committed history (oldest
/// first) and the redo buffer (most recently undone last, used as a stack).
#[verifier::ext_equal]
pub ghost struct LogView {
    pub committed: Seq<StrokeView>,
    pub redo: Seq<StrokeView>,
}

/// Whether a `feed` call with this input signal opens a new stroke: input is
/// active and there is no open stroke to continue (the committed log is empty
/// or its last stroke is closed).
pub open spec fn opens_stroke(v: LogView, input_active: bool) -> bool {
    input_active && (v.committed.len() == 0 || !v.committed.last().open)
}

/// One incoming sample applied to an open stroke's point list: an absent
/// sample is ignored, and a sample equal to the last recorded point is
/// dropped, so no zero-length segment is ever stored.
pub open spec fn append_sample(points: Seq<Point>, sample: Option<Point>) -> Seq<Point> {
    match sample {
        Option::None => points,
        Option::Some(p) => if points.len() > 0 && points.last() == p {
            points
        } else {
            points.push(p)
        },
    }
}

/// The stroke-opening step of `feed`: when fresh input begins a new stroke,
/// an empty open stroke is appended and the redo buffer is discarded
/// (branching history is not supported). The flag reports whether a stroke
/// was opened.
pub open spec fn feed_open_step(v: LogView, input_active: bool, tool: Tool, style: Style) -> (
    LogView,
    bool,
) {
    if opens_stroke(v, input_active) {
        (
            LogView {
                committed: v.committed.push(StrokeView::new_open(tool, style)),
                redo: Seq::empty(),
            },
            true,
        )
    } else {
        (v, false)
    }
}

/// The stroke-updating step of `feed`: while the last committed stroke is
/// open it takes the latest tool and style, receives the sample (deduplicated
/// against its last point), and closes if input has ended and it has at least
/// one point. The flag reports whether a point was appended or the stroke was
/// closed.
pub open spec fn feed_update_step(
    v: LogView,
    input_active: bool,
    sample: Option<Point>,
    tool: Tool,
    style: Style,
) -> (LogView, bool) {
    if v.committed.len() > 0 && v.committed.last().open {
        let s0 = v.committed.last();
        let pts = append_sample(s0.points, sample);
        let appended = pts.len() > s0.points.len();
        let closes = !input_active && pts.len() > 0;
        let s1 = StrokeView { points: pts, tool, style, open: !closes };
        (
            LogView { committed: v.committed.update(v.committed.len() - 1, s1), redo: v.redo },
            appended || closes,
        )
    } else {
        (v, false)
    }
}

/// The full effect of one `feed` call on the log, paired with the change flag
/// it returns: true exactly when a stroke was opened, a point appended, or a
/// stroke closed.
pub open spec fn feed_step(
    v: LogView,
    input_active: bool,
    sample: Option<Point>,
    tool: Tool,
    style: Style,
) -> (LogView, bool) {
    let opened = feed_open_step(v, input_active, tool, style);
    let updated = feed_update_step(opened.0, input_active, sample, tool, style);
    (updated.0, opened.1 || updated.1)
}

/// The effect of one `undo` call: the last committed stroke, closed if it was
/// still open, moves to the top of the redo buffer. A no-op on an empty
/// committed log. The flag reports whether a stroke moved.
pub open spec fn undo_step(v: LogView) -> (LogView, bool) {
    if v.committed.len() == 0 {
        (v, false)
    } else {
        (
            LogView {
                committed: v.committed.drop_last(),
                redo: v.redo.push(v.committed.last().closed()),
            },
            true,
        )
    }
}

/// The effect of one `redo` call: the top of the redo buffer moves back onto
/// the end of the committed log, unchanged. A no-op on an empty redo buffer.
/// The flag reports whether a stroke moved.
pub open spec fn redo_step(v: LogView) -> (LogView, bool) {
    if v.redo.len() == 0 {
        (v, false)
    } else {
        (
            LogView { committed: v.committed.push(v.redo.last()), redo: v.redo.drop_last() },
            true,
        )
    }
}

/// The committed strokes that clear the rendering threshold, in order.
pub open spec fn visible_of(committed: Seq<StrokeView>) -> Seq<StrokeView> {
    committed.filter(|s: StrokeView| s.visible())
}

/// Well-formedness of a log value:
/// - only the last committed stroke may still be open;
/// - every stroke in the redo buffer is closed;
/// - while the redo buffer is non-empty no committed stroke is open (fresh
///   input, the only thing that opens a stroke, discards the redo buffer).
pub open spec fn log_wf(v: LogView) -> bool {
    &&& forall|i: int| 0 <= i < v.committed.len() - 1 ==> !(#[trigger] v.committed[i]).open
    &&& forall|i: int| 0 <= i < v.redo.len() ==> !(#[trigger] v.redo[i]).open
    &&& v.redo.len() > 0 && v.committed.len() > 0 ==> !v.committed.last().open
}

/// The single source of truth for drawable history: the committed strokes
/// (oldest first) and the redo buffer (a stack, its top at the end).
pub struct StrokeLog {
    committed: Vec<Stroke>,
    redo: Vec<Stroke>,
}

impl View for StrokeLog {
    type V = LogView;

    closed spec fn view(&self) -> LogView {
        LogView {
            committed: self.committed@.map_values(|s: Stroke| s@),
            redo: self.redo@.map_values(|s: Stroke| s@),
        }
    }
}

impl StrokeLog {
    /// Well-formedness of the log; established by `new` and preserved by
    /// every operation.
    pub open spec fn wf(&self) -> bool {
        log_wf(self@)
    }

    /// An empty log: no committed history, nothing to redo.
    pub fn new() -> (log: StrokeLog)
        ensures
            log@.committed == Seq::<StrokeView>::empty(),
            log@.redo == Seq::<StrokeView>::empty(),
            log.wf(),
    {
        let log = StrokeLog { committed: Vec::new(), redo: Vec::new() };
        proof {
            assert(log@.committed =~= Seq::<StrokeView>::empty());
            assert(log@.redo =~= Seq::<StrokeView>::empty());
        }
        log
    }

    /// Applies one frame's input signal to the log, as [`feed_step`]
    /// describes: fresh input opens a stroke and discards the redo buffer,
    /// an open stroke takes the latest tool/style and the (deduplicated)
    /// sample, and the open stroke closes once input ends. Returns true when
    /// anything changed, so the caller knows to redraw.
    pub fn feed(
        &mut self,
        input_active: bool,
        sample: Option<Point>,
        tool: Tool,
        style: Style,
    ) -> (changed: bool)
        requires
            old(self).wf(),
        ensures
            final(self).wf(),
            final(self)@ == feed_step(old(self)@, input_active, sample, tool, style).0,
            changed == feed_step(old(self)@, input_active, sample, tool, style).1,
    {
        let ghost v0 = self@;
        let mut changed = false;
        let n = self.committed.len();
        if input_active && (n == 0 || !self.committed[n - 1].open) {
            self.redo.clear();
            self.committed.push(Stroke::new(tool, style));
            changed = true;
        }
        let ghost v1 = self@;
        proof {
            if opens_stroke(v0, input_active) {
                assert(v1.committed =~= v0.committed.push(StrokeView::new_open(tool, style)));
                assert(v1.redo =~= Seq::<StrokeView>::empty());
            }
            assert(v1 == feed_open_step(v0, input_active, tool, style).0);
        }
        let m = self.committed.len();
        if m > 0 && self.committed[m - 1].open {
            let mut s = self.committed.pop().unwrap();
            proof {
                assert(s@ == v1.committed.last());
            }
            let ghost pts0 = s@.points;
            s.tool = tool;
            s.style = style;
            if let Some(p) = sample {
                let k = s.points.len();
                if k == 0 || !(s.points[k - 1] == p) {
                    s.points.push(p);
                    changed = true;
                }
            }
            proof {
                assert(s@.points == append_sample(pts0, sample));
            }
            if !input_active && s.points.len() > 0 {
                s.open = false;
                changed = true;
            }
            self.committed.push(s);
            proof {
                let stepped = feed_update_step(v1, input_active, sample, tool, style);
                assert(self@.committed =~= stepped.0.committed);
                assert(self@.redo =~= stepped.0.redo);
            }
        }
        proof {
            let stepped = feed_step(v0, input_active, sample, tool, style);
            assert(self@ =~~= stepped.0);
            assert(log_wf(self@));
        }
        changed
    }

    /// Moves the last committed stroke (closed, if it was still open) to the
    /// top of the redo buffer, as [`undo_step`] describes. Returns true iff a
    /// stroke moved; a no-op returning false when there is nothing to undo.
    pub fn undo(&mut self) -> (moved: bool)
        requires
            old(self).wf(),
        ensures
            final(self).wf(),
            final(self)@ == undo_step(old(self)@).0,
            moved == undo_step(old(self)@).1,
    {
        if self.committed.len() == 0 {
            false
        } else {
            let ghost v0 = self@;
            let mut s = self.committed.pop().unwrap();
            s.open = false;
            self.redo.push(s);
            proof {
                assert(s@ == v0.committed.last().closed());
                assert(self@.committed =~= v0.committed.drop_last());
                assert(self@.redo =~= v0.redo.push(v0.committed.last().closed()));
            }
            true
        }
    }

    /// Moves the top of the redo buffer back onto the end of the committed
    /// log, its content unchanged, as [`redo_step`] describes. Returns true
    /// iff a stroke moved; a no-op returning false when there is nothing to
    /// redo.
    pub fn redo(&mut self) -> (moved: bool)
        requires
            old(self).wf(),
        ensures
            final(self).wf(),
            final(self)@ == redo_step(old(self)@).0,
            moved == redo_step(old(self)@).1,
    {
        if self.redo.len() == 0 {
            false
        } else {
            let ghost v0 = self@;
            let s = self.redo.pop().unwrap();
            self.committed.push(s);
            proof {
                assert(s@ == v0.redo.last());
                assert(self@.committed =~= v0.committed.push(v0.redo.last()));
                assert(self@.redo =~= v0.redo.drop_last());
            }
            true
        }
    }

    /// Empties both logs unconditionally: a full-canvas reset.
    pub fn clear(&mut self)
        ensures
            final(self).wf(),
            final(self)@ == (LogView { committed: Seq::empty(), redo: Seq::empty() }),
    {
        self.committed.clear();
        self.redo.clear();
        proof {
            assert(self@.committed =~= Seq::<StrokeView>::empty());
            assert(self@.redo =~= Seq::<StrokeView>::empty());
        }
    }

    /// Whether `undo` would move a stroke: the committed log is non-empty.
    /// The host enables its undo control exactly when this holds.
    pub fn can_undo(&self) -> (r: bool)
        ensures
            r == (self@.committed.len() > 0),
    {
        self.committed.len() > 0
    }

    /// Whether `redo` would move a stroke: the redo buffer is non-empty.
    /// The host enables its redo control exactly when this holds.
    pub fn can_redo(&self) -> (r: bool)
        ensures
            r == (self@.redo.len() > 0),
    {
        self.redo.len() > 0
    }

    /// The number of committed strokes.
    pub fn committed_count(&self) -> (n: usize)
        ensures
            n == self@.committed.len(),
    {
        self.committed.len()
    }

    /// The number of strokes waiting in the redo buffer.
    pub fn redo_count(&self) -> (n: usize)
        ensures
            n == self@.redo.len(),
    {
        self.redo.len()
    }

    /// The committed stroke at a position, oldest first.
    pub fn committed_at(&self, i: usize) -> (s: &Stroke)
        requires
            i < self@.committed.len(),
        ensures
            s@ == self@.committed[i as int],
    {
        &self.committed[i]
    }

    /// The redo-buffer stroke at a position; the last is the top of the
    /// stack, the next to be restored.
    pub fn redo_at(&self, i: usize) -> (s: &Stroke)
        requires
            i < self@.redo.len(),
        ensures
            s@ == self@.redo[i as int],
    {
        &self.redo[i]
    }

    /// A read-only projection of the committed log for the renderer: the
    /// strokes with at least two points, in committed order. Strokes below
    /// the rendering threshold stay in the log but are not drawn.
    pub fn visible_strokes(&self) -> (shapes: Vec<Stroke>)
        ensures
            shapes@.map_values(|s: Stroke| s@) == visible_of(self@.committed),
    {
        let mut shapes: Vec<Stroke> = Vec::new();
        let mut i: usize = 0;
        proof {
            reveal(Seq::filter);
            assert(self@.committed.take(0) =~= Seq::<StrokeView>::empty());
            assert(shapes@.map_values(|s: Stroke| s@) =~= visible_of(self@.committed.take(0)));
        }
        while i < self.committed.len()
            invariant
                i <= self.committed.len(),
                shapes@.map_values(|s: Stroke| s@) == visible_of(self@.committed.take(i as int)),
            decreases self.committed.len() - i,
        {
            if self.committed[i].points.len() >= 2 {
                let dup = self.committed[i].duplicate();
                shapes.push(dup);
            }
            proof {
                reveal(Seq::filter);
                let pre = self@.committed.take(i as int);
                let cur = self@.committed.take(i as int + 1);
                assert(cur.drop_last() =~= pre);
                assert(cur.last() == self@.committed[i as int]);
                assert(shapes@.map_values(|s: Stroke| s@) =~= visible_of(cur));
            }
            i += 1;
        }
        proof {
            assert(self@.committed.take(self.committed.len() as int) =~= self@.committed);
        }
        shapes
    }
}

} // verus!
