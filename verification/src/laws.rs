//! General laws of the stroke log, stated over the step functions that the
//! operations' contracts use and proved once for all inputs.

use vstd::prelude::*;

use crate::log::append_sample;
use crate::log::feed_step;
use crate::log::log_wf;
use crate::log::opens_stroke;
use crate::log::redo_step;
use crate::log::undo_step;
use crate::log::visible_of;
use crate::log::LogView;
use crate::stroke::Point;
use crate::stroke::StrokeView;
use crate::stroke::Style;
use crate::stroke::Tool;

verus! {

/// The log after a run of `feed` calls with active input, one per sample, in
/// order.
pub open spec fn feed_run(v: LogView, samples: Seq<Option<Point>>, tool: Tool, style: Style) -> LogView
    decreases samples.len(),
{
    if samples.len() == 0 {
        v
    } else {
        feed_step(feed_run(v, samples.drop_last(), tool, style), true, samples.last(), tool, style).0
    }
}

/// The point list a run of samples leaves behind: absent samples skipped and
/// consecutive duplicates dropped, submission order kept.
pub open spec fn dedup(samples: Seq<Option<Point>>) -> Seq<Point>
    decreases samples.len(),
{
    if samples.len() == 0 {
        Seq::empty()
    } else {
        append_sample(dedup(samples.drop_last()), samples.last())
    }
}

/// While a gesture is in progress, each `feed` call with active input touches
/// only the open last stroke: it takes the latest tool and style and the
/// deduplicated sample, and the rest of the log is unchanged.
proof fn lemma_feed_run_shape(v: LogView, samples: Seq<Option<Point>>, tool: Tool, style: Style)
    requires
        v.committed.len() == 0 || !v.committed.last().open,
        samples.len() >= 1,
    ensures
        ({
            let vn = feed_run(v, samples, tool, style);
            &&& vn.committed.len() == v.committed.len() + 1
            &&& vn.committed.drop_last() == v.committed
            &&& vn.committed.last() == (StrokeView {
                points: dedup(samples),
                tool,
                style,
                open: true,
            })
            &&& vn.redo.len() == 0
        }),
    decreases samples.len(),
{
    let vp = feed_run(v, samples.drop_last(), tool, style);
    let vn = feed_run(v, samples, tool, style);
    if samples.len() == 1 {
        assert(opens_stroke(v, true));
        assert(vn.committed.drop_last() =~= v.committed);
        assert(vn.committed.last().points =~= dedup(samples));
    } else {
        lemma_feed_run_shape(v, samples.drop_last(), tool, style);
        assert(!opens_stroke(vp, true));
        assert(vn.committed.drop_last() =~= vp.committed.drop_last());
        assert(vn.committed.last().points =~= dedup(samples));
    }
}

/// One whole gesture appends exactly one stroke. Starting from a log with no
/// open stroke, any run of `feed` calls with active input followed by one
/// call with input inactive appends exactly one stroke to the committed log,
/// holding the deduplicated samples in submission order; the stroke is closed
/// unless no point survived, and the redo buffer ends empty.
pub proof fn lemma_one_gesture_one_stroke(
    v: LogView,
    samples: Seq<Option<Point>>,
    end_sample: Option<Point>,
    tool: Tool,
    style: Style,
)
    requires
        v.committed.len() == 0 || !v.committed.last().open,
        samples.len() >= 1,
    ensures
        ({
            let vf = feed_step(feed_run(v, samples, tool, style), false, end_sample, tool, style).0;
            let pts = dedup(samples.push(end_sample));
            &&& vf.committed.len() == v.committed.len() + 1
            &&& vf.committed.drop_last() == v.committed
            &&& vf.committed.last() == (StrokeView { points: pts, tool, style, open: pts.len() == 0 })
            &&& vf.redo.len() == 0
        }),
{
    lemma_feed_run_shape(v, samples, tool, style);
    let vn = feed_run(v, samples, tool, style);
    let vf = feed_step(vn, false, end_sample, tool, style).0;
    assert(samples.push(end_sample).drop_last() =~= samples);
    assert(vf.committed.drop_last() =~= v.committed);
    assert(vf.committed.last().points =~= dedup(samples.push(end_sample)));
}

/// Feeding the same sample twice in a row with active input is idempotent:
/// the second call changes nothing and reports no change.
pub proof fn lemma_feed_idempotent(v: LogView, p: Point, tool: Tool, style: Style)
    ensures
        ({
            let first = feed_step(v, true, Some(p), tool, style);
            let second = feed_step(first.0, true, Some(p), tool, style);
            &&& second.0 == first.0
            &&& !second.1
        }),
{
    let first = feed_step(v, true, Some(p), tool, style);
    let second = feed_step(first.0, true, Some(p), tool, style);
    assert(first.0.committed.last().points.last() == p);
    assert(second.0 =~~= first.0);
}

/// `undo` followed immediately by `redo` restores the committed log: the same
/// strokes, the same point sequences, the same order (the moved stroke comes
/// back closed), and the redo buffer is exactly what it was. In particular,
/// when the undone stroke was already closed the round trip is the identity.
pub proof fn lemma_undo_redo_round_trip(v: LogView)
    requires
        v.committed.len() > 0,
    ensures
        ({
            let vr = redo_step(undo_step(v).0).0;
            &&& vr.committed == v.committed.update(
                v.committed.len() - 1,
                v.committed.last().closed(),
            )
            &&& vr.redo == v.redo
            &&& !v.committed.last().open ==> vr == v
        }),
{
    let vu = undo_step(v).0;
    let vr = redo_step(vu).0;
    assert(vr.committed =~= v.committed.update(v.committed.len() - 1, v.committed.last().closed()));
    assert(vr.redo =~= v.redo);
    if !v.committed.last().open {
        assert(v.committed.last().closed() =~= v.committed.last());
        assert(vr.committed =~= v.committed);
        assert(vr =~~= v);
    }
}

/// Branching history is discarded: after an `undo`, the first `feed` that
/// sees fresh input opens a new stroke, the redo buffer becomes empty, and a
/// subsequent `redo` is a no-op.
pub proof fn lemma_undo_then_input_invalidates_redo(
    v: LogView,
    sample: Option<Point>,
    tool: Tool,
    style: Style,
)
    requires
        log_wf(v),
    ensures
        ({
            let vu = undo_step(v).0;
            let vf = feed_step(vu, true, sample, tool, style).0;
            &&& opens_stroke(vu, true)
            &&& vf.committed.len() == vu.committed.len() + 1
            &&& vf.redo.len() == 0
            &&& redo_step(vf) == (vf, false)
        }),
{
    let vu = undo_step(v).0;
    if v.committed.len() > 0 && vu.committed.len() > 0 {
        assert(!vu.committed.last().open) by {
            assert(vu.committed.last() == v.committed[v.committed.len() - 2]);
        }
    }
    let vf = feed_step(vu, true, sample, tool, style).0;
    assert(redo_step(vf).0 =~~= vf);
}

/// After a full reset—both logs empty—`undo` and `redo` are no-ops.
pub proof fn lemma_empty_log_noops(v: LogView)
    requires
        v.committed.len() == 0,
        v.redo.len() == 0,
    ensures
        undo_step(v) == (v, false),
        redo_step(v) == (v, false),
{
}

/// The rendering threshold: a committed stroke with at least two points
/// always appears in the visible projection, and no stroke below the
/// threshold ever does.
pub proof fn lemma_rendering_threshold(committed: Seq<StrokeView>, i: int)
    requires
        0 <= i < committed.len(),
    ensures
        committed[i].visible() ==> visible_of(committed).contains(committed[i]),
        !committed[i].visible() ==> !visible_of(committed).contains(committed[i]),
{
    let pred = |s: StrokeView| s.visible();
    if committed[i].visible() {
        committed.lemma_filter_contains(pred, i);
    }
    if visible_of(committed).contains(committed[i]) {
        let j = choose|j: int|
            0 <= j < visible_of(committed).len() && visible_of(committed)[j] == committed[i];
        committed.lemma_filter_pred(pred, j);
    }
}

} // verus!
