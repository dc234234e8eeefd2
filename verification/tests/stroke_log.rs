use sumu::log::StrokeLog;
use sumu::stroke::{Point, Stroke, Style, Tool};

fn pt(x: u32, y: u32) -> Point {
    Point { x, y }
}

fn style(width: u32, color: u32) -> Style {
    Style { width, color }
}

/// Feeds one whole gesture: each sample with input active, then one closing
/// call with input inactive and no sample.
fn gesture(log: &mut StrokeLog, samples: &[Point], tool: Tool, st: Style) {
    for &p in samples {
        log.feed(true, Some(p), tool, st);
    }
    log.feed(false, None, tool, st);
}

#[test]
fn single_gesture_appends_one_stroke() {
    let mut log = StrokeLog::new();
    let st = style(1, 0x880808ff);
    log.feed(true, Some(pt(0, 0)), Tool::Paint, st);
    log.feed(true, Some(pt(1, 0)), Tool::Paint, st);
    log.feed(true, Some(pt(2, 0)), Tool::Paint, st);
    log.feed(false, None, Tool::Paint, st);
    assert_eq!(log.committed_count(), 1);
    assert_eq!(log.redo_count(), 0);
    let s = log.committed_at(0);
    assert_eq!(s.points, vec![pt(0, 0), pt(1, 0), pt(2, 0)]);
    assert_eq!(s.tool, Tool::Paint);
    assert_eq!(s.style, st);
    assert!(!s.open);
}

#[test]
fn duplicate_sample_appends_at_most_once() {
    let mut log = StrokeLog::new();
    let st = style(1, 2);
    let first = log.feed(true, Some(pt(4, 4)), Tool::Paint, st);
    let second = log.feed(true, Some(pt(4, 4)), Tool::Paint, st);
    assert!(first);
    assert!(!second);
    assert_eq!(log.committed_at(0).points, vec![pt(4, 4)]);
}

#[test]
fn undo_moves_last_stroke_to_redo() {
    let mut log = StrokeLog::new();
    let st = style(1, 2);
    gesture(&mut log, &[pt(0, 0), pt(1, 0), pt(2, 0)], Tool::Paint, st);
    let moved = log.undo();
    assert!(moved);
    assert_eq!(log.committed_count(), 0);
    assert_eq!(log.redo_count(), 1);
    assert_eq!(log.redo_at(0).points, vec![pt(0, 0), pt(1, 0), pt(2, 0)]);
}

#[test]
fn undo_then_redo_restores_committed() {
    let mut log = StrokeLog::new();
    let st = style(1, 2);
    gesture(&mut log, &[pt(0, 0), pt(1, 0), pt(2, 0)], Tool::Paint, st);
    log.undo();
    let moved = log.redo();
    assert!(moved);
    assert_eq!(log.committed_count(), 1);
    assert_eq!(log.redo_count(), 0);
    let s = log.committed_at(0);
    assert_eq!(s.points, vec![pt(0, 0), pt(1, 0), pt(2, 0)]);
    assert_eq!(s.tool, Tool::Paint);
    assert_eq!(s.style, st);
    assert!(!s.open);
}

#[test]
fn undo_redo_round_trip_keeps_order_of_many_strokes() {
    let mut log = StrokeLog::new();
    let st = style(1, 2);
    gesture(&mut log, &[pt(0, 0), pt(1, 0)], Tool::Paint, st);
    gesture(&mut log, &[pt(5, 5), pt(6, 5)], Tool::Erase, st);
    log.undo();
    log.undo();
    assert_eq!(log.committed_count(), 0);
    assert_eq!(log.redo_count(), 2);
    log.redo();
    log.redo();
    assert_eq!(log.committed_count(), 2);
    assert_eq!(log.redo_count(), 0);
    assert_eq!(log.committed_at(0).points, vec![pt(0, 0), pt(1, 0)]);
    assert_eq!(log.committed_at(0).tool, Tool::Paint);
    assert_eq!(log.committed_at(1).points, vec![pt(5, 5), pt(6, 5)]);
    assert_eq!(log.committed_at(1).tool, Tool::Erase);
}

#[test]
fn new_input_after_undo_invalidates_redo() {
    let mut log = StrokeLog::new();
    let st = style(1, 2);
    gesture(&mut log, &[pt(0, 0), pt(1, 0), pt(2, 0)], Tool::Paint, st);
    log.undo();
    assert_eq!(log.redo_count(), 1);
    log.feed(true, Some(pt(5, 5)), Tool::Paint, st);
    log.feed(false, None, Tool::Paint, st);
    assert_eq!(log.redo_count(), 0);
    assert!(!log.redo());
    assert_eq!(log.committed_count(), 1);
    assert_eq!(log.committed_at(0).points, vec![pt(5, 5)]);
}

#[test]
fn clear_empties_both_logs() {
    let mut log = StrokeLog::new();
    let st = style(1, 2);
    gesture(&mut log, &[pt(0, 0), pt(1, 0)], Tool::Paint, st);
    gesture(&mut log, &[pt(3, 3), pt(4, 3)], Tool::Paint, st);
    log.undo();
    assert_eq!(log.committed_count(), 1);
    assert_eq!(log.redo_count(), 1);
    log.clear();
    assert_eq!(log.committed_count(), 0);
    assert_eq!(log.redo_count(), 0);
    assert!(!log.undo());
    assert!(!log.redo());
}

#[test]
fn undo_and_redo_are_noops_on_empty_log() {
    let mut log = StrokeLog::new();
    assert!(!log.undo());
    assert!(!log.redo());
    assert_eq!(log.committed_count(), 0);
    assert_eq!(log.redo_count(), 0);
}

#[test]
fn one_point_stroke_is_retained_but_not_visible() {
    let mut log = StrokeLog::new();
    let st = style(1, 2);
    gesture(&mut log, &[pt(7, 7)], Tool::Paint, st);
    assert_eq!(log.committed_count(), 1);
    assert!(log.visible_strokes().is_empty());
}

#[test]
fn two_point_stroke_is_visible() {
    let mut log = StrokeLog::new();
    let st = style(1, 2);
    gesture(&mut log, &[pt(7, 7), pt(8, 7)], Tool::Paint, st);
    let shapes: Vec<Stroke> = log.visible_strokes();
    assert_eq!(shapes.len(), 1);
    assert_eq!(shapes[0].points, vec![pt(7, 7), pt(8, 7)]);
}

#[test]
fn visible_strokes_keeps_order_and_skips_short_strokes() {
    let mut log = StrokeLog::new();
    let st = style(1, 2);
    gesture(&mut log, &[pt(0, 0), pt(1, 0)], Tool::Paint, st);
    gesture(&mut log, &[pt(9, 9)], Tool::Paint, st);
    gesture(&mut log, &[pt(5, 5), pt(6, 5), pt(7, 5)], Tool::Erase, st);
    assert_eq!(log.committed_count(), 3);
    let shapes = log.visible_strokes();
    assert_eq!(shapes.len(), 2);
    assert_eq!(shapes[0].points, vec![pt(0, 0), pt(1, 0)]);
    assert_eq!(shapes[0].tool, Tool::Paint);
    assert_eq!(shapes[1].points, vec![pt(5, 5), pt(6, 5), pt(7, 5)]);
    assert_eq!(shapes[1].tool, Tool::Erase);
}

#[test]
fn open_stroke_takes_latest_tool_and_style() {
    let mut log = StrokeLog::new();
    let first = style(1, 0x11111111);
    let second = style(10, 0x22222222);
    log.feed(true, Some(pt(0, 0)), Tool::Paint, first);
    log.feed(true, Some(pt(1, 0)), Tool::Erase, second);
    log.feed(false, None, Tool::Erase, second);
    let s = log.committed_at(0);
    assert_eq!(s.tool, Tool::Erase);
    assert_eq!(s.style, second);
}

#[test]
fn closed_stroke_is_not_reopened_by_new_input() {
    let mut log = StrokeLog::new();
    let st = style(1, 2);
    gesture(&mut log, &[pt(0, 0), pt(1, 0)], Tool::Paint, st);
    gesture(&mut log, &[pt(8, 8), pt(9, 8)], Tool::Paint, st);
    assert_eq!(log.committed_count(), 2);
    assert_eq!(log.committed_at(0).points, vec![pt(0, 0), pt(1, 0)]);
    assert_eq!(log.committed_at(1).points, vec![pt(8, 8), pt(9, 8)]);
}

#[test]
fn feed_reports_every_open_append_and_close() {
    let mut log = StrokeLog::new();
    let st = style(1, 2);
    assert!(log.feed(true, Some(pt(0, 0)), Tool::Paint, st));
    assert!(log.feed(true, Some(pt(1, 0)), Tool::Paint, st));
    assert!(!log.feed(true, Some(pt(1, 0)), Tool::Paint, st));
    assert!(log.feed(false, None, Tool::Paint, st));
    assert!(!log.feed(false, None, Tool::Paint, st));
}

#[test]
fn inactive_input_on_empty_log_changes_nothing() {
    let mut log = StrokeLog::new();
    let st = style(1, 2);
    assert!(!log.feed(false, None, Tool::Paint, st));
    assert!(!log.feed(false, Some(pt(1, 1)), Tool::Paint, st));
    assert_eq!(log.committed_count(), 0);
    assert_eq!(log.redo_count(), 0);
}

#[test]
fn active_input_without_sample_opens_empty_stroke() {
    let mut log = StrokeLog::new();
    let st = style(1, 2);
    assert!(log.feed(true, None, Tool::Paint, st));
    assert_eq!(log.committed_count(), 1);
    assert!(log.committed_at(0).points.is_empty());
    assert!(log.committed_at(0).open);
    // A pointless stroke never closes: there is no point to keep.
    assert!(!log.feed(false, None, Tool::Paint, st));
    assert!(log.committed_at(0).open);
}

#[test]
fn undo_closes_the_open_stroke_on_the_move() {
    let mut log = StrokeLog::new();
    let st = style(1, 2);
    log.feed(true, Some(pt(0, 0)), Tool::Paint, st);
    log.feed(true, Some(pt(1, 0)), Tool::Paint, st);
    // Still open: input never went inactive.
    let moved = log.undo();
    assert!(moved);
    assert_eq!(log.redo_count(), 1);
    assert!(!log.redo_at(0).open);
    log.redo();
    assert!(!log.committed_at(0).open);
}

#[test]
fn can_undo_and_can_redo_track_the_logs() {
    let mut log = StrokeLog::new();
    let st = style(1, 2);
    assert!(!log.can_undo());
    assert!(!log.can_redo());
    gesture(&mut log, &[pt(0, 0), pt(1, 0)], Tool::Paint, st);
    assert!(log.can_undo());
    assert!(!log.can_redo());
    log.undo();
    assert!(!log.can_undo());
    assert!(log.can_redo());
}
