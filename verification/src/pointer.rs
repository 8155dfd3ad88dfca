//! The pet window's pointer handling, decided once per timer tick: whether the
//! window lets clicks pass through, when hover changes are reported, and the
//! press–arm–drag–release cycle that moves the window.
//!
//! The platform side measures (pointer and window positions are floating
//! point) and hands each tick over as a few facts; this module keeps the
//! state between ticks and says what the platform is to do.

use vstd::prelude::*;

verus! {

/// Horizontal direction of a drag, as reported to the front end.
#[derive(Clone, Copy, Debug, PartialEq, Eq, Structural)]
pub enum DragDir {
    Left,
    Right,
}

impl DragDir {
    /// The name the front end receives (`"left"` / `"right"`).
    pub fn name(self) -> (s: &'static str)
        ensures
            s@ == (match self {
                DragDir::Left => "left"@,
                DragDir::Right => "right"@,
            }),
    {
        match self {
            DragDir::Left => "left",
            DragDir::Right => "right",
        }
    }
}

/// The press–drag cycle. `armed`: the button went down over the pet and the
/// pointer has not yet moved far enough to count as a drag; `active`: the
/// window follows the pointer; `dir`: the last direction reported.
#[derive(Clone, Copy, Debug, PartialEq, Eq, Structural)]
pub struct DragState {
    pub active: bool,
    pub armed: bool,
    pub dir: Option<DragDir>,
}

/// Everything kept between ticks.
#[derive(Clone, Copy, Debug, PartialEq, Eq, Structural)]
pub struct PointerState {
    /// The front end has reported a non-empty set of interactive rectangles.
    pub rects_initialized: bool,
    /// Rectangles were reported since the last full tick.
    pub rects_dirty: bool,
    /// Whether the pointer was over the pet at the last full tick
    /// (`None` before the first one).
    pub prev_over: Option<bool>,
    pub drag: DragState,
}

/// What the platform measured for one tick.
#[derive(Clone, Copy, Debug, PartialEq, Eq, Structural)]
pub struct TickInput {
    /// Pointer and window origin are both within half a pixel of the last
    /// full tick.
    pub unchanged: bool,
    /// The pointer lies inside one of the interactive rectangles.
    pub hit: bool,
    /// The left mouse button is down.
    pub left_down: bool,
    /// The pointer is left of where the button went down.
    pub leftward: bool,
    /// The pointer is more than 3 px away from where the button went down.
    pub past_threshold: bool,
}

/// What the platform does after a tick.
#[derive(Clone, Copy, Debug, PartialEq, Eq, Structural)]
pub struct TickOutput {
    /// Nothing changed since the last tick: nothing else is done.
    pub skipped: bool,
    /// The window lets mouse events pass through.
    pub ignore_mouse: bool,
    /// A hover change to report (`pet-hover`).
    pub hover: Option<bool>,
    /// Move the window so that it keeps its offset to the pointer.
    pub move_window: bool,
    /// Remember the pointer position and its offset to the window (a press
    /// over the pet).
    pub record_press: bool,
    /// Report `pet-drag-start`.
    pub drag_start: bool,
    /// A drag direction to report (`pet-drag`).
    pub drag_dir: Option<DragDir>,
    /// Report `pet-drag-end`.
    pub drag_end: bool,
}

/// The state before anything happened: no rectangles yet, the next tick runs
/// in full.
pub open spec fn initial_state() -> PointerState {
    PointerState {
        rects_initialized: false,
        rects_dirty: true,
        prev_over: None,
        drag: DragState { active: false, armed: false, dir: None },
    }
}

/// The direction of the pointer relative to the press point.
pub open spec fn dir_of(leftward: bool) -> DragDir {
    if leftward {
        DragDir::Left
    } else {
        DragDir::Right
    }
}

/// One tick of the press–drag cycle, `over` being whether the pointer is over
/// the pet. Returns the new cycle state and the output's drag part:
/// `(move_window, record_press, drag_start, drag_dir, drag_end)`.
pub open spec fn drag_step(d: DragState, i: TickInput, over: bool) -> (
    DragState,
    (bool, bool, bool, Option<DragDir>, bool),
) {
    if i.left_down {
        if d.active {
            let dir = dir_of(i.leftward);
            let turned = d.dir != Some(dir);
            (
                DragState { dir: Some(dir), ..d },
                (true, false, false, if turned { Some(dir) } else { None }, false),
            )
        } else if d.armed {
            if i.past_threshold {
                let dir = dir_of(i.leftward);
                (DragState { active: true, armed: true, dir: Some(dir) }, (true, false, true, Some(dir), false))
            } else {
                (d, (false, false, false, None, false))
            }
        } else if over {
            (DragState { active: false, armed: true, dir: None }, (false, true, false, None, false))
        } else {
            (d, (false, false, false, None, false))
        }
    } else if d.active || d.armed {
        (DragState { active: false, armed: false, dir: None }, (false, false, false, None, d.active))
    } else {
        (d, (false, false, false, None, false))
    }
}

/// Whether a tick does nothing: no drag in progress, no rectangles reported
/// since the last full tick, and neither pointer nor window moved.
pub open spec fn skips(s: PointerState, i: TickInput) -> bool {
    !s.drag.active && !s.rects_dirty && i.unchanged
}

/// One tick: the new state and what to do.
pub open spec fn tick_of(s: PointerState, i: TickInput) -> (PointerState, TickOutput) {
    let idle = TickOutput {
        skipped: true,
        ignore_mouse: false,
        hover: None,
        move_window: false,
        record_press: false,
        drag_start: false,
        drag_dir: None,
        drag_end: false,
    };
    if skips(s, i) {
        (s, idle)
    } else {
        let over = s.rects_initialized && i.hit;
        let (d, (mv, rec, start, dir, end)) = drag_step(s.drag, i, over);
        (
            PointerState {
                rects_dirty: if s.drag.active { s.rects_dirty } else { false },
                prev_over: Some(over),
                drag: d,
                ..s
            },
            TickOutput {
                skipped: false,
                ignore_mouse: s.rects_initialized && !over,
                hover: if s.prev_over != Some(over) { Some(over) } else { None },
                move_window: mv,
                record_press: rec,
                drag_start: start,
                drag_dir: dir,
                drag_end: end,
            },
        )
    }
}

impl PointerState {
    /// The state at start-up.
    pub fn new() -> (s: PointerState)
        ensures
            s == initial_state(),
    {
        PointerState {
            rects_initialized: false,
            rects_dirty: true,
            prev_over: None,
            drag: DragState { active: false, armed: false, dir: None },
        }
    }

    /// The front end reported `count` interactive rectangles: an empty report
    /// means nothing is drawn yet (the whole window stays interactive), and
    /// the next tick runs in full even if nothing moved.
    pub fn on_rects_reported(&mut self, count: usize)
        ensures
            *final(self) == (PointerState {
                rects_initialized: count > 0,
                rects_dirty: true,
                ..*old(self)
            }),
    {
        self.rects_initialized = count > 0;
        self.rects_dirty = true;
    }

    /// One timer tick.
    pub fn tick(&mut self, i: TickInput) -> (out: TickOutput)
        ensures
            (*final(self), out) == tick_of(*old(self), i),
    {
        if !self.drag.active && !self.rects_dirty && i.unchanged {
            return TickOutput {
                skipped: true,
                ignore_mouse: false,
                hover: None,
                move_window: false,
                record_press: false,
                drag_start: false,
                drag_dir: None,
                drag_end: false,
            };
        }
        if !self.drag.active {
            self.rects_dirty = false;
        }
        let over = self.rects_initialized && i.hit;
        let ignore_mouse = self.rects_initialized && !over;
        let hover = if self.prev_over != Some(over) {
            Some(over)
        } else {
            None
        };
        self.prev_over = Some(over);
        let mut out = TickOutput {
            skipped: false,
            ignore_mouse,
            hover,
            move_window: false,
            record_press: false,
            drag_start: false,
            drag_dir: None,
            drag_end: false,
        };
        if i.left_down {
            if self.drag.active {
                let dir = if i.leftward {
                    DragDir::Left
                } else {
                    DragDir::Right
                };
                out.move_window = true;
                if self.drag.dir != Some(dir) {
                    out.drag_dir = Some(dir);
                }
                self.drag.dir = Some(dir);
            } else if self.drag.armed {
                if i.past_threshold {
                    let dir = if i.leftward {
                        DragDir::Left
                    } else {
                        DragDir::Right
                    };
                    self.drag.active = true;
                    self.drag.dir = Some(dir);
                    out.move_window = true;
                    out.drag_start = true;
                    out.drag_dir = Some(dir);
                }
            } else if over {
                self.drag.armed = true;
                self.drag.dir = None;
                out.record_press = true;
            }
        } else if self.drag.active || self.drag.armed {
            out.drag_end = self.drag.active;
            self.drag = DragState { active: false, armed: false, dir: None };
        }
        out
    }
}

/// Releasing the button ends every press and drag: after a full tick without
/// the button down, no drag is active or armed, and `pet-drag-end` is
/// reported exactly when a drag was active.
pub proof fn lemma_release_ends_drag(s: PointerState, i: TickInput)
    requires
        !i.left_down,
        !tick_of(s, i).1.skipped,
    ensures
        !tick_of(s, i).0.drag.active,
        !tick_of(s, i).0.drag.armed,
        tick_of(s, i).1.drag_end == s.drag.active,
{
}

/// A drag starts only from a press over the pet that then moves past the
/// threshold: a tick that makes a drag active was armed before, had the
/// button down and the pointer past the threshold, and reports
/// `pet-drag-start` with a direction.
pub proof fn lemma_drag_starts_from_armed_press(s: PointerState, i: TickInput)
    requires
        !s.drag.active,
        tick_of(s, i).0.drag.active,
    ensures
        s.drag.armed,
        i.left_down,
        i.past_threshold,
        tick_of(s, i).1.drag_start,
        tick_of(s, i).1.drag_dir == Some(dir_of(i.leftward)),
{
}

/// A press is armed only over the pet, and only once the rectangles are
/// known.
pub proof fn lemma_press_arms_only_over_pet(s: PointerState, i: TickInput)
    requires
        !s.drag.armed,
        !s.drag.active,
        tick_of(s, i).0.drag.armed,
    ensures
        s.rects_initialized,
        i.hit,
        i.left_down,
        tick_of(s, i).1.record_press,
{
}

/// While a drag is active no tick is skipped, and the window moves with the
/// pointer as long as the button is held.
pub proof fn lemma_drag_follows_pointer(s: PointerState, i: TickInput)
    requires
        s.drag.active,
        i.left_down,
    ensures
        !tick_of(s, i).1.skipped,
        tick_of(s, i).1.move_window,
        tick_of(s, i).0.drag.active,
        tick_of(s, i).0.drag.dir == Some(dir_of(i.leftward)),
{
}

/// Until the front end has reported rectangles the window never lets clicks
/// pass through; afterwards it does exactly where the pointer misses them.
pub proof fn lemma_passthrough_only_off_the_pet(s: PointerState, i: TickInput)
    requires
        !tick_of(s, i).1.skipped,
    ensures
        tick_of(s, i).1.ignore_mouse == (s.rects_initialized && !i.hit),
{
}

/// A hover change is reported exactly when the pointer's over-the-pet state
/// differs from the last full tick, and the new state is remembered.
pub proof fn lemma_hover_reported_on_change(s: PointerState, i: TickInput)
    requires
        !tick_of(s, i).1.skipped,
    ensures
        tick_of(s, i).0.prev_over == Some(s.rects_initialized && i.hit),
        tick_of(s, i).1.hover is Some <==> s.prev_over != Some(s.rects_initialized && i.hit),
{
}

/// New rectangles take effect at once: the tick after a report is never
/// skipped, even when nothing moved.
pub proof fn lemma_report_forces_next_tick(s: PointerState, count: usize, i: TickInput)
    ensures
        !tick_of(PointerState { rects_initialized: count > 0, rects_dirty: true, ..s }, i).1.skipped,
{
}

/// A skipped tick changes nothing.
pub proof fn lemma_skipped_tick_keeps_state(s: PointerState, i: TickInput)
    requires
        tick_of(s, i).1.skipped,
    ensures
        tick_of(s, i).0 == s,
{
}

} // verus!
