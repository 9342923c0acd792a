//! The event-loop state machine of a dialog invocation.
//!
//! A driver owns the blocking waits and the window; this module owns every
//! decision: it feeds events to the [`Ui`], tracks whether the left mouse
//! button is down, and asks for one window-manager drag per press-and-move
//! episode. The driver performs the actions a [`StepOut`] requests and hands
//! back the next event.
//!
//! Drag policy: a drag starts only while the cursor is outside every button
//! rectangle, so a drag can never start from atop a button; the episode flag
//! resets when the left button is released.

use crate::ui::{dirty_after, event_answer, hovered_after, pressed_after, spec_hit, ui_after, Ui};
use crate::{Answer, MouseButton, WindowEvent};
use vstd::prelude::*;

verus! {

/// A dialog session: the Ui plus the raw-input bookkeeping of the loop.
pub struct Session {
    pub ui: Ui,
    /// The left mouse button is currently down (anywhere in the window).
    pub pressed_raw: bool,
    /// A drag request was already issued in the current press episode.
    pub drag_sent: bool,
}

/// What the driver must do after one step: surface the answer (ending the
/// loop) and/or issue one window-manager drag request.
pub struct StepOut {
    pub answer: Option<Answer>,
    pub start_drag: bool,
}

/// The raw left-button flag after an event.
pub open spec fn raw_after(s: Session, e: WindowEvent) -> bool {
    match e {
        WindowEvent::ButtonPress(MouseButton::Left) => true,
        WindowEvent::ButtonRelease(MouseButton::Left) => false,
        _ => s.pressed_raw,
    }
}

/// The event asks for a window drag: a cursor move while the left button is
/// down and the cursor is outside every button rectangle.
pub open spec fn wants_drag(s: Session, e: WindowEvent) -> bool {
    match e {
        WindowEvent::CursorMove(p) => s.pressed_raw && spec_hit(
            s.ui.buttons@,
            p.x as int,
            p.y as int,
        ) is None,
        _ => false,
    }
}

/// A drag request is issued for this event: at most once per press episode.
pub open spec fn drag_emitted(s: Session, e: WindowEvent) -> bool {
    wants_drag(s, e) && !s.drag_sent
}

/// The drag-episode flag after an event.
pub open spec fn drag_after(s: Session, e: WindowEvent) -> bool {
    match e {
        WindowEvent::ButtonRelease(MouseButton::Left) => false,
        _ => s.drag_sent || drag_emitted(s, e),
    }
}

/// The whole session state after an event.
pub open spec fn session_after(s: Session, e: WindowEvent) -> Session {
    Session { ui: ui_after(s.ui, e), pressed_raw: raw_after(s, e), drag_sent: drag_after(s, e) }
}

/// How many drag requests a run of events produces.
pub open spec fn drags_in(s: Session, es: Seq<WindowEvent>) -> int
    decreases es.len(),
{
    if es.len() == 0 {
        0
    } else {
        (if drag_emitted(s, es[0]) {
            1int
        } else {
            0int
        }) + drags_in(session_after(s, es[0]), es.skip(1))
    }
}

/// A cursor move whose position lies outside every button of `s`.
pub open spec fn outside_move(s: Session, e: WindowEvent) -> bool {
    match e {
        WindowEvent::CursorMove(p) => spec_hit(s.ui.buttons@, p.x as int, p.y as int) is None,
        _ => false,
    }
}

impl Session {
    pub open spec fn wf(self) -> bool {
        self.ui.wf()
    }

    /// A fresh session around a laid-out dialog.
    pub fn new(ui: Ui) -> (s: Session)
        requires
            ui.wf(),
        ensures
            s.ui == ui,
            !s.pressed_raw,
            !s.drag_sent,
            s.wf(),
    {
        Session { ui, pressed_raw: false, drag_sent: false }
    }

    /// Feeds one event through the loop logic and the Ui.
    pub fn step(&mut self, event: WindowEvent) -> (r: StepOut)
        requires
            old(self).wf(),
        ensures
            final(self).wf(),
            r.answer == event_answer(old(self).ui, event),
            r.start_drag == drag_emitted(*old(self), event),
            *final(self) == session_after(*old(self), event),
    {
        let mut start_drag = false;
        match event {
            WindowEvent::CursorMove(p) => {
                if self.pressed_raw {
                    let h = self.ui.hit_test(p.x, p.y);
                    if h.is_none() && !self.drag_sent {
                        start_drag = true;
                        self.drag_sent = true;
                    }
                }
            },
            WindowEvent::ButtonPress(MouseButton::Left) => {
                self.pressed_raw = true;
            },
            WindowEvent::ButtonRelease(MouseButton::Left) => {
                self.pressed_raw = false;
                self.drag_sent = false;
            },
            _ => {},
        }
        let answer = self.ui.process_event(event);
        StepOut { answer, start_drag }
    }
}

/// A close request yields `Closed` at any point, whatever the hover, press
/// or drag state.
pub proof fn lemma_close_always_wins(s: Session)
    ensures
        event_answer(s.ui, WindowEvent::CloseRequested) == Some(Answer::Closed),
{
}

/// Releasing the left button while the cursor is outside every button (so
/// nothing is hovered) yields no answer and merely disarms the press.
pub proof fn lemma_release_outside_cancels(ui: Ui)
    requires
        ui.hovered is None,
    ensures
        event_answer(ui, WindowEvent::ButtonRelease(MouseButton::Left)) is None,
        pressed_after(ui, WindowEvent::ButtonRelease(MouseButton::Left)) is None,
{
}

/// Any number of consecutive cursor moves while the left button is pressed
/// and the cursor stays outside every button produce exactly one drag
/// request, not one per motion event.
pub proof fn lemma_drag_once(s: Session, es: Seq<WindowEvent>)
    requires
        s.pressed_raw,
        !s.drag_sent,
        es.len() >= 1,
        forall|k: int| 0 <= k < es.len() ==> outside_move(s, #[trigger] es[k]),
    ensures
        drags_in(s, es) == 1,
{
    let s1 = session_after(s, es[0]);
    assert(drag_emitted(s, es[0]));
    assert(s1.ui.buttons@ == s.ui.buttons@);
    assert(s1.pressed_raw && s1.drag_sent);
    assert(forall|k: int| 0 <= k < es.skip(1).len() ==> outside_move(s1, #[trigger] es.skip(1)[k]));
    lemma_drag_silent(s1, es.skip(1));
}

/// Once the episode flag is set, further qualifying moves emit no drag.
proof fn lemma_drag_silent(s: Session, es: Seq<WindowEvent>)
    requires
        s.drag_sent,
        forall|k: int| 0 <= k < es.len() ==> outside_move(s, #[trigger] es[k]),
    ensures
        drags_in(s, es) == 0,
    decreases es.len(),
{
    if es.len() > 0 {
        let s1 = session_after(s, es[0]);
        assert(!drag_emitted(s, es[0]));
        assert(s1.drag_sent);
        assert(s1.ui.buttons@ == s.ui.buttons@);
        assert(forall|k: int|
            0 <= k < es.skip(1).len() ==> outside_move(s1, #[trigger] es.skip(1)[k]));
        lemma_drag_silent(s1, es.skip(1));
    }
}

} // verus!
