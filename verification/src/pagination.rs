//! Reaction-driven pagination state machine.
//!
//! A session binds one response message to one owning user and a cursor
//! over a fixed number of pages. Control reactions from the owner move the
//! cursor, clamped to the valid page range; every cursor move asks the
//! caller to rebuild the page and edit the message in place. A session
//! closes only through its idle timeout, after which every further event
//! is ignored.

use vstd::prelude::*;

verus! {

/// Page layout of a multi-page response.
#[derive(Clone, Copy, PartialEq, Eq, Structural, Debug)]
pub struct Pages {
    pub per_page: usize,
    pub total_pages: usize,
}

/// The number of pages needed for `amount` entries at `per_page` entries
/// per page: at least one page, otherwise the exact ceiling.
pub open spec fn spec_total_pages(per_page: int, amount: int) -> int {
    if amount == 0 {
        1
    } else {
        (amount - 1) / per_page + 1
    }
}

impl Pages {
    pub fn new(per_page: usize, amount: usize) -> (r: Pages)
        requires
            per_page >= 1,
        ensures
            r.per_page == per_page,
            r.total_pages == spec_total_pages(per_page as int, amount as int),
            r.total_pages >= 1,
    {
        let total_pages = if amount == 0 {
            1
        } else {
            (amount - 1) / per_page + 1
        };
        Pages { per_page, total_pages }
    }
}

/// A control reaction on a paginated message.
#[derive(Clone, Copy, PartialEq, Eq, Structural, Debug)]
pub enum PageChange {
    JumpStart,
    MultiStepBack,
    StepBack,
    JumpMarker,
    StepForward,
    MultiStepForward,
    JumpEnd,
}

/// An inbound event a running session reacts to.
#[derive(Clone, Copy, PartialEq, Eq, Structural, Debug)]
pub enum SessionEvent {
    Reaction { user: u64, change: PageChange, now: u64 },
    Idle { now: u64 },
}

/// What the session loop must do after an event.
#[derive(Clone, Copy, PartialEq, Eq, Structural, Debug)]
pub enum SessionAction {
    /// Rebuild the page at the new cursor and edit the bound message.
    Rebuild { cursor: usize },
    /// Best-effort removal of the control reactions; the session is closed.
    RemoveControls,
    /// Nothing to do; the event was not an accepted transition.
    Ignore,
}

/// Stateful, timeout-bound, single-owner multi-page response bound to one
/// message.
pub struct PaginationSession {
    pub msg: u64,
    pub owner: u64,
    pub pages: Pages,
    pub cursor: usize,
    pub jump_marker: Option<usize>,
    pub suppress_multi_step: bool,
    /// Multi-step controls are offered only when `total_pages` exceeds this.
    pub multi_step_threshold: usize,
    /// Pages skipped by one multi-step.
    pub multi_step: usize,
    pub timeout_ms: u64,
    pub last_activity: u64,
    pub closed: bool,
}

impl PaginationSession {
    pub open spec fn wf(self) -> bool {
        &&& self.pages.total_pages >= 1
        &&& self.pages.per_page >= 1
        &&& self.cursor < self.pages.total_pages
        &&& self.multi_step >= 1
        &&& match self.jump_marker {
            Some(m) => m < self.pages.total_pages,
            None => true,
        }
    }

    /// Multi-step controls are offered on this session.
    pub open spec fn multi_step_offered(self) -> bool {
        !self.suppress_multi_step && self.pages.total_pages > self.multi_step_threshold
    }

    pub fn new(
        msg: u64,
        owner: u64,
        pages: Pages,
        jump_marker: Option<usize>,
        suppress_multi_step: bool,
        multi_step_threshold: usize,
        multi_step: usize,
        timeout_ms: u64,
        now: u64,
    ) -> (r: Self)
        requires
            pages.total_pages >= 1,
            pages.per_page >= 1,
            multi_step >= 1,
            jump_marker is Some ==> jump_marker->0 < pages.total_pages,
        ensures
            r == (PaginationSession {
                msg,
                owner,
                pages,
                cursor: 0,
                jump_marker,
                suppress_multi_step,
                multi_step_threshold,
                multi_step,
                timeout_ms,
                last_activity: now,
                closed: false,
            }),
            r.wf(),
    {
        PaginationSession {
            msg,
            owner,
            pages,
            cursor: 0,
            jump_marker,
            suppress_multi_step,
            multi_step_threshold,
            multi_step,
            timeout_ms,
            last_activity: now,
            closed: false,
        }
    }
}

/// The cursor a control reaction moves to, clamped to the page range.
///
/// A multi-step on a session that does not offer multi-step controls, and
/// a marker jump on a session configured without a marker, keep the cursor
/// where it is.
pub open spec fn spec_move_cursor(s: PaginationSession, change: PageChange) -> int {
    let last = s.pages.total_pages - 1;
    match change {
        PageChange::JumpStart => 0,
        PageChange::StepBack => if s.cursor >= 1 {
            s.cursor - 1
        } else {
            0
        },
        PageChange::StepForward => if s.cursor + 1 <= last {
            s.cursor + 1
        } else {
            last
        },
        PageChange::JumpEnd => last,
        PageChange::MultiStepBack => if s.multi_step_offered() {
            if s.cursor >= s.multi_step {
                s.cursor - s.multi_step
            } else {
                0
            }
        } else {
            s.cursor as int
        },
        PageChange::MultiStepForward => if s.multi_step_offered() {
            if s.cursor + s.multi_step <= last {
                s.cursor + s.multi_step
            } else {
                last
            }
        } else {
            s.cursor as int
        },
        PageChange::JumpMarker => match s.jump_marker {
            Some(m) => m as int,
            None => s.cursor as int,
        },
    }
}

/// State and action after one event, as a mathematical function.
///
/// A closed session ignores everything. Reactions from anyone but the
/// owner are ignored. An owner's reaction is an accepted transition only
/// when it moves the cursor as `spec_move_cursor` says: the page is then
/// rebuilt and the idle window restarts; a reaction the cursor ignores is
/// no activity. An idle check at or past the timeout — measured from the
/// last accepted transition — closes the session and removes the
/// controls.
pub open spec fn spec_step(s: PaginationSession, event: SessionEvent) -> (
    PaginationSession,
    SessionAction,
) {
    if s.closed {
        (s, SessionAction::Ignore)
    } else {
        match event {
            SessionEvent::Reaction { user, change, now } => {
                if user != s.owner {
                    (s, SessionAction::Ignore)
                } else {
                    let target = spec_move_cursor(s, change);
                    if target == s.cursor {
                        (s, SessionAction::Ignore)
                    } else {
                        let moved = PaginationSession {
                            cursor: target as usize,
                            last_activity: now,
                            ..s
                        };
                        (moved, SessionAction::Rebuild { cursor: target as usize })
                    }
                }
            },
            SessionEvent::Idle { now } => {
                if now >= s.last_activity && now - s.last_activity >= s.timeout_ms {
                    (PaginationSession { closed: true, ..s }, SessionAction::RemoveControls)
                } else {
                    (s, SessionAction::Ignore)
                }
            },
        }
    }
}

impl PaginationSession {
    /// Feed one event to the session.
    pub fn on_event(&mut self, event: SessionEvent) -> (action: SessionAction)
        requires
            old(self).wf(),
        ensures
            (*final(self), action) == spec_step(*old(self), event),
            final(self).wf(),
            old(self).closed ==> *final(self) == *old(self) && action == SessionAction::Ignore,
    {
        if self.closed {
            return SessionAction::Ignore;
        }
        match event {
            SessionEvent::Reaction { user, change, now } => {
                if user != self.owner {
                    return SessionAction::Ignore;
                }
                let last = self.pages.total_pages - 1;
                let target: usize = match change {
                    PageChange::JumpStart => 0,
                    PageChange::StepBack => if self.cursor >= 1 {
                        self.cursor - 1
                    } else {
                        0
                    },
                    PageChange::StepForward => if self.cursor < last {
                        self.cursor + 1
                    } else {
                        last
                    },
                    PageChange::JumpEnd => last,
                    PageChange::MultiStepBack => {
                        if !self.suppress_multi_step && self.pages.total_pages
                            > self.multi_step_threshold {
                            if self.cursor >= self.multi_step {
                                self.cursor - self.multi_step
                            } else {
                                0
                            }
                        } else {
                            self.cursor
                        }
                    },
                    PageChange::MultiStepForward => {
                        if !self.suppress_multi_step && self.pages.total_pages
                            > self.multi_step_threshold {
                            if last - self.cursor >= self.multi_step {
                                self.cursor + self.multi_step
                            } else {
                                last
                            }
                        } else {
                            self.cursor
                        }
                    },
                    PageChange::JumpMarker => match self.jump_marker {
                        Some(m) => m,
                        None => self.cursor,
                    },
                };
                if target != self.cursor {
                    self.cursor = target;
                    self.last_activity = now;
                    SessionAction::Rebuild { cursor: target }
                } else {
                    SessionAction::Ignore
                }
            },
            SessionEvent::Idle { now } => {
                if now >= self.last_activity && now - self.last_activity >= self.timeout_ms {
                    self.closed = true;
                    SessionAction::RemoveControls
                } else {
                    SessionAction::Ignore
                }
            },
        }
    }
}

/// The session state after a whole run of events.
pub open spec fn spec_run(s: PaginationSession, events: Seq<SessionEvent>) -> PaginationSession
    decreases events.len(),
{
    if events.len() == 0 {
        s
    } else {
        spec_run(spec_step(s, events[0]).0, events.drop_first())
    }
}

/// For any sequence of events, a well-formed session stays well-formed; in
/// particular the cursor never leaves `[0, total_pages - 1]`, and the page
/// layout, owner and bound message never change.
pub proof fn lemma_run_keeps_cursor_in_range(s: PaginationSession, events: Seq<SessionEvent>)
    requires
        s.wf(),
    ensures
        spec_run(s, events).wf(),
        spec_run(s, events).cursor < s.pages.total_pages,
        spec_run(s, events).pages == s.pages,
        spec_run(s, events).owner == s.owner,
        spec_run(s, events).msg == s.msg,
    decreases events.len(),
{
    if events.len() > 0 {
        lemma_run_keeps_cursor_in_range(spec_step(s, events[0]).0, events.drop_first());
    }
}

/// A closed session is closed for good: every further event leaves the
/// state unchanged and asks for nothing.
pub proof fn lemma_closed_is_terminal(s: PaginationSession, events: Seq<SessionEvent>)
    requires
        s.closed,
    ensures
        spec_run(s, events) == s,
        forall|e: SessionEvent| #[trigger] spec_step(s, e) == (s, SessionAction::Ignore),
    decreases events.len(),
{
    if events.len() > 0 {
        lemma_closed_is_terminal(spec_step(s, events[0]).0, events.drop_first());
    }
}

} // verus!
