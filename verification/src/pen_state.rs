//! The pen tool: a state machine that assembles a path from clicks and drags.
//!
//! A click fixes the next anchor. Releasing the button without having moved
//! adds a straight segment to it; releasing after a drag adds a curve whose
//! second control point is where the pointer was let go.

use vstd::prelude::*;
use crate::scalar::FIFTEEN_BITS;
use crate::scalar::Scalar;
use crate::scene::copy_commands;
use crate::scene::PathCommand;

verus! {

/// The state of the pen tool.
#[derive(Debug)]
pub enum PenState {
    /// No path is being drawn.
    Idle,
    /// A path is being drawn.
    Drawing {
        /// The commands confirmed so far.
        commands: Vec<PathCommand>,
        /// The first anchor, where a closing click lands.
        start_point: (Scalar, Scalar),
        /// The last confirmed anchor.
        last_anchor: (Scalar, Scalar),
        /// The anchor fixed by the last press and not confirmed yet.
        drag_start_anchor: Option<(Scalar, Scalar)>,
        /// Where the pointer is while the button is held.
        drag_handle: Option<(Scalar, Scalar)>,
        /// Whether the pointer has moved since the last press.
        is_dragging: bool,
    },
}

/// What a [`PenState`] holds.
pub ghost enum PenView {
    Idle,
    Drawing {
        commands: Seq<PathCommand>,
        start_point: (Scalar, Scalar),
        last_anchor: (Scalar, Scalar),
        drag_start_anchor: Option<(Scalar, Scalar)>,
        drag_handle: Option<(Scalar, Scalar)>,
        is_dragging: bool,
    },
}

impl View for PenState {
    type V = PenView;

    open spec fn view(&self) -> PenView {
        match self {
            PenState::Idle => PenView::Idle,
            PenState::Drawing {
                commands,
                start_point,
                last_anchor,
                drag_start_anchor,
                drag_handle,
                is_dragging,
            } => PenView::Drawing {
                commands: commands@,
                start_point: *start_point,
                last_anchor: *last_anchor,
                drag_start_anchor: *drag_start_anchor,
                drag_handle: *drag_handle,
                is_dragging: *is_dragging,
            },
        }
    }
}

impl PenView {
    /// Whether a press at `distance` from the first anchor would close the
    /// path: at least two commands are confirmed and the press is less than
    /// `threshold` away.
    pub open spec fn near_start(self, distance: Scalar, threshold: Scalar) -> bool {
        self matches PenView::Drawing { commands, .. } && commands.len() >= 2 && distance.below(
            threshold,
        )
    }

    /// Whether a press at `distance` from the first anchor offers to close
    /// the path, the threshold being fifteen units.
    pub open spec fn closable(self, distance: Scalar) -> bool {
        self.near_start(distance, Scalar { bits: FIFTEEN_BITS })
    }

    /// The state after a press at `(x, y)`, `distance` away from the first anchor.
    pub open spec fn after_down(self, x: Scalar, y: Scalar, distance: Scalar) -> PenView {
        match self {
            PenView::Idle => PenView::Drawing {
                commands: seq![PathCommand::MoveTo { x, y }],
                start_point: (x, y),
                last_anchor: (x, y),
                drag_start_anchor: None,
                drag_handle: None,
                is_dragging: false,
            },
            PenView::Drawing { commands, start_point, last_anchor, .. } => if self.closable(
                distance,
            ) {
                self
            } else {
                PenView::Drawing {
                    commands,
                    start_point,
                    last_anchor,
                    drag_start_anchor: Some((x, y)),
                    drag_handle: Some((x, y)),
                    is_dragging: false,
                }
            },
        }
    }

    /// The state after the pointer moved to `(x, y)`: only a pending anchor
    /// makes the move count.
    pub open spec fn after_move(self, x: Scalar, y: Scalar) -> PenView {
        match self {
            PenView::Drawing {
                commands,
                start_point,
                last_anchor,
                drag_start_anchor: Some(anchor),
                ..
            } => PenView::Drawing {
                commands,
                start_point,
                last_anchor,
                drag_start_anchor: Some(anchor),
                drag_handle: Some((x, y)),
                is_dragging: true,
            },
            _ => self,
        }
    }

    /// The command that a release would confirm, if any: a curve after a
    /// drag, a line after a plain click, nothing without a pending anchor.
    pub open spec fn pending_command(self) -> Option<PathCommand> {
        match self {
            PenView::Drawing {
                last_anchor,
                drag_start_anchor: Some(end),
                drag_handle,
                is_dragging,
                ..
            } => if is_dragging {
                match drag_handle {
                    Some(handle) => Some(
                        PathCommand::CurveTo {
                            x1: last_anchor.0,
                            y1: last_anchor.1,
                            x2: handle.0,
                            y2: handle.1,
                            x: end.0,
                            y: end.1,
                        },
                    ),
                    None => None,
                }
            } else {
                Some(PathCommand::LineTo { x: end.0, y: end.1 })
            },
            _ => None,
        }
    }

    /// The state after a release: the pending command is confirmed and its
    /// end becomes the last anchor; without one nothing changes.
    pub open spec fn after_up(self) -> PenView {
        match self {
            PenView::Drawing { commands, start_point, drag_start_anchor: Some(end), .. } => {
                match self.pending_command() {
                    Some(command) => PenView::Drawing {
                        commands: commands.push(command),
                        start_point,
                        last_anchor: end,
                        drag_start_anchor: None,
                        drag_handle: None,
                        is_dragging: false,
                    },
                    None => self,
                }
            },
            _ => self,
        }
    }
}

impl PenView {
    /// The point at which a command ends, if it has one.
    pub open spec fn end_of(command: PathCommand) -> Option<(Scalar, Scalar)> {
        match command {
            PathCommand::MoveTo { x, y } => Some((x, y)),
            PathCommand::LineTo { x, y } => Some((x, y)),
            PathCommand::CurveTo { x, y, .. } => Some((x, y)),
            PathCommand::ClosePath => None,
        }
    }

    /// What holds of every state that presses, moves and releases lead to:
    /// a path being drawn starts with a move to its first anchor, its last
    /// command ends at the last anchor, it holds no close command, and a
    /// drag is only ever under way with an anchor pending and a handle set.
    pub open spec fn well_formed(self) -> bool {
        match self {
            PenView::Idle => true,
            PenView::Drawing {
                commands,
                start_point,
                last_anchor,
                drag_start_anchor,
                drag_handle,
                is_dragging,
            } => {
                &&& commands.len() >= 1
                &&& commands[0] == (PathCommand::MoveTo { x: start_point.0, y: start_point.1 })
                &&& PenView::end_of(commands.last()) == Some(last_anchor)
                &&& forall|i: int| 0 <= i < commands.len() ==> !(#[trigger] commands[i] is ClosePath)
                &&& (drag_start_anchor is Some) == (drag_handle is Some)
                &&& is_dragging ==> drag_start_anchor is Some
            },
        }
    }
}

/// The pen's states stay well formed: the idle state is, and a press, a move
/// and a release each lead from a well-formed state to a well-formed state.
/// A release with an anchor pending adds exactly one command, which ends at
/// that anchor.
pub proof fn lemma_pen_stays_well_formed(pen: PenView, x: Scalar, y: Scalar, distance: Scalar)
    requires
        pen.well_formed(),
    ensures
        PenView::Idle.well_formed(),
        pen.after_down(x, y, distance).well_formed(),
        pen.after_move(x, y).well_formed(),
        pen.after_up().well_formed(),
        pen matches PenView::Drawing { commands, drag_start_anchor: Some(end), .. } ==> {
            &&& pen.after_up() matches PenView::Drawing { commands: longer, last_anchor, .. }
            &&& longer.len() == commands.len() + 1
            &&& longer.drop_last() == commands
            &&& PenView::end_of(longer.last()) == Some(end)
            &&& last_anchor == end
        },
{
    match pen {
        PenView::Drawing { commands, drag_start_anchor: Some(end), .. } => {
            let command = pen.pending_command()->0;
            let longer = commands.push(command);
            assert(longer.drop_last() =~= commands);
            assert(longer[0] == commands[0]);
            assert forall|i: int| 0 <= i < longer.len() implies !(#[trigger] longer[i] is ClosePath) by {
                if i < commands.len() {
                    assert(longer[i] == commands[i]);
                }
            }
        },
        _ => {},
    }
}

impl PenState {
    /// The idle state.
    pub fn new() -> (s: PenState)
        ensures
            s@ == PenView::Idle,
    {
        PenState::Idle
    }

    /// Whether a path is being drawn.
    pub fn is_drawing(&self) -> (r: bool)
        ensures
            r == (self@ is Drawing),
    {
        match self {
            PenState::Drawing { .. } => true,
            PenState::Idle => false,
        }
    }

    /// The first anchor of the path being drawn.
    pub fn get_start_point(&self) -> (r: Option<(Scalar, Scalar)>)
        ensures
            r == match self@ {
                PenView::Drawing { start_point, .. } => Some(start_point),
                PenView::Idle => None,
            },
    {
        match self {
            PenState::Drawing { start_point, .. } => Some(*start_point),
            PenState::Idle => None,
        }
    }

    /// The commands confirmed so far.
    pub fn get_commands(&self) -> (r: Option<&Vec<PathCommand>>)
        ensures
            match r {
                Some(list) => self@ matches PenView::Drawing { commands, .. } && commands
                    == list@,
                None => self@ is Idle,
            },
    {
        match self {
            PenState::Drawing { commands, .. } => Some(commands),
            PenState::Idle => None,
        }
    }

    /// Whether a point `distance` away from the first anchor is near enough
    /// to close the path: the path has at least two commands and `distance`
    /// is less than `threshold`.
    pub fn is_near_start(&self, distance: Scalar, threshold: Scalar) -> (r: bool)
        ensures
            r == self@.near_start(distance, threshold),
    {
        match self {
            PenState::Drawing { commands, .. } => {
                if commands.len() < 2 {
                    return false;
                }
                distance.lt(threshold)
            },
            PenState::Idle => false,
        }
    }

    /// A press at `(x, y)`, which the caller measured to be `distance` away
    /// from the first anchor (the value is not looked at while idle). Returns
    /// whether the press offers to close the path; in that case nothing
    /// changes. Otherwise the press starts a path or fixes the next anchor.
    pub fn pen_down(&mut self, x: Scalar, y: Scalar, distance: Scalar) -> (closable: bool)
        ensures
            closable == old(self)@.closable(distance),
            final(self)@ == old(self)@.after_down(x, y, distance),
    {
        let near = self.is_near_start(distance, Scalar { bits: FIFTEEN_BITS });
        match self {
            PenState::Idle => {
                let mut commands: Vec<PathCommand> = Vec::new();
                commands.push(PathCommand::MoveTo { x, y });
                assert(commands@ =~= seq![PathCommand::MoveTo { x, y }]);
                *self = PenState::Drawing {
                    commands,
                    start_point: (x, y),
                    last_anchor: (x, y),
                    drag_start_anchor: None,
                    drag_handle: None,
                    is_dragging: false,
                };
                false
            },
            PenState::Drawing { drag_start_anchor, drag_handle, is_dragging, .. } => {
                if near {
                    return true;
                }
                *is_dragging = false;
                *drag_start_anchor = Some((x, y));
                *drag_handle = Some((x, y));
                false
            },
        }
    }

    /// The pointer moved to `(x, y)`. With an anchor pending this records the
    /// position as the handle and marks the press as a drag.
    pub fn pen_move(&mut self, x: Scalar, y: Scalar)
        ensures
            final(self)@ == old(self)@.after_move(x, y),
    {
        match self {
            PenState::Drawing { drag_start_anchor, drag_handle, is_dragging, .. } => {
                if drag_start_anchor.is_some() {
                    *drag_handle = Some((x, y));
                    *is_dragging = true;
                }
            },
            PenState::Idle => {},
        }
    }

    /// The command that a release would confirm now, for previewing it.
    pub fn pending_command(&self) -> (r: Option<PathCommand>)
        ensures
            r == self@.pending_command(),
    {
        match self {
            PenState::Drawing { last_anchor, drag_start_anchor, drag_handle, is_dragging, .. } => {
                match drag_start_anchor {
                    Some(end) => {
                        if *is_dragging {
                            match drag_handle {
                                Some(handle) => Some(
                                    PathCommand::CurveTo {
                                        x1: last_anchor.0,
                                        y1: last_anchor.1,
                                        x2: handle.0,
                                        y2: handle.1,
                                        x: end.0,
                                        y: end.1,
                                    },
                                ),
                                None => None,
                            }
                        } else {
                            Some(PathCommand::LineTo { x: end.0, y: end.1 })
                        }
                    },
                    None => None,
                }
            },
            PenState::Idle => None,
        }
    }

    /// The button was released: the pending anchor is confirmed, by a curve
    /// after a drag and by a line otherwise. Without a pending anchor
    /// nothing changes.
    pub fn pen_up(&mut self)
        ensures
            final(self)@ == old(self)@.after_up(),
    {
        let confirmed = self.pending_command();
        match self {
            PenState::Drawing {
                commands,
                last_anchor,
                drag_start_anchor,
                drag_handle,
                is_dragging,
                ..
            } => {
                match (confirmed, *drag_start_anchor) {
                    (Some(command), Some(end)) => {
                        commands.push(command);
                        *last_anchor = end;
                        *drag_start_anchor = None;
                        *drag_handle = None;
                        *is_dragging = false;
                    },
                    _ => {},
                }
            },
            PenState::Idle => {},
        }
    }

    /// Stops drawing and hands out the commands confirmed so far; none when
    /// no path was being drawn.
    pub fn take_commands(&mut self) -> (r: Option<Vec<PathCommand>>)
        ensures
            final(self)@ == PenView::Idle,
            match r {
                Some(list) => old(self)@ matches PenView::Drawing { commands, .. } && commands
                    == list@,
                None => old(self)@ is Idle,
            },
    {
        let taken = match self {
            PenState::Drawing { commands, .. } => Some(copy_commands(commands)),
            PenState::Idle => None,
        };
        *self = PenState::Idle;
        taken
    }
}

impl Default for PenState {
    fn default() -> (s: PenState)
        ensures
            s@ == PenView::Idle,
    {
        PenState::Idle
    }
}

impl Clone for PenState {
    fn clone(&self) -> (r: PenState)
        ensures
            r@ == self@,
    {
        match self {
            PenState::Idle => PenState::Idle,
            PenState::Drawing {
                commands,
                start_point,
                last_anchor,
                drag_start_anchor,
                drag_handle,
                is_dragging,
            } => PenState::Drawing {
                commands: copy_commands(commands),
                start_point: *start_point,
                last_anchor: *last_anchor,
                drag_start_anchor: *drag_start_anchor,
                drag_handle: *drag_handle,
                is_dragging: *is_dragging,
            },
        }
    }
}

} // verus!
