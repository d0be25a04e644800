use vstd::prelude::*;

verus! {

/// Where a left-button drag of the mouse stands, in window pixels.
#[derive(Clone, Copy, Debug, PartialEq, Eq, Structural)]
pub enum Drag {
    Idle,
    Start { x0: u32, y0: u32 },
    Dragging { x0: u32, y0: u32, x1: u32, y1: u32 },
    End { x0: u32, y0: u32, x1: u32, y1: u32 },
}

impl Drag {
    /// The drag after the cursor moved to `(x, y)`: a drag that has started
    /// now reaches `(x, y)`; otherwise nothing changes.
    pub open spec fn after_cursor_moved(self, x: u32, y: u32) -> Drag {
        match self {
            Drag::Start { x0, y0 } => Drag::Dragging { x0, y0, x1: x, y1: y },
            Drag::Dragging { x0, y0, .. } => Drag::Dragging { x0, y0, x1: x, y1: y },
            _ => self,
        }
    }

    /// The drag after the left button went down at `(x, y)`.
    pub open spec fn after_left_pressed(self, x: u32, y: u32) -> Drag {
        Drag::Start { x0: x, y0: y }
    }

    /// The drag after the left button went up at `(x, y)`: a drag under way
    /// ends there; anything else is cancelled.
    pub open spec fn after_left_released(self, x: u32, y: u32) -> Drag {
        match self {
            Drag::Dragging { x0, y0, .. } => Drag::End { x0, y0, x1: x, y1: y },
            _ => Drag::Idle,
        }
    }

    /// The drag once a frame has consumed the input: an ended drag is
    /// forgotten.
    pub open spec fn after_update(self) -> Drag {
        match self {
            Drag::End { .. } => Drag::Idle,
            _ => self,
        }
    }

    /// The cursor moved to `(x, y)`.
    pub fn on_cursor_moved(&mut self, x: u32, y: u32)
        ensures
            *final(self) == old(self).after_cursor_moved(x, y),
    {
        match *self {
            Drag::Start { x0, y0 } | Drag::Dragging { x0, y0, .. } => {
                *self = Drag::Dragging { x0, y0, x1: x, y1: y };
            },
            _ => {},
        }
    }

    /// The left button went down at `(x, y)`.
    pub fn on_left_pressed(&mut self, x: u32, y: u32)
        ensures
            *final(self) == old(self).after_left_pressed(x, y),
    {
        *self = Drag::Start { x0: x, y0: y };
    }

    /// The left button went up at `(x, y)`.
    pub fn on_left_released(&mut self, x: u32, y: u32)
        ensures
            *final(self) == old(self).after_left_released(x, y),
    {
        match *self {
            Drag::Dragging { x0, y0, .. } => {
                *self = Drag::End { x0, y0, x1: x, y1: y };
            },
            _ => {
                *self = Drag::Idle;
            },
        }
    }

    /// A frame has consumed the input.
    pub fn update(&mut self)
        ensures
            *final(self) == old(self).after_update(),
    {
        if let Drag::End { .. } = *self {
            *self = Drag::Idle;
        }
    }
}

/// The drag after the cursor went through `moves`, in order.
pub open spec fn after_moves(d: Drag, moves: Seq<(u32, u32)>) -> Drag
    decreases moves.len(),
{
    if moves.len() == 0 {
        d
    } else {
        after_moves(d, moves.drop_last()).after_cursor_moved(moves.last().0, moves.last().1)
    }
}

proof fn lemma_moves_from_start(x0: u32, y0: u32, moves: Seq<(u32, u32)>)
    ensures
        moves.len() == 0 ==> after_moves(Drag::Start { x0, y0 }, moves) == (Drag::Start { x0, y0 }),
        moves.len() > 0 ==> after_moves(Drag::Start { x0, y0 }, moves) == (Drag::Dragging {
            x0,
            y0,
            x1: moves.last().0,
            y1: moves.last().1,
        }),
    decreases moves.len(),
{
    if moves.len() > 0 {
        lemma_moves_from_start(x0, y0, moves.drop_last());
    }
}

/// A drag pressed at `(x0, y0)`, moved through `moves` and released at
/// `(x1, y1)` selects the rectangle from the press to the release exactly
/// when the cursor moved at least once in between; otherwise it is
/// cancelled. Either way the next frame forgets it.
pub proof fn law_press_move_release(
    d: Drag,
    x0: u32,
    y0: u32,
    moves: Seq<(u32, u32)>,
    x1: u32,
    y1: u32,
)
    ensures
        after_moves(d.after_left_pressed(x0, y0), moves).after_left_released(x1, y1) == if moves.len()
            > 0 {
            Drag::End { x0, y0, x1, y1 }
        } else {
            Drag::Idle
        },
        after_moves(d.after_left_pressed(x0, y0), moves).after_left_released(
            x1,
            y1,
        ).after_update() == Drag::Idle,
{
    lemma_moves_from_start(x0, y0, moves);
}

} // verus!
