//! The eight resize handles around a photo and which edges each one moves.
use vstd::prelude::*;

verus! {

/// A resize handle: the four sides and the four corners of a rectangle.
#[derive(Clone, Copy, PartialEq, Eq, Debug, Structural)]
pub enum Handle {
    N,
    S,
    E,
    W,
    NE,
    NW,
    SE,
    SW,
}

/// The mouse cursor shown over a handle.
#[derive(Clone, Copy, PartialEq, Eq, Debug, Structural)]
pub enum CursorShape {
    ResizeVertical,
    ResizeHorizontal,
    ResizeNwSe,
    ResizeNeSw,
}

impl Handle {
    /// The handle drags the left edge.
    pub open spec fn drags_left(self) -> bool {
        self == Handle::W || self == Handle::NW || self == Handle::SW
    }

    /// The handle drags the right edge.
    pub open spec fn drags_right(self) -> bool {
        self == Handle::E || self == Handle::NE || self == Handle::SE
    }

    /// The handle drags the top edge.
    pub open spec fn drags_top(self) -> bool {
        self == Handle::N || self == Handle::NW || self == Handle::NE
    }

    /// The handle drags the bottom edge.
    pub open spec fn drags_bottom(self) -> bool {
        self == Handle::S || self == Handle::SW || self == Handle::SE
    }

    /// The handle sits on a corner.
    pub open spec fn at_corner(self) -> bool {
        self == Handle::NE || self == Handle::NW || self == Handle::SE || self == Handle::SW
    }

    pub fn moves_left(self) -> (b: bool)
        ensures
            b == self.drags_left(),
    {
        matches!(self, Handle::W | Handle::NW | Handle::SW)
    }

    pub fn moves_right(self) -> (b: bool)
        ensures
            b == self.drags_right(),
    {
        matches!(self, Handle::E | Handle::NE | Handle::SE)
    }

    pub fn moves_top(self) -> (b: bool)
        ensures
            b == self.drags_top(),
    {
        matches!(self, Handle::N | Handle::NW | Handle::NE)
    }

    pub fn moves_bottom(self) -> (b: bool)
        ensures
            b == self.drags_bottom(),
    {
        matches!(self, Handle::S | Handle::SW | Handle::SE)
    }

    pub fn is_corner(self) -> (b: bool)
        ensures
            b == self.at_corner(),
    {
        matches!(self, Handle::NE | Handle::NW | Handle::SE | Handle::SW)
    }

    /// The resize cursor for this handle: vertical for the top and bottom
    /// sides, horizontal for the left and right sides, and the matching
    /// diagonal for each corner.
    pub fn cursor(self) -> (c: CursorShape)
        ensures
            c == (match self {
                Handle::N | Handle::S => CursorShape::ResizeVertical,
                Handle::E | Handle::W => CursorShape::ResizeHorizontal,
                Handle::NW | Handle::SE => CursorShape::ResizeNwSe,
                Handle::NE | Handle::SW => CursorShape::ResizeNeSw,
            }),
            (c == CursorShape::ResizeVertical) == (!self.at_corner() && (self.drags_top()
                || self.drags_bottom())),
            (c == CursorShape::ResizeHorizontal) == (!self.at_corner() && (self.drags_left()
                || self.drags_right())),
            (c == CursorShape::ResizeNwSe) == ((self.drags_left() && self.drags_top()) || (
            self.drags_right() && self.drags_bottom())),
            (c == CursorShape::ResizeNeSw) == ((self.drags_right() && self.drags_top()) || (
            self.drags_left() && self.drags_bottom())),
    {
        match self {
            Handle::N | Handle::S => CursorShape::ResizeVertical,
            Handle::E | Handle::W => CursorShape::ResizeHorizontal,
            Handle::NW | Handle::SE => CursorShape::ResizeNwSe,
            Handle::NE | Handle::SW => CursorShape::ResizeNeSw,
        }
    }
}

/// The order in which handles are probed under the pointer: the corners
/// first, then the top, bottom, left and right sides.
pub open spec fn probe_order(k: int) -> Handle {
    if k == 0 {
        Handle::NW
    } else if k == 1 {
        Handle::NE
    } else if k == 2 {
        Handle::SW
    } else if k == 3 {
        Handle::SE
    } else if k == 4 {
        Handle::N
    } else if k == 5 {
        Handle::S
    } else if k == 6 {
        Handle::W
    } else {
        Handle::E
    }
}

/// The handle probed in position `k` (below 8).
pub fn handle_at(k: usize) -> (h: Handle)
    requires
        k < 8,
    ensures
        h == probe_order(k as int),
{
    if k == 0 {
        Handle::NW
    } else if k == 1 {
        Handle::NE
    } else if k == 2 {
        Handle::SW
    } else if k == 3 {
        Handle::SE
    } else if k == 4 {
        Handle::N
    } else if k == 5 {
        Handle::S
    } else if k == 6 {
        Handle::W
    } else {
        Handle::E
    }
}

/// The handle grabbed when `near[k]` tells whether the pointer lies within
/// reach of the handle probed in position `k`: the first one in probe order
/// that is near, or none.
pub fn hit_handle(near: [bool; 8]) -> (h: Option<Handle>)
    ensures
        h is None <==> (forall|k: int| 0 <= k < 8 ==> !near@[k]),
        h matches Some(g) ==> exists|k: int|
            0 <= k < 8 && near@[k] && g == probe_order(k) && (forall|j: int|
                0 <= j < k ==> !near@[j]),
{
    let mut k: usize = 0;
    while k < 8
        invariant
            k <= 8,
            forall|j: int| 0 <= j < k ==> !near@[j],
        decreases 8 - k,
    {
        if near[k] {
            return Some(handle_at(k));
        }
        k = k + 1;
    }
    None
}

/// Each handle drags at least one edge, never two opposite edges, and drags
/// one horizontal and one vertical edge exactly when it sits on a corner.
pub proof fn lemma_handle_edges(h: Handle)
    ensures
        h.drags_left() || h.drags_right() || h.drags_top() || h.drags_bottom(),
        !(h.drags_left() && h.drags_right()),
        !(h.drags_top() && h.drags_bottom()),
        h.at_corner() <==> ((h.drags_left() || h.drags_right()) && (h.drags_top()
            || h.drags_bottom())),
{
}

/// The probe order goes through the eight handles once each: the corners
/// first, top row before bottom row and left before right within a row;
/// then the sides, top and bottom before left and right, each pair in that
/// order.
pub proof fn lemma_probe_order()
    ensures
        forall|j: int, k: int| 0 <= j < 8 && 0 <= k < 8 && j != k ==> probe_order(j)
            != probe_order(k),
        forall|k: int| 0 <= k < 8 ==> (#[trigger] probe_order(k).at_corner() <==> k < 4),
        forall|k: int| 0 <= k < 4 ==> (#[trigger] probe_order(k).drags_top() <==> k < 2),
        forall|k: int| 0 <= k < 4 ==> (#[trigger] probe_order(k).drags_left() <==> k % 2 == 0),
        forall|k: int|
            4 <= k < 8 ==> ((#[trigger] probe_order(k).drags_top() || probe_order(k).drags_bottom())
                <==> k < 6),
        forall|k: int|
            4 <= k < 8 ==> ((#[trigger] probe_order(k).drags_top() || probe_order(k).drags_left())
                <==> k % 2 == 0),
{
    assert forall|j: int, k: int| 0 <= j < 8 && 0 <= k < 8 && j != k implies probe_order(j)
        != probe_order(k) by {
        assert(j == 0 || j == 1 || j == 2 || j == 3 || j == 4 || j == 5 || j == 6 || j == 7);
        assert(k == 0 || k == 1 || k == 2 || k == 3 || k == 4 || k == 5 || k == 6 || k == 7);
    }
}

} // verus!
