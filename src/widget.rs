//! What the tree holds at each node: the widget kinds, how they position
//! themselves, and the events they want.
use vstd::prelude::*;

use crate::absolute::AbsoluteWidget;
use crate::geometry::{Alignment, Vec2};

verus! {

/// A set of event categories, one bit each.
#[derive(Clone, Copy, Debug, PartialEq, Eq, Structural)]
pub struct EventInterest {
    pub bits: u8,
}

pub const MOUSE_INSIDE: u8 = 1;

pub const MOUSE_OUTSIDE: u8 = 2;

pub const MOUSE_MOVE: u8 = 4;

pub const FOCUSED_KEYBOARD: u8 = 8;

/// Every mouse category.
pub const MOUSE_ALL: u8 = 7;

impl EventInterest {
    pub fn empty() -> (r: EventInterest)
        ensures
            r.bits == 0,
    {
        EventInterest { bits: 0 }
    }

    pub fn from_bits(bits: u8) -> (r: EventInterest)
        ensures
            r.bits == bits,
    {
        EventInterest { bits }
    }

    /// The union of two sets.
    pub fn union(self, o: EventInterest) -> (r: EventInterest)
        ensures
            r.bits == self.bits | o.bits,
    {
        EventInterest { bits: self.bits | o.bits }
    }

    pub open spec fn spec_intersects(self, o: EventInterest) -> bool {
        self.bits & o.bits != 0
    }

    /// Whether the two sets share a category.
    pub fn intersects(self, o: EventInterest) -> (r: bool)
        ensures
            r == self.spec_intersects(o),
    {
        self.bits & o.bits != 0
    }

    pub open spec fn spec_wants_mouse(self) -> bool {
        self.bits & MOUSE_ALL != 0
    }

    /// Whether any mouse category is in the set.
    pub fn wants_mouse(self) -> (r: bool)
        ensures
            r == self.spec_wants_mouse(),
    {
        self.bits & MOUSE_ALL != 0
    }

    pub open spec fn spec_wants_keyboard(self) -> bool {
        self.bits & FOCUSED_KEYBOARD != 0
    }

    /// Whether keyboard events for the focused widget are in the set.
    pub fn wants_keyboard(self) -> (r: bool)
        ensures
            r == self.spec_wants_keyboard(),
    {
        self.bits & FOCUSED_KEYBOARD != 0
    }
}

/// How a widget is positioned.
#[derive(Clone, Copy, Debug, PartialEq, Eq, Structural)]
pub enum Flow {
    /// Relative to its parent.
    Normal,
    /// Relative to the viewport, whatever its ancestors' positions: placed
    /// at `anchor` within the viewport, then moved by `offset`.
    Absolute { anchor: Alignment, offset: Vec2 },
}

/// Whether an event handler consumed an event.
#[derive(Clone, Copy, Debug, PartialEq, Eq, Structural)]
pub enum EventResponse {
    /// Stop here.
    Sink,
    /// Hand the event on to the next interested ancestor.
    Bubble,
}

/// The widget catalogue a tree is built from.
#[derive(Clone, Copy, Debug, PartialEq, Eq, Structural)]
pub enum WidgetKind {
    /// The root of every tree: lays each child out in the whole viewport.
    Root,
    /// A box that asks for the given size and lays its children out within it.
    Sized(Vec2),
    /// A box like `Sized`, filled with an RGBA colour.
    ColoredBox { size: Vec2, color: u32 },
    /// Stacks its children from top to bottom.
    Column,
    /// Places its children relative to the viewport.
    Absolute(AbsoluteWidget),
    /// Puts itself and its subtree on a new layer, above what came before.
    Layer,
    /// Escapes every ancestor clip: its subtree is clipped to the viewport.
    Escape,
}

impl WidgetKind {
    pub open spec fn spec_flow(self) -> Flow {
        match self {
            WidgetKind::Absolute(w) => w.spec_flow(),
            _ => Flow::Normal,
        }
    }

    /// How the widget wants to be positioned.
    pub fn flow(&self) -> (r: Flow)
        ensures
            r == self.spec_flow(),
    {
        match self {
            WidgetKind::Absolute(w) => w.flow(),
            _ => Flow::Normal,
        }
    }

    pub open spec fn spec_opens_layer(self) -> bool {
        self == WidgetKind::Layer
    }

    pub open spec fn spec_escapes_clip(self) -> bool {
        self == WidgetKind::Escape
    }
}

} // verus!
