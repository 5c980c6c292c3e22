//! Clip regions: how a node's clipping rectangle is derived from its
//! parent's, its own layout rectangle and the viewport.
use vstd::prelude::*;

use crate::geometry::Rect;

verus! {

/// The state of a node's clipping rectangle during a layout pass.
#[derive(Clone, Copy, Debug, PartialEq, Eq, Structural)]
pub enum ClipRect {
    /// Not resolved yet: the node will be clipped to its own rectangle
    /// within its parent's clip.
    Unresolved,
    /// The node escapes every ancestor clip and is clipped to the viewport.
    EntireViewport,
    /// The resolved clipping rectangle.
    Resolved(Rect),
}

/// The rectangle of an unresolved clip is empty.
pub open spec fn zero_rect() -> Rect {
    Rect { pos: crate::geometry::Vec2 { x: 0, y: 0 }, size: crate::geometry::Vec2 { x: 0, y: 0 } }
}

impl ClipRect {
    pub open spec fn spec_get_rect(self, viewport: Rect) -> Rect {
        match self {
            ClipRect::Unresolved => zero_rect(),
            ClipRect::EntireViewport => viewport,
            ClipRect::Resolved(r) => r,
        }
    }

    /// The rectangle this state stands for: nothing while unresolved, the
    /// viewport for an escaped clip, else the resolved rectangle.
    pub fn get_rect(self, viewport: Rect) -> (r: Rect)
        ensures
            r == self.spec_get_rect(viewport),
    {
        match self {
            ClipRect::Unresolved => Rect::zero(),
            ClipRect::EntireViewport => viewport,
            ClipRect::Resolved(rect) => rect,
        }
    }

    pub open spec fn spec_resolve_rect(self, layout_rect: Rect, parent_rect: Rect, viewport: Rect) -> Rect {
        match self {
            ClipRect::Unresolved => parent_rect.spec_constrain(layout_rect),
            ClipRect::EntireViewport => viewport,
            ClipRect::Resolved(r) => r,
        }
    }

    /// The candidate clip of a node: its layout rectangle within its
    /// parent's clip, or the viewport where it escapes.
    pub fn resolve_rect(self, layout_rect: Rect, parent_rect: Rect, viewport: Rect) -> (r: Rect)
        ensures
            r == self.spec_resolve_rect(layout_rect, parent_rect, viewport),
    {
        match self {
            ClipRect::Unresolved => parent_rect.constrain(layout_rect),
            ClipRect::EntireViewport => viewport,
            ClipRect::Resolved(rect) => rect,
        }
    }

    /// The clip a node ends with: its candidate, unless the candidate has no
    /// area, in which case the parent's clip is kept.
    pub open spec fn spec_resolve_node(self, layout_rect: Rect, parent_rect: Rect, viewport: Rect) -> Rect {
        let c = self.spec_resolve_rect(layout_rect, parent_rect, viewport);
        if c.spec_is_degenerate() {
            parent_rect
        } else {
            c
        }
    }

    /// Resolves a node's clip, falling back to the parent's clip where the
    /// candidate has no area.
    pub fn resolve_node(self, layout_rect: Rect, parent_rect: Rect, viewport: Rect) -> (r: Rect)
        ensures
            r == self.spec_resolve_node(layout_rect, parent_rect, viewport),
    {
        let c = self.resolve_rect(layout_rect, parent_rect, viewport);
        if c.is_degenerate() {
            parent_rect
        } else {
            c
        }
    }
}

/// Clipping never grows: a node that does not escape ends with a clip that
/// lies inside its parent's clip, whatever its own rectangle.
pub proof fn lemma_clip_within_parent(layout_rect: Rect, parent_rect: Rect, viewport: Rect)
    ensures
        parent_rect.encloses(ClipRect::Unresolved.spec_resolve_node(layout_rect, parent_rect, viewport)),
{
}

/// Sources of a rectangle for a clipping rule.
#[derive(Clone, Copy, Debug, PartialEq, Eq, Structural)]
pub enum AbstractClipRect {
    /// The parent widget's clipping rectangle.
    ParentClip,
    /// The widget's own layout rectangle.
    LayoutRect,
    /// The whole viewport.
    Viewport,
    /// The given rectangle.
    Value(Rect),
}

impl AbstractClipRect {
    pub open spec fn spec_to_rect(self, parent_clip: Rect, layout_rect: Rect, viewport: Rect) -> Rect {
        match self {
            AbstractClipRect::ParentClip => parent_clip,
            AbstractClipRect::LayoutRect => layout_rect,
            AbstractClipRect::Viewport => viewport,
            AbstractClipRect::Value(r) => r,
        }
    }

    /// The concrete rectangle this source names.
    pub fn to_rect(self, parent_clip: Rect, layout_rect: Rect, viewport: Rect) -> (r: Rect)
        ensures
            r == self.spec_to_rect(parent_clip, layout_rect, viewport),
    {
        match self {
            AbstractClipRect::ParentClip => parent_clip,
            AbstractClipRect::LayoutRect => layout_rect,
            AbstractClipRect::Viewport => viewport,
            AbstractClipRect::Value(rect) => rect,
        }
    }
}

/// A widget's clipping rule.
#[derive(Clone, Copy, Debug, PartialEq, Eq, Structural)]
pub enum ClipLogic {
    /// Reuse the parent's clip unchanged.
    Pass,
    /// The intersection of the two rectangles.
    Constrain(AbstractClipRect, AbstractClipRect),
    /// The given rectangle, replacing the parent's clip.
    Override(AbstractClipRect),
}

impl ClipLogic {
    pub open spec fn spec_resolve(self, parent_clip: Rect, layout_rect: Rect, viewport: Rect) -> Rect {
        match self {
            ClipLogic::Pass => parent_clip,
            ClipLogic::Constrain(a, b) => a.spec_to_rect(parent_clip, layout_rect, viewport).spec_constrain(
                b.spec_to_rect(parent_clip, layout_rect, viewport),
            ),
            ClipLogic::Override(a) => a.spec_to_rect(parent_clip, layout_rect, viewport),
        }
    }

    /// The rule applied: the clip that results from it.
    pub fn resolve(self, parent_clip: Rect, layout_rect: Rect, viewport: Rect) -> (r: Rect)
        ensures
            r == self.spec_resolve(parent_clip, layout_rect, viewport),
    {
        match self {
            ClipLogic::Pass => parent_clip,
            ClipLogic::Constrain(a, b) => {
                let a = a.to_rect(parent_clip, layout_rect, viewport);
                let b = b.to_rect(parent_clip, layout_rect, viewport);
                a.constrain(b)
            },
            ClipLogic::Override(rect) => rect.to_rect(parent_clip, layout_rect, viewport),
        }
    }
}

impl Default for ClipLogic {
    /// The rule that applies when a widget names none: pass.
    fn default() -> (r: ClipLogic)
        ensures
            r == ClipLogic::Pass,
    {
        ClipLogic::Pass
    }
}

} // verus!
