//! A widget that breaks its subtree out of the layout and positions it
//! relative to the viewport.
use vstd::prelude::*;

use crate::dom::{Dom, WidgetKey};
use crate::geometry::{Alignment, Vec2};
use crate::widget::{EventInterest, Flow, WidgetKind};

verus! {

/// Where the subtree goes: the point `anchor` of the viewport, moved by
/// `offset`, is where the point `pivot` of the subtree lands.
#[derive(Clone, Copy, Debug, PartialEq, Eq, Structural)]
pub struct Absolute {
    pub anchor: Alignment,
    pub pivot: Alignment,
    pub offset: Vec2,
}

impl Absolute {
    pub fn new(anchor: Alignment, pivot: Alignment, offset: Vec2) -> (r: Absolute)
        ensures
            r.anchor == anchor,
            r.pivot == pivot,
            r.offset == offset,
    {
        Absolute { anchor, pivot, offset }
    }

    /// Declares the widget under the current parent and enters it: what is
    /// declared next, until `Dom::end_widget`, is its subtree.
    pub fn show(self, dom: &mut Dom, key: WidgetKey) -> (r: crate::dom::Handle)
        requires
            old(dom).in_frame(),
            old(dom)@.len() < u32::MAX,
        ensures
            Dom::begin_post(
                *old(dom),
                *final(dom),
                key,
                WidgetKind::Absolute(AbsoluteWidget { props: self }),
                EventInterest { bits: 0 },
                r,
            ),
            old(dom).linked() ==> final(dom).linked(),
    {
        let mut w = AbsoluteWidget::new();
        w.update(self);
        dom.begin_widget(key, WidgetKind::Absolute(w), EventInterest::empty())
    }
}

/// The stored state of an `Absolute` widget.
#[derive(Clone, Copy, Debug, PartialEq, Eq, Structural)]
pub struct AbsoluteWidget {
    pub props: Absolute,
}

impl AbsoluteWidget {
    /// A widget anchored at the top left corner, with no offset.
    pub fn new() -> (r: AbsoluteWidget)
        ensures
            r.props.anchor == Alignment::spec_top_left(),
            r.props.pivot == Alignment::spec_top_left(),
            r.props.offset == (Vec2 { x: 0, y: 0 }),
    {
        AbsoluteWidget {
            props: Absolute { anchor: Alignment::top_left(), pivot: Alignment::top_left(), offset: Vec2::zero() },
        }
    }

    /// Takes the new properties.
    pub fn update(&mut self, props: Absolute)
        ensures
            final(self).props == props,
    {
        self.props = props;
    }

    pub open spec fn spec_flow(self) -> Flow {
        Flow::Absolute { anchor: self.props.anchor, offset: self.props.offset }
    }

    /// Positioned relative to the viewport, at the anchor and offset.
    pub fn flow(&self) -> (r: Flow)
        ensures
            r == self.spec_flow(),
    {
        Flow::Absolute { anchor: self.props.anchor, offset: self.props.offset }
    }

    pub open spec fn spec_child_offset(self, size: Vec2, inner: Vec2) -> Vec2 {
        let z = Vec2 { x: 0, y: 0 };
        self.props.anchor.spec_place(size, z).spec_sub(self.props.pivot.spec_place(inner, z))
    }

    /// Where the children, of extent `inner`, sit within the widget of size
    /// `size`. The widget itself is placed with its anchor point on the
    /// viewport's anchor point, so the children's pivot point lands there.
    pub fn child_offset(&self, size: Vec2, inner: Vec2) -> (r: Vec2)
        ensures
            r == self.spec_child_offset(size, inner),
    {
        let z = Vec2::zero();
        self.props.anchor.place(size, z).sub(self.props.pivot.place(inner, z))
    }
}

} // verus!
