//! One frame of the toolkit, end to end: declaration, reconciliation,
//! layout and paint.
use vstd::prelude::*;

use crate::dom::{Dom, Handle};
use crate::geometry::Vec2;
use crate::input::{bubble_chain, bubble_complete, bubble_targets, entry_hit, hit_test, is_hit_winner, InputState};
use crate::widget::{EventInterest, MOUSE_ALL};
use crate::layout::LayoutDom;
use crate::layout::LayoutDomNode;
use crate::paint::{calls_fill_boxes, fills, layer_order, layer_walks, texture_diff, PaintDom};

verus! {

/// The whole retained state.
pub struct Yakui {
    pub dom: Dom,
    pub layout: LayoutDom,
    pub input: InputState,
    pub paint: PaintDom,
}

impl Yakui {
    /// Between frames.
    pub open spec fn wf(&self) -> bool {
        &&& self.dom.wf()
        &&& self.dom.linked()
        &&& self.layout.wf()
    }

    pub fn new() -> (r: Yakui)
        ensures
            r.wf(),
            r.dom.in_frame(),
            r.dom.generation == 0,
    {
        Yakui { dom: Dom::new(), layout: LayoutDom::new(), input: InputState::new(), paint: PaintDom::new() }
    }

    /// Begins a frame: what is declared next builds its tree.
    pub fn start(&mut self)
        requires
            old(self).wf(),
            old(self).dom.generation < u64::MAX,
        ensures
            final(self).wf(),
            Dom::start_post(old(self).dom, final(self).dom),
            final(self).layout == old(self).layout,
    {
        self.dom.start_frame();
        self.paint.start();
    }

    /// Ends a frame: nodes not declared in it are removed, along with every
    /// record kept for them, then the tree is laid out and painted, and the
    /// texture edits computed. Returns the removed handles.
    pub fn finish(&mut self) -> (removed: Vec<Handle>)
        requires
            old(self).wf(),
            old(self).dom.in_frame(),
        ensures
            final(self).wf(),
            Dom::finish_post(old(self).dom, final(self).dom, removed@),
            forall|h: Handle|
                #[trigger] removed@.contains(h) ==> {
                    &&& !final(self).dom@.contains_key(h)
                    &&& !final(self).layout@.contains_key(h)
                    &&& !final(self).layout.interest_mouse.mentions(h)
                    &&& final(self).input.focused != Some(h)
                    &&& final(self).input.selection != Some(h)
                },
            exists|sized: Map<Handle, LayoutDomNode>, vis: Map<Handle, Option<Handle>>|
                #[trigger] final(self).layout.laid_out(final(self).dom, sized, vis),
            final(self).layout.unscaled_viewport == old(self).layout.unscaled_viewport,
            final(self).layout.scale_factor == old(self).layout.scale_factor,
            calls_fill_boxes(final(self).paint.calls@, final(self).dom, final(self).layout),
            exists|ls: Seq<Handle>|
                #[trigger] layer_order(final(self).dom@, final(self).layout@, final(self).dom.root, ls, final(self).dom@.len())
                    && fills(
                    final(self).paint.calls@,
                    layer_walks(final(self).dom@, final(self).layout@, ls, final(self).dom@.len(), ls.len()).0,
                    final(self).dom,
                    final(self).layout,
                ),
            final(self).paint.texture_edits@ == texture_diff(old(self).paint.prev_textures@, old(self).paint.textures@),
            final(self).paint.textures@ == old(self).paint.textures@,
            final(self).paint.prev_textures@ == old(self).paint.prev_textures@,
    {
        let removed = self.dom.finish_frame();
        self.layout.sync_removals(&removed);
        self.input.sync_removals(&self.dom);
        let r = self.layout.calculate_all(&self.dom);
        self.paint.clear_calls();
        self.paint.paint_all(&self.dom, &self.layout);
        self.paint.finish();
        proof {
            assert(self.layout.laid_out(self.dom, r@.0, r@.1));
            assert(self.paint.calls@.subrange(0, self.paint.calls@.len() as int) =~= self.paint.calls@);
        }
        proof {
            assert forall|h: Handle| #[trigger] removed@.contains(h) implies !self.layout.interest_mouse.mentions(h) by {
                if self.layout.interest_mouse.mentions(h) {
                    let k = choose|k: int|
                        0 <= k < self.layout.interest_mouse.entries@.len()
                            && #[trigger] self.layout.interest_mouse.entries@[k].id == h;
                    let e = self.layout.interest_mouse.entries@[k];
                    assert(self.layout@.contains_key(e.id));
                    assert(self.dom@.contains_key(e.id));
                }
            }
        }
        removed
    }

    /// The nodes a pointer event at `p` is offered to, in order: the node
    /// that takes the pointer there, then its ancestors that asked for the
    /// mouse, nearest first, until one sinks it. Empty where no node is hit.
    pub fn mouse_targets(&self, p: Vec2) -> (r: Vec<Handle>)
        requires
            self.wf(),
        ensures
            (forall|m: int|
                !#[trigger] entry_hit(self.layout.interest_mouse.entries@, self.layout@, self.layout.spec_viewport(), p, m))
                ==> r@.len() == 0,
            (exists|m: int|
                #[trigger] entry_hit(self.layout.interest_mouse.entries@, self.layout@, self.layout.spec_viewport(), p, m))
                ==> exists|k: int|
                #[trigger] is_hit_winner(
                    self.layout.interest_mouse.entries@,
                    self.layout@,
                    self.layout.spec_viewport(),
                    p,
                    k,
                ) && bubble_complete(
                    self.dom@,
                    self.layout@,
                    self.layout.interest_mouse.entries@[k].id,
                    EventInterest { bits: MOUSE_ALL },
                    r@,
                ) && exists|ns: Seq<nat>|
                    #[trigger] bubble_chain(
                        self.dom@,
                        self.layout@,
                        self.layout.interest_mouse.entries@[k].id,
                        EventInterest { bits: MOUSE_ALL },
                        r@,
                        ns,
                    ),
    {
        match hit_test(&self.layout.interest_mouse, &self.layout, p) {
            Some(k) => {
                let r = bubble_targets(
                    &self.dom,
                    &self.layout,
                    self.layout.interest_mouse.entries[k].id,
                    EventInterest::from_bits(MOUSE_ALL),
                );
                proof {
                    assert(is_hit_winner(
                        self.layout.interest_mouse.entries@,
                        self.layout@,
                        self.layout.spec_viewport(),
                        p,
                        k as int,
                    ));
                }
                r
            },
            None => Vec::new(),
        }
    }
}

} // verus!
