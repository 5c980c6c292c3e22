//! Event interest and hit testing: which node an input event goes to.
use vstd::prelude::*;

use crate::dom::{Dom, DomNode, Handle};
use crate::geometry::{Rect, Vec2};
use crate::layout::{LayoutDom, LayoutDomNode};
use crate::widget::EventInterest;

verus! {

/// A node that asked for mouse events, in the layer it was laid out in.
#[derive(Clone, Copy, Debug, PartialEq, Eq, Structural)]
pub struct InterestEntry {
    /// Layers are numbered in the order they were opened; zero is the base.
    pub layer: usize,
    pub id: Handle,
    pub interest: EventInterest,
}

/// The nodes interested in mouse events, by layer, rebuilt every layout
/// pass. Layers opened later lie on top.
pub struct MouseInterest {
    /// In the order the nodes were laid out.
    pub entries: Vec<InterestEntry>,
    /// The node that opened each layer; none for the base layer.
    pub layer_roots: Vec<Option<Handle>>,
    /// The layers open at this point of the pass, outermost first.
    pub stack: Vec<usize>,
}

impl MouseInterest {
    pub open spec fn wf(&self) -> bool {
        &&& self.layer_roots@.len() >= 1
        &&& self.stack@.len() >= 1
        &&& self.stack@[0] == 0
        &&& forall|i: int| 0 <= i < self.stack@.len() ==> #[trigger] self.stack@[i] < self.layer_roots@.len()
        &&& forall|i: int| 0 <= i < self.entries@.len() ==> #[trigger] self.entries@[i].layer < self.layer_roots@.len()
    }

    /// No entries, and only the base layer.
    pub fn new() -> (r: MouseInterest)
        ensures
            r.wf(),
            r.entries@.len() == 0,
            r.layer_roots@.len() == 1,
            r.stack@ == seq![0usize],
    {
        let mut layer_roots = Vec::new();
        layer_roots.push(None);
        let mut stack = Vec::new();
        stack.push(0);
        proof {
            assert(stack@ =~= seq![0usize]);
        }
        MouseInterest { entries: Vec::new(), layer_roots, stack }
    }

    /// Forgets every entry and layer.
    pub fn clear(&mut self)
        ensures
            final(self).wf(),
            final(self).entries@.len() == 0,
            final(self).layer_roots@.len() == 1,
            final(self).stack@ == seq![0usize],
    {
        *self = MouseInterest::new();
    }

    /// Opens a layer for `id`, on top of all others.
    pub fn push_layer(&mut self, id: Handle)
        requires
            old(self).wf(),
        ensures
            final(self).wf(),
            final(self).entries@ == old(self).entries@,
            final(self).layer_roots@ == old(self).layer_roots@.push(Some(id)),
            final(self).stack@ == old(self).stack@.push(old(self).layer_roots@.len() as usize),
            old(self).layer_roots@.len() <= usize::MAX,
    {
        let n = self.layer_roots.len();
        self.layer_roots.push(Some(id));
        self.stack.push(n);
        proof {
            assert forall|i: int| 0 <= i < self.stack@.len() implies #[trigger] self.stack@[i] < self.layer_roots@.len() by {
                if i < old(self).stack@.len() {
                    assert(self.stack@[i] == old(self).stack@[i]);
                }
            }
            assert forall|i: int| 0 <= i < self.entries@.len() implies #[trigger] self.entries@[i].layer
                < self.layer_roots@.len() by {
                assert(self.entries@[i] == old(self).entries@[i]);
            }
        }
    }

    /// Closes the innermost layer; the base layer is never closed.
    pub fn pop_layer(&mut self)
        requires
            old(self).wf(),
        ensures
            final(self).wf(),
            final(self).entries@ == old(self).entries@,
            final(self).layer_roots@ == old(self).layer_roots@,
            final(self).stack@ == (if old(self).stack@.len() > 1 {
                old(self).stack@.drop_last()
            } else {
                old(self).stack@
            }),
    {
        if self.stack.len() > 1 {
            self.stack.pop();
        }
    }

    /// The node that opened the innermost open layer.
    pub fn current_layer_root(&self) -> (r: Option<Handle>)
        requires
            self.wf(),
        ensures
            r == self.layer_roots@[self.stack@.last() as int],
    {
        self.layer_roots[self.stack[self.stack.len() - 1]]
    }

    /// Records interest of `id` in the innermost open layer.
    pub fn insert(&mut self, id: Handle, interest: EventInterest)
        requires
            old(self).wf(),
        ensures
            final(self).wf(),
            final(self).entries@ == old(self).entries@.push(
                InterestEntry { layer: old(self).stack@.last(), id, interest },
            ),
            final(self).layer_roots@ == old(self).layer_roots@,
            final(self).stack@ == old(self).stack@,
    {
        let layer = self.stack[self.stack.len() - 1];
        self.entries.push(InterestEntry { layer, id, interest });
        proof {
            assert forall|i: int| 0 <= i < self.entries@.len() implies #[trigger] self.entries@[i].layer
                < self.layer_roots@.len() by {
                if i < old(self).entries@.len() {
                    assert(self.entries@[i] == old(self).entries@[i]);
                }
            }
        }
    }

    /// Whether any entry names `id`.
    pub open spec fn mentions(&self, id: Handle) -> bool {
        exists|i: int| 0 <= i < self.entries@.len() && #[trigger] self.entries@[i].id == id
    }
}

/// The region of a laid-out node that receives the pointer: its rectangle
/// within its clip.
pub open spec fn hit_region(n: LayoutDomNode, viewport: Rect) -> Rect {
    n.rect.spec_constrain(n.clip_rect.spec_get_rect(viewport))
}

/// Entry `k` is laid out, wants the mouse, and its region holds `p`.
pub open spec fn entry_hit(
    entries: Seq<InterestEntry>,
    nodes: Map<Handle, LayoutDomNode>,
    viewport: Rect,
    p: Vec2,
    k: int,
) -> bool {
    &&& 0 <= k < entries.len()
    &&& nodes.contains_key(entries[k].id)
    &&& entries[k].interest.spec_wants_mouse()
    &&& hit_region(nodes[entries[k].id], viewport).spec_contains(p)
}

/// Entry `m` ranks below entry `k`: it is on a lower layer, or on the same
/// layer and laid out no later.
pub open spec fn ranks_below(entries: Seq<InterestEntry>, m: int, k: int) -> bool {
    entries[m].layer < entries[k].layer || (entries[m].layer == entries[k].layer && m <= k)
}

/// Entry `k` takes the pointer at `p`: it is hit, and every other hit entry
/// ranks below it.
pub open spec fn is_hit_winner(
    entries: Seq<InterestEntry>,
    nodes: Map<Handle, LayoutDomNode>,
    viewport: Rect,
    p: Vec2,
    k: int,
) -> bool {
    &&& entry_hit(entries, nodes, viewport, p, k)
    &&& forall|m: int| #[trigger] entry_hit(entries, nodes, viewport, p, m) ==> ranks_below(entries, m, k)
}

/// The entry that takes the pointer at `p`: of the hit entries, the one on
/// the topmost layer, and within it the one laid out last (a later sibling
/// or a descendant). `None` when no entry is hit.
pub fn hit_test(mouse: &MouseInterest, layout: &LayoutDom, p: Vec2) -> (r: Option<usize>)
    requires
        layout.wf(),
    ensures
        r matches Some(k) ==> is_hit_winner(mouse.entries@, layout@, layout.spec_viewport(), p, k as int),
        r is None ==> forall|m: int| !#[trigger] entry_hit(mouse.entries@, layout@, layout.spec_viewport(), p, m),
{
    let viewport = layout.viewport();
    let ghost es = mouse.entries@;
    let ghost nodes = layout@;
    let mut best: Option<usize> = None;
    let mut i: usize = 0;
    while i < mouse.entries.len()
        invariant
            i <= es.len(),
            es == mouse.entries@,
            nodes == layout@,
            layout.wf(),
            viewport == layout.spec_viewport(),
            best matches Some(k) ==> k < i && entry_hit(es, nodes, viewport, p, k as int),
            forall|m: int|
                0 <= m < i && #[trigger] entry_hit(es, nodes, viewport, p, m) ==> (best matches Some(k)
                    && ranks_below(es, m, k as int)),
        decreases es.len() - i,
    {
        let e = mouse.entries[i];
        let hit = match layout.get(e.id) {
            Some(n) => {
                let region = n.rect.constrain(n.clip_rect.get_rect(viewport));
                e.interest.wants_mouse() && region.contains_point(p)
            },
            None => false,
        };
        if hit {
            let better = match best {
                Some(k) => mouse.entries[k].layer <= e.layer,
                None => true,
            };
            if better {
                best = Some(i);
            }
        }
        i = i + 1;
    }
    best
}

/// Layers take priority: where two hit entries lie on different layers, the
/// pointer never goes to the one on the layer opened first.
pub proof fn lemma_layer_priority(
    entries: Seq<InterestEntry>,
    nodes: Map<Handle, LayoutDomNode>,
    viewport: Rect,
    p: Vec2,
    a: int,
    b: int,
    k: int,
)
    requires
        entry_hit(entries, nodes, viewport, p, a),
        entry_hit(entries, nodes, viewport, p, b),
        entries[a].layer < entries[b].layer,
        is_hit_winner(entries, nodes, viewport, p, k),
    ensures
        k != a,
        entries[k].layer >= entries[b].layer,
{
    assert(ranks_below(entries, b, k));
}

/// The node `n` steps up the parent chain from `h`.
pub open spec fn dom_up(m: Map<Handle, DomNode>, h: Handle, n: nat) -> Option<Handle>
    decreases n,
{
    if n == 0 {
        Some(h)
    } else if m.contains_key(h) {
        match m[h].parent {
            Some(p) => dom_up(m, p, (n - 1) as nat),
            None => None,
        }
    } else {
        None
    }
}

/// One more step up the chain is one step from where `n` steps led.
proof fn lemma_up_step(m: Map<Handle, DomNode>, h: Handle, n: nat)
    ensures
        dom_up(m, h, n + 1) == (match dom_up(m, h, n) {
            Some(x) => if m.contains_key(x) {
                m[x].parent
            } else {
                None
            },
            None => None,
        }),
    decreases n,
{
    reveal_with_fuel(dom_up, 2);
    if n > 0 && m.contains_key(h) {
        if let Some(p) = m[h].parent {
            lemma_up_step(m, p, (n - 1) as nat);
        }
    }
}

/// The node was laid out and asked for a category of `interest`.
pub open spec fn wants(layout: Map<Handle, LayoutDomNode>, h: Handle, interest: EventInterest) -> bool {
    layout.contains_key(h) && layout[h].event_interest.spec_intersects(interest)
}

/// `r` lists ancestors of `start` that want the event, `ns` giving how many
/// steps up each one is; the steps grow along `r`.
pub open spec fn bubble_chain(
    dom: Map<Handle, DomNode>,
    layout: Map<Handle, LayoutDomNode>,
    start: Handle,
    interest: EventInterest,
    r: Seq<Handle>,
    ns: Seq<nat>,
) -> bool {
    &&& ns.len() == r.len()
    &&& forall|k: int|
        0 <= k < r.len() ==> dom_up(dom, start, #[trigger] ns[k]) == Some(r[k]) && wants(layout, r[k], interest)
    &&& forall|k1: int, k2: int| 0 <= k1 < k2 < r.len() ==> #[trigger] ns[k1] < #[trigger] ns[k2]
}

/// Every ancestor of `start` within as many steps as the tree has nodes
/// that wants the event is in `r`.
pub open spec fn bubble_complete(
    dom: Map<Handle, DomNode>,
    layout: Map<Handle, LayoutDomNode>,
    start: Handle,
    interest: EventInterest,
    r: Seq<Handle>,
) -> bool {
    forall|n: nat|
        n < dom.len() ==> (#[trigger] dom_up(dom, start, n) matches Some(x) ==> (wants(layout, x, interest) ==> r.contains(x)))
}

/// The nodes a mouse event bubbles through from `start`: it and its
/// ancestors, nearest first, that were laid out and asked for a category of
/// `interest`. Each handler is offered the event in turn until one sinks
/// it. Only as many steps up are taken as the tree has nodes.
pub fn bubble_targets(dom: &Dom, layout: &LayoutDom, start: Handle, interest: EventInterest) -> (r: Vec<Handle>)
    requires
        dom.wf(),
        layout.wf(),
    ensures
        exists|ns: Seq<nat>| #[trigger] bubble_chain(dom@, layout@, start, interest, r@, ns),
        bubble_complete(dom@, layout@, start, interest, r@),
{
    let budget = dom.len();
    let mut r: Vec<Handle> = Vec::new();
    let mut cur: Option<Handle> = Some(start);
    let ghost mut ns: Seq<nat> = Seq::empty();
    let mut n: usize = 0;
    while n < budget
        invariant
            n <= budget,
            budget == dom@.len(),
            dom.wf(),
            layout.wf(),
            cur == dom_up(dom@, start, n as nat),
            ns.len() == r@.len(),
            forall|k: int|
                0 <= k < r@.len() ==> #[trigger] ns[k] < n && dom_up(dom@, start, ns[k]) == Some(r@[k]) && wants(
                    layout@,
                    r@[k],
                    interest,
                ),
            forall|k1: int, k2: int| 0 <= k1 < k2 < r@.len() ==> #[trigger] ns[k1] < #[trigger] ns[k2],
            forall|m: nat|
                m < n ==> (#[trigger] dom_up(dom@, start, m) matches Some(x) ==> (wants(layout@, x, interest) ==> r@.contains(x))),
        decreases budget - n,
    {
        proof {
            lemma_up_step(dom@, start, n as nat);
        }
        if let Some(h) = cur {
            let ghost r0 = r@;
            let ghost ns0 = ns;
            if let Some(ln) = layout.get(h) {
                if ln.event_interest.intersects(interest) {
                    r.push(h);
                    proof {
                        ns = ns.push(n as nat);
                        assert(r@[r@.len() - 1] == h);
                        assert forall|k: int| 0 <= k < r@.len() implies #[trigger] ns[k] < n + 1 && dom_up(
                            dom@,
                            start,
                            ns[k],
                        ) == Some(r@[k]) && wants(layout@, r@[k], interest) by {
                            if k < r0.len() {
                                assert(ns[k] == ns0[k]);
                                assert(r@[k] == r0[k]);
                            }
                        }
                        assert forall|k1: int, k2: int| 0 <= k1 < k2 < r@.len() implies #[trigger] ns[k1]
                            < #[trigger] ns[k2] by {
                            if k2 < r0.len() {
                                assert(ns[k1] == ns0[k1] && ns[k2] == ns0[k2]);
                            } else {
                                assert(ns[k1] == ns0[k1]);
                            }
                        }
                    }
                }
            }
            proof {
                assert forall|m: nat| m < n + 1 implies (#[trigger] dom_up(dom@, start, m) matches Some(x) ==> (wants(layout@, x, interest) ==> r@.contains(x))) by {
                    if m < n {
                        if let Some(x) = dom_up(dom@, start, m) {
                            if wants(layout@, x, interest) {
                                assert(r0.contains(x));
                                let k = choose|k: int| 0 <= k < r0.len() && r0[k] == x;
                                assert(r@[k] == x);
                            }
                        }
                    } else {
                        if wants(layout@, h, interest) {
                            assert(r@[r@.len() - 1] == h);
                        }
                    }
                }
            }
            cur = match dom.get(h) {
                Some(d) => d.parent,
                None => None,
            };
        }
        n = n + 1;
    }
    proof {
        assert(bubble_chain(dom@, layout@, start, interest, r@, ns));
    }
    r
}

/// Focus and selection.
pub struct InputState {
    /// The node keyboard events go to.
    pub focused: Option<Handle>,
    /// The node whose content is being edited.
    pub selection: Option<Handle>,
}

impl InputState {
    pub fn new() -> (r: InputState)
        ensures
            r.focused is None,
            r.selection is None,
    {
        InputState { focused: None, selection: None }
    }

    pub fn set_selection(&mut self, id: Option<Handle>)
        ensures
            final(self).selection == id,
            final(self).focused == old(self).focused,
    {
        self.selection = id;
    }

    pub fn set_focus(&mut self, id: Option<Handle>)
        ensures
            final(self).focused == id,
            final(self).selection == old(self).selection,
    {
        self.focused = id;
    }

    /// Where a keyboard event goes: the focused node, where it is laid out
    /// and asked for keyboard events. Otherwise the event is dropped.
    pub fn keyboard_target(&self, layout: &LayoutDom) -> (r: Option<Handle>)
        requires
            layout.wf(),
        ensures
            r == (match self.focused {
                Some(f) => if layout@.contains_key(f) && layout@[f].event_interest.spec_wants_keyboard() {
                    Some(f)
                } else {
                    None
                },
                None => None,
            }),
    {
        match self.focused {
            Some(f) => match layout.get(f) {
                Some(n) => if n.event_interest.wants_keyboard() {
                    Some(f)
                } else {
                    None
                },
                None => None,
            },
            None => None,
        }
    }

    /// Forgets focus and selection held by nodes no longer in the tree.
    pub fn sync_removals(&mut self, dom: &Dom)
        requires
            dom.wf(),
        ensures
            final(self).focused == (match old(self).focused {
                Some(f) => if dom@.contains_key(f) {
                    Some(f)
                } else {
                    None
                },
                None => None,
            }),
            final(self).selection == (match old(self).selection {
                Some(f) => if dom@.contains_key(f) {
                    Some(f)
                } else {
                    None
                },
                None => None,
            }),
    {
        if let Some(f) = self.focused {
            if dom.get(f).is_none() {
                self.focused = None;
            }
        }
        if let Some(s) = self.selection {
            if dom.get(s).is_none() {
                self.selection = None;
            }
        }
    }
}

} // verus!
