//! The layout pass: sizes from constraints, then absolute positions and
//! clip rectangles, for every node reachable from the root.
use vstd::prelude::*;

use thunderdome::{Arena, Index};

use crate::clipping::{lemma_clip_within_parent, ClipRect};
use crate::dom::{arena_wf, slot_free, Dom, DomNode, Handle};
use crate::geometry::{max_int, sat, scale_div, trunc_div, Alignment, Constraints, Rect, Vec2, UNBOUNDED};
use crate::input::{dom_up, MouseInterest};
use crate::widget::{EventInterest, Flow, WidgetKind};

verus! {

/// What the layout pass knows of a node.
#[derive(Clone, Copy, Debug, PartialEq, Eq, Structural)]
pub struct LayoutDomNode {
    /// The node's rectangle: relative to its parent after the size pass,
    /// absolute once positions are resolved.
    pub rect: Rect,
    /// The node's clip.
    pub clip_rect: ClipRect,
    /// The node opened a layer: it and its subtree lie above what came
    /// before.
    pub new_layer: bool,
    /// The events the node asked for.
    pub event_interest: EventInterest,
}

/// The contents of an arena of layout nodes, by handle.
pub uninterp spec fn layout_nodes(a: Arena<LayoutDomNode>) -> Map<Handle, LayoutDomNode>;

/// `m` without the entries on the slot of `h`.
pub open spec fn without_slot<T>(m: Map<Handle, T>, h: Handle) -> Map<Handle, T> {
    m.restrict(m.dom().filter(|k: Handle| k.spec_slot() != h.spec_slot()))
}

/// Relies on thunderdome::Arena::new: a new arena is empty.
#[verifier::external_body]
fn layout_arena_new() -> (r: Arena<LayoutDomNode>)
    ensures
        layout_nodes(r).dom().finite(),
        layout_nodes(r).dom().len() == 0,
{
    Arena::new()
}

/// Relies on thunderdome::Arena::clear: every entry is dropped.
#[verifier::external_body]
fn layout_arena_clear(a: &mut Arena<LayoutDomNode>)
    ensures
        layout_nodes(*final(a)).dom().finite(),
        layout_nodes(*final(a)).dom().len() == 0,
{
    a.clear()
}

/// Relies on thunderdome::Arena::get: a value is found only under the slot
/// and generation it is stored with; Index::from_bits reads the two halves.
#[verifier::external_body]
fn layout_arena_get(a: &Arena<LayoutDomNode>, h: Handle) -> (r: Option<&LayoutDomNode>)
    requires
        arena_wf(layout_nodes(*a)),
    ensures
        r is Some == layout_nodes(*a).contains_key(h),
        r matches Some(n) ==> *n == layout_nodes(*a)[h],
{
    Index::from_bits(h.bits).and_then(|i| a.get(i))
}

/// Relies on thunderdome::Arena::insert_at: whatever the slot of the index
/// held is replaced by the value, stored under the index's generation; the
/// call panics only when the slot is empty and the arena already holds
/// u32::MAX entries. Index::from_bits reads the slot and generation out of
/// the handle.
#[verifier::external_body]
fn layout_arena_insert_at(a: &mut Arena<LayoutDomNode>, h: Handle, v: LayoutDomNode)
    requires
        arena_wf(layout_nodes(*old(a))),
        h.spec_generation() > 0,
        slot_free(layout_nodes(*old(a)), h) ==> layout_nodes(*old(a)).dom().len() < u32::MAX,
    ensures
        layout_nodes(*final(a)) == without_slot(layout_nodes(*old(a)), h).insert(h, v),
{
    Index::from_bits(h.bits).and_then(|i| a.insert_at(i, v));
}

/// Relies on thunderdome::Arena::remove: the entry under exactly this slot
/// and generation, if any, is taken out; Index::from_bits reads the slot
/// and generation out of the handle.
#[verifier::external_body]
fn layout_arena_remove(a: &mut Arena<LayoutDomNode>, h: Handle)
    requires
        arena_wf(layout_nodes(*old(a))),
    ensures
        layout_nodes(*final(a)) == layout_nodes(*old(a)).remove(h),
{
    Index::from_bits(h.bits).and_then(|i| a.remove(i));
}

/// Relies on thunderdome::Arena::len: the number of entries.
#[verifier::external_body]
fn layout_arena_len(a: &Arena<LayoutDomNode>) -> (r: usize)
    ensures
        r == layout_nodes(*a).dom().len(),
{
    a.len()
}

/// Inserting at a handle of the tree into a map whose keys are all handles
/// of the tree replaces at most that handle's own entry.
proof fn lemma_insert_within<T, U>(m: Map<Handle, T>, dm: Map<Handle, U>, h: Handle)
    requires
        arena_wf(m),
        arena_wf(dm),
        m.dom().subset_of(dm.dom()),
        dm.contains_key(h),
    ensures
        without_slot(m, h) == m.remove(h),
        slot_free(m, h) ==> m.dom().len() < u32::MAX,
        h.spec_generation() > 0,
{
    assert(without_slot(m, h).dom() =~= m.remove(h).dom());
    assert(without_slot(m, h) =~= m.remove(h));
    if slot_free(m, h) {
        assert(m.dom().subset_of(dm.dom().remove(h)));
        vstd::set_lib::lemma_len_subset(m.dom(), dm.dom().remove(h));
    }
}

proof fn lemma_wf_after_insert<T, U>(m: Map<Handle, T>, dm: Map<Handle, U>, h: Handle, v: T)
    requires
        arena_wf(m),
        arena_wf(dm),
        m.dom().subset_of(dm.dom()),
        dm.contains_key(h),
    ensures
        arena_wf(m.remove(h).insert(h, v)),
        m.remove(h).insert(h, v).dom().subset_of(dm.dom()),
{
    let n = m.remove(h).insert(h, v);
    assert(n.dom() =~= m.dom().insert(h));
    vstd::set_lib::lemma_len_subset(n.dom(), dm.dom());
}

/// Where the position pass puts a node: an absolute node at its anchor in
/// the viewport, moved by its offset; any other node at its position within
/// its parent, moved by the parent's absolute position.
pub open spec fn placed(flow: Flow, local: Vec2, base: Vec2, viewport: Rect, size: Vec2) -> Vec2 {
    match flow {
        Flow::Normal => local.spec_add(base),
        Flow::Absolute { anchor, offset } => anchor.spec_place(viewport.size, size).spec_add(offset),
    }
}

fn place(flow: Flow, local: Vec2, base: Vec2, viewport: Rect, size: Vec2) -> (r: Vec2)
    ensures
        r == placed(flow, local, base, viewport, size),
{
    match flow {
        Flow::Normal => local.add(base),
        Flow::Absolute { anchor, offset } => anchor.place(viewport.size, size).add(offset),
    }
}

/// The clip the size pass leaves for a node: unresolved, or the whole
/// viewport for a widget that escapes clipping.
pub open spec fn sized_clip(n: DomNode) -> ClipRect {
    if n.widget.spec_escapes_clip() {
        ClipRect::EntireViewport
    } else {
        ClipRect::Unresolved
    }
}

/// The record the size pass leaves for a node of the given size.
pub open spec fn sized_record(n: DomNode, size: Vec2) -> LayoutDomNode {
    LayoutDomNode {
        rect: Rect { pos: Vec2 { x: 0, y: 0 }, size },
        clip_rect: if n.widget.spec_escapes_clip() {
            ClipRect::EntireViewport
        } else {
            ClipRect::Unresolved
        },
        new_layer: n.widget.spec_opens_layer(),
        event_interest: n.interest,
    }
}

/// Unbounded below `max`.
pub open spec fn loose_of(max: Vec2) -> Constraints {
    Constraints { min: Vec2 { x: 0, y: 0 }, max }
}

/// No bound at all.
pub open spec fn unbounded() -> Constraints {
    Constraints { min: Vec2 { x: 0, y: 0 }, max: Vec2 { x: UNBOUNDED, y: UNBOUNDED } }
}

/// The constraints a widget lays its children out within.
pub open spec fn child_constraints(w: WidgetKind, c: Constraints) -> Constraints {
    match w {
        WidgetKind::Sized(s) => loose_of(c.spec_constrain(s)),
        WidgetKind::ColoredBox { size: s, color: _ } => loose_of(c.spec_constrain(s)),
        WidgetKind::Column => loose_of(c.max),
        WidgetKind::Absolute(_) => unbounded(),
        _ => c,
    }
}

/// The size the size pass gives node `id` within `c`, going at most `fuel`
/// levels down: the whole maximum for the root; the asked size within `c`
/// for a sized or coloured box; for a column, the widest child and the sum
/// of the heights, within `c`; for any other widget, the children's largest
/// extent raised to the minimum of `c`.
pub open spec fn spec_size(dom: Map<Handle, DomNode>, id: Handle, c: Constraints, fuel: nat) -> Vec2
    decreases fuel, 0nat, 0nat,
{
    if fuel == 0 || !dom.contains_key(id) {
        Vec2 { x: 0, y: 0 }
    } else {
        let n = dom[id];
        let cs = n.children@;
        let kc = child_constraints(n.widget, c);
        match n.widget {
            WidgetKind::Root => c.max,
            WidgetKind::Sized(s) => c.spec_constrain(s),
            WidgetKind::ColoredBox { size: s, color: _ } => c.spec_constrain(s),
            WidgetKind::Column => c.spec_constrain(col_extent(dom, cs, kc, (fuel - 1) as nat, cs.len())),
            _ => max_extent(dom, cs, kc, (fuel - 1) as nat, cs.len()).spec_max(c.min),
        }
    }
}

/// The largest extent on each axis of the first `n` of `cs`.
pub open spec fn max_extent(dom: Map<Handle, DomNode>, cs: Seq<Handle>, c: Constraints, fuel: nat, n: nat) -> Vec2
    decreases fuel, 1nat, n,
{
    if n == 0 || n > cs.len() {
        Vec2 { x: 0, y: 0 }
    } else {
        max_extent(dom, cs, c, fuel, (n - 1) as nat).spec_max(spec_size(dom, cs[n - 1], c, fuel))
    }
}

/// The widest width and the sum of the heights of the first `n` of `cs`.
pub open spec fn col_extent(dom: Map<Handle, DomNode>, cs: Seq<Handle>, c: Constraints, fuel: nat, n: nat) -> Vec2
    decreases fuel, 1nat, n,
{
    if n == 0 || n > cs.len() {
        Vec2 { x: 0, y: 0 }
    } else {
        let a = col_extent(dom, cs, c, fuel, (n - 1) as nat);
        let s = spec_size(dom, cs[n - 1], c, fuel);
        Vec2 { x: max_int(a.x as int, s.x as int) as i64, y: sat(a.y + s.y) as i64 }
    }
}

/// Every child of the tree in `cs` has a record.
pub open spec fn children_recorded(m: Map<Handle, LayoutDomNode>, dom: Map<Handle, DomNode>, cs: Seq<Handle>) -> bool {
    forall|c: Handle| cs.contains(c) && dom.contains_key(c) ==> #[trigger] m.contains_key(c)
}

/// Every node that got a record from `old` to `new` and wants the mouse has
/// an interest entry.
pub open spec fn new_registered(old: LayoutDom, new: LayoutDom, dom: Dom) -> bool {
    forall|h: Handle|
        #[trigger] new@.contains_key(h) && !old@.contains_key(h) && dom@[h].interest.spec_wants_mouse()
            ==> new.interest_mouse.mentions(h)
}

proof fn lemma_registered_trans(a: LayoutDom, b: LayoutDom, c: LayoutDom, dom: Dom)
    requires
        new_registered(a, b, dom),
        new_registered(b, c, dom),
        LayoutDom::grows(a, b, dom),
        LayoutDom::grows(b, c, dom),
    ensures
        new_registered(a, c, dom),
{
    assert forall|h: Handle| #[trigger] c@.contains_key(h) && !a@.contains_key(h) && dom@[h].interest.spec_wants_mouse()
        implies c.interest_mouse.mentions(h) by {
        if b@.contains_key(h) {
            let k = choose|k: int| 0 <= k < b.interest_mouse.entries@.len() && #[trigger] b.interest_mouse.entries@[k].id == h;
            let eb = b.interest_mouse.entries@;
            let ec = c.interest_mouse.entries@;
            assert(eb[k] == ec.subrange(0, eb.len() as int)[k]);
            assert(ec[k].id == h);
        }
    }
}

/// `h` is reached from `from` in at most `k` steps down the children lists
/// of the tree.
pub open spec fn reach(dom: Map<Handle, DomNode>, from: Handle, h: Handle, k: nat) -> bool
    decreases k,
{
    &&& dom.contains_key(from)
    &&& (from == h || (k > 0 && exists|c: Handle|
        #[trigger] dom[from].children@.contains(c) && reach(dom, c, h, (k - 1) as nat)))
}

/// Every node reached from `from` in fewer than `depth` steps has a record.
pub open spec fn reach_recorded(
    dom: Map<Handle, DomNode>,
    m: Map<Handle, LayoutDomNode>,
    from: Handle,
    depth: nat,
) -> bool {
    forall|h: Handle, k: nat| k < depth && #[trigger] reach(dom, from, h, k) ==> m.contains_key(h)
}

/// Every node reached from one of `cs` in fewer than `depth` steps has a
/// record.
pub open spec fn list_reach_recorded(
    dom: Map<Handle, DomNode>,
    m: Map<Handle, LayoutDomNode>,
    cs: Seq<Handle>,
    depth: nat,
) -> bool {
    forall|j: int| 0 <= j < cs.len() ==> #[trigger] reach_recorded(dom, m, cs[j], depth)
}

proof fn lemma_recorded_grows(
    dom: Map<Handle, DomNode>,
    m1: Map<Handle, LayoutDomNode>,
    m2: Map<Handle, LayoutDomNode>,
    from: Handle,
    depth: nat,
)
    requires
        reach_recorded(dom, m1, from, depth),
        m1.dom().subset_of(m2.dom()),
    ensures
        reach_recorded(dom, m2, from, depth),
{
}

/// A path of the tree whose nodes all have records.
proof fn lemma_reach_to_rec(
    dom: Map<Handle, DomNode>,
    m: Map<Handle, LayoutDomNode>,
    from: Handle,
    h: Handle,
    k: nat,
    depth: nat,
)
    requires
        reach(dom, from, h, k),
        k < depth,
        reach_recorded(dom, m, from, depth),
    ensures
        reach_rec(dom, m, from, h, k),
    decreases k,
{
    assert(reach(dom, from, from, 0));
    if from != h {
        let c = choose|c: Handle| #[trigger] dom[from].children@.contains(c) && reach(dom, c, h, (k - 1) as nat);
        assert forall|h2: Handle, k2: nat| k2 < (depth - 1) as nat && #[trigger] reach(dom, c, h2, k2) implies m.contains_key(h2) by {
            assert(reach(dom, from, h2, k2 + 1));
        }
        lemma_reach_to_rec(dom, m, c, h, (k - 1) as nat, (depth - 1) as nat);
    }
}

/// `h` is reached from `from` in at most `k` steps down the children lists,
/// through nodes of the tree that all have records in `m`.
pub open spec fn reach_rec(
    dom: Map<Handle, DomNode>,
    m: Map<Handle, LayoutDomNode>,
    from: Handle,
    h: Handle,
    k: nat,
) -> bool
    decreases k,
{
    &&& dom.contains_key(from)
    &&& m.contains_key(from)
    &&& (from == h || (k > 0 && exists|c: Handle|
        #[trigger] dom[from].children@.contains(c) && reach_rec(dom, m, c, h, (k - 1) as nat)))
}

proof fn lemma_reach_grows(
    dom: Map<Handle, DomNode>,
    m1: Map<Handle, LayoutDomNode>,
    m2: Map<Handle, LayoutDomNode>,
    from: Handle,
    h: Handle,
    k: nat,
)
    requires
        reach_rec(dom, m1, from, h, k),
        m1.dom().subset_of(m2.dom()),
    ensures
        reach_rec(dom, m2, from, h, k),
    decreases k,
{
    if from != h {
        let c = choose|c: Handle| #[trigger] dom[from].children@.contains(c) && reach_rec(dom, m1, c, h, (k - 1) as nat);
        lemma_reach_grows(dom, m1, m2, c, h, (k - 1) as nat);
    }
}

/// Every record of `new` that `old` lacks is of a node reached from one of
/// `cs`.
pub open spec fn new_reached_from(
    old: Map<Handle, LayoutDomNode>,
    new: Map<Handle, LayoutDomNode>,
    dom: Map<Handle, DomNode>,
    cs: Seq<Handle>,
) -> bool {
    forall|h: Handle|
        #[trigger] new.contains_key(h) && !old.contains_key(h) ==> exists|j: int, k: nat|
            0 <= j < cs.len() && #[trigger] reach_rec(dom, new, cs[j], h, k)
}

/// During a size step from `old` to `new`: records and interest are only
/// added to, the viewport is kept, and every record and entry is of a node
/// of the tree.
pub open spec fn grows_spec(old: LayoutDom, new: LayoutDom, dom: Dom) -> bool {
    &&& new.sized_for(dom)
    &&& new.unscaled_viewport == old.unscaled_viewport
    &&& new.scale_factor == old.scale_factor
    &&& old@.dom().subset_of(new@.dom())
    &&& old.interest_mouse.entries@.is_prefix_of(new.interest_mouse.entries@)
    &&& old.interest_mouse.layer_roots@.is_prefix_of(new.interest_mouse.layer_roots@)
}

/// `id`, which wants the mouse, was registered first in the step from `old`
/// to `new`: in the layer it opened, or else in the layer open around it.
pub open spec fn registered(old: LayoutDom, new: LayoutDom, id: Handle, n: DomNode) -> bool {
    let at = old.interest_mouse.entries@.len() as int;
    let layer: int = if n.widget.spec_opens_layer() {
        old.interest_mouse.layer_roots@.len() as int
    } else {
        old.interest_mouse.stack@.last() as int
    };
    &&& at < new.interest_mouse.entries@.len()
    &&& new.interest_mouse.entries@[at].id == id
    &&& new.interest_mouse.entries@[at].interest == n.interest
    &&& new.interest_mouse.entries@[at].layer as int == layer
    &&& n.widget.spec_opens_layer() ==> new.interest_mouse.layer_roots@[layer] == Some(id)
}

/// Every interest entry from index `from` on is of a node with a record
/// that wants the mouse, with the node's own interest.
pub open spec fn entries_recorded(l: LayoutDom, dom: Dom, from: int) -> bool {
    forall|k: int|
        from <= k < l.interest_mouse.entries@.len() ==> {
            let e = #[trigger] l.interest_mouse.entries@[k];
            &&& l@.contains_key(e.id)
            &&& dom@[e.id].interest.spec_wants_mouse()
            &&& e.interest == dom@[e.id].interest
        }
}

proof fn lemma_entries_extend(a: LayoutDom, b: LayoutDom, dom: Dom, from: int)
    requires
        0 <= from,
        entries_recorded(a, dom, from),
        entries_recorded(b, dom, a.interest_mouse.entries@.len() as int),
        LayoutDom::grows(a, b, dom),
    ensures
        entries_recorded(b, dom, from),
{
    let ea = a.interest_mouse.entries@;
    let eb = b.interest_mouse.entries@;
    assert forall|k: int| from <= k < b.interest_mouse.entries@.len() implies {
        let e = #[trigger] b.interest_mouse.entries@[k];
        &&& b@.contains_key(e.id)
        &&& dom@[e.id].interest.spec_wants_mouse()
        &&& e.interest == dom@[e.id].interest
    } by {
        if k < a.interest_mouse.entries@.len() {
            assert(ea[k] == eb.subrange(0, ea.len() as int)[k]);
            assert(eb[k] == ea[k]);
        }
    }
}

proof fn lemma_reached_step(
    m0: Map<Handle, LayoutDomNode>,
    m1: Map<Handle, LayoutDomNode>,
    m2: Map<Handle, LayoutDomNode>,
    dom: Map<Handle, DomNode>,
    cs: Seq<Handle>,
    i: int,
)
    requires
        0 <= i < cs.len(),
        m0.dom().subset_of(m1.dom()),
        m1.dom().subset_of(m2.dom()),
        new_reached_from(m0, m1, dom, cs.subrange(0, i)),
        forall|h: Handle|
            #[trigger] m2.contains_key(h) && !m1.contains_key(h) ==> exists|k: nat| #[trigger] reach_rec(dom, m2, cs[i], h, k),
    ensures
        new_reached_from(m0, m2, dom, cs.subrange(0, i + 1)),
{
    let cs1 = cs.subrange(0, i + 1);
    assert forall|h: Handle| #[trigger] m2.contains_key(h) && !m0.contains_key(h) implies exists|j: int, k: nat|
        0 <= j < cs1.len() && #[trigger] reach_rec(dom, m2, cs1[j], h, k) by {
        if m1.contains_key(h) {
            let (j, k) = choose|j: int, k: nat| 0 <= j < cs.subrange(0, i).len() && #[trigger] reach_rec(dom, m1, cs.subrange(0, i)[j], h, k);
            lemma_reach_grows(dom, m1, m2, cs.subrange(0, i)[j], h, k);
            assert(cs1[j] == cs.subrange(0, i)[j]);
        } else {
            let k = choose|k: nat| #[trigger] reach_rec(dom, m2, cs[i], h, k);
            assert(cs1[i] == cs[i]);
        }
    }
}

proof fn lemma_list_step(
    m1: Map<Handle, LayoutDomNode>,
    m2: Map<Handle, LayoutDomNode>,
    dom: Map<Handle, DomNode>,
    cs: Seq<Handle>,
    i: int,
    depth: nat,
)
    requires
        0 <= i < cs.len(),
        m1.dom().subset_of(m2.dom()),
        list_reach_recorded(dom, m1, cs.subrange(0, i), depth),
        reach_recorded(dom, m2, cs[i], depth),
    ensures
        list_reach_recorded(dom, m2, cs.subrange(0, i + 1), depth),
{
    assert forall|j: int| 0 <= j < cs.subrange(0, i + 1).len() implies #[trigger] reach_recorded(
        dom,
        m2,
        cs.subrange(0, i + 1)[j],
        depth,
    ) by {
        if j < i {
            assert(cs.subrange(0, i + 1)[j] == cs.subrange(0, i)[j]);
            assert(reach_recorded(dom, m1, cs.subrange(0, i)[j], depth));
            lemma_recorded_grows(dom, m1, m2, cs.subrange(0, i)[j], depth);
        } else {
            assert(cs.subrange(0, i + 1)[j] == cs[i]);
        }
    }
}

proof fn lemma_reached_same(
    m0: Map<Handle, LayoutDomNode>,
    m1: Map<Handle, LayoutDomNode>,
    m2: Map<Handle, LayoutDomNode>,
    dom: Map<Handle, DomNode>,
    cs: Seq<Handle>,
)
    requires
        new_reached_from(m0, m1, dom, cs),
        m1.dom() == m2.dom(),
    ensures
        new_reached_from(m0, m2, dom, cs),
{
    assert forall|h: Handle| #[trigger] m2.contains_key(h) && !m0.contains_key(h) implies exists|j: int, k: nat|
        0 <= j < cs.len() && #[trigger] reach_rec(dom, m2, cs[j], h, k) by {
        let (j, k) = choose|j: int, k: nat| 0 <= j < cs.len() && #[trigger] reach_rec(dom, m1, cs[j], h, k);
        lemma_reach_grows(dom, m1, m2, cs[j], h, k);
    }
}

/// A node reached through recorded nodes from a node the breadth-first pass
/// reached is reached too.
proof fn lemma_reach_visited(
    dom: Map<Handle, DomNode>,
    m: Map<Handle, LayoutDomNode>,
    vis: Map<Handle, Option<Handle>>,
    from: Handle,
    h: Handle,
    k: nat,
)
    requires
        vis.contains_key(from),
        reach_rec(dom, m, from, h, k),
        forall|p: Handle| #[trigger] vis.contains_key(p) ==> children_reached(vis, m, dom[p].children@),
    ensures
        vis.contains_key(h),
    decreases k,
{
    if from != h {
        let c = choose|c: Handle| #[trigger] dom[from].children@.contains(c) && reach_rec(dom, m, c, h, (k - 1) as nat);
        assert(children_reached(vis, m, dom[from].children@));
        assert(m.contains_key(c));
        lemma_reach_visited(dom, m, vis, c, h, (k - 1) as nat);
    }
}

proof fn lemma_grows_refl(l: LayoutDom, dom: Dom)
    requires
        l.sized_for(dom),
    ensures
        LayoutDom::grows(l, l, dom),
{
    assert(l.interest_mouse.entries@.subrange(0, l.interest_mouse.entries@.len() as int) =~= l.interest_mouse.entries@);
    assert(l.interest_mouse.layer_roots@.subrange(0, l.interest_mouse.layer_roots@.len() as int)
        =~= l.interest_mouse.layer_roots@);
}

proof fn lemma_grows_trans(a: LayoutDom, b: LayoutDom, c: LayoutDom, dom: Dom)
    requires
        LayoutDom::grows(a, b, dom),
        LayoutDom::grows(b, c, dom),
    ensures
        LayoutDom::grows(a, c, dom),
{
    let ea = a.interest_mouse.entries@;
    let eb = b.interest_mouse.entries@;
    let ec = c.interest_mouse.entries@;
    assert(ec.subrange(0, ea.len() as int) =~= eb.subrange(0, ea.len() as int));
    let ra = a.interest_mouse.layer_roots@;
    let rb = b.interest_mouse.layer_roots@;
    let rc = c.interest_mouse.layer_roots@;
    assert(rc.subrange(0, ra.len() as int) =~= rb.subrange(0, ra.len() as int));
}

/// A step of the queue of the position and clip pass.
#[derive(Clone, Copy, Debug, PartialEq, Eq, Structural)]
pub struct Pending {
    pub id: Handle,
    pub base: Vec2,
    pub parent_clip: Rect,
}

/// Layout information for the nodes of a tree.
pub struct LayoutDom {
    pub nodes: Arena<LayoutDomNode>,
    pub unscaled_viewport: Rect,
    /// Physical pixels per logical pixel; at least one.
    pub scale_factor: u32,
    pub interest_mouse: MouseInterest,
}

impl View for LayoutDom {
    type V = Map<Handle, LayoutDomNode>;

    open spec fn view(&self) -> Map<Handle, LayoutDomNode> {
        layout_nodes(self.nodes)
    }
}

impl LayoutDom {
    /// See `grows_spec`.
    pub open spec fn grows(old: LayoutDom, new: LayoutDom, dom: Dom) -> bool {
        grows_spec(old, new, dom)
    }

    /// After a whole layout pass over `dom`: `sized` holds the records of
    /// the size pass, and `vis` maps each node reached from the root to the
    /// parent it was reached from (none for the root). The root is laid out
    /// in the whole viewport and has its children recorded; every recorded
    /// child of a reached node is reached; each reached node is resolved
    /// from its parent; no interest layer is left open, and every interest
    /// entry is of a recorded node that wants the mouse.
    pub open spec fn laid_out(
        &self,
        dom: Dom,
        sized: Map<Handle, LayoutDomNode>,
        vis: Map<Handle, Option<Handle>>,
    ) -> bool {
        &&& self.wf()
        &&& self@.dom() == sized.dom()
        &&& sized.dom().subset_of(dom@.dom())
        &&& forall|h: Handle| #[trigger] sized.contains_key(h) ==> sized[h].clip_rect == sized_clip(dom@[h])
        &&& vis.contains_key(dom.root)
        &&& vis[dom.root] is None
        &&& forall|h: Handle| #[trigger] sized.contains_key(h) ==> vis.contains_key(h)
        &&& forall|h: Handle, k: nat| k < dom@.len() && #[trigger] reach(dom@, dom.root, h, k) ==> vis.contains_key(h)
        &&& forall|h: Handle| #[trigger] sized.contains_key(h) ==> exists|k: nat| #[trigger] reach_rec(dom@, sized, dom.root, h, k)
        &&& sized[dom.root] == sized_record(dom@[dom.root], self.spec_viewport().size)
        &&& dom@.len() > 1 ==> children_recorded(sized, dom@, dom@[dom.root].children@)
        &&& forall|p: Handle| #[trigger] vis.contains_key(p) ==> children_reached(vis, sized, dom@[p].children@)
        &&& self.interest_mouse.stack@ == seq![0usize]
        &&& entries_recorded(*self, dom, 0)
        &&& forall|h: Handle|
            #[trigger] sized.contains_key(h) && dom@[h].interest.spec_wants_mouse() ==> self.interest_mouse.mentions(h)
        &&& forall|h: Handle|
            #[trigger] vis.contains_key(h) ==> LayoutDom::resolved(
                self@,
                sized,
                dom@,
                dom.root,
                self.spec_viewport(),
                vis,
                h,
            )
        &&& forall|h: Handle| #[trigger] self@.contains_key(h) && !vis.contains_key(h) ==> self@[h] == sized[h]
    }

    pub open spec fn wf(&self) -> bool {
        &&& arena_wf(self@)
        &&& self.interest_mouse.wf()
        &&& self.scale_factor >= 1
    }

    /// The viewport in logical pixels: the set viewport divided by the
    /// scale factor.
    pub open spec fn spec_viewport(&self) -> Rect {
        let u = self.unscaled_viewport;
        let s = self.scale_factor as int;
        Rect {
            pos: Vec2 { x: trunc_div(u.pos.x as int, s) as i64, y: trunc_div(u.pos.y as int, s) as i64 },
            size: Vec2 { x: trunc_div(u.size.x as int, s) as i64, y: trunc_div(u.size.y as int, s) as i64 },
        }
    }

    /// During the size pass: every record is of a node of the tree, and no
    /// clip is resolved yet.
    pub open spec fn sized_for(&self, dom: Dom) -> bool {
        &&& self.wf()
        &&& self@.dom().subset_of(dom@.dom())
        &&& forall|h: Handle| #[trigger] self@.contains_key(h) ==> self@[h].clip_rect == sized_clip(dom@[h])
        &&& forall|k: int|
            0 <= k < self.interest_mouse.entries@.len() ==> dom@.contains_key(
                #[trigger] self.interest_mouse.entries@[k].id,
            )
    }

    /// What the position and clip pass leaves, given the records `m0` of
    /// the size pass: `vis` maps each node the pass reached to the parent it
    /// was reached from (none for the root).
    pub open spec fn resolved(
        m: Map<Handle, LayoutDomNode>,
        m0: Map<Handle, LayoutDomNode>,
        dom: Map<Handle, DomNode>,
        root: Handle,
        viewport: Rect,
        vis: Map<Handle, Option<Handle>>,
        h: Handle,
    ) -> bool {
        &&& m.contains_key(h)
        &&& m0.contains_key(h)
        &&& dom.contains_key(h)
        &&& m[h].rect.size == m0[h].rect.size
        &&& m[h].new_layer == m0[h].new_layer
        &&& m[h].event_interest == m0[h].event_interest
        &&& m[h].clip_rect is Resolved
        &&& match vis[h] {
            None => {
                &&& h == root
                &&& m[h].rect.pos == placed(
                    dom[h].widget.spec_flow(),
                    m0[h].rect.pos,
                    Vec2 { x: 0, y: 0 },
                    viewport,
                    m0[h].rect.size,
                )
                &&& m[h].clip_rect == ClipRect::Resolved(
                    m0[h].clip_rect.spec_resolve_node(m[h].rect, viewport, viewport),
                )
            },
            Some(p) => {
                &&& vis.contains_key(p)
                &&& p != h
                &&& m.contains_key(p)
                &&& dom.contains_key(p)
                &&& dom[p].children@.contains(h)
                &&& m[p].clip_rect is Resolved
                &&& m[h].rect.pos == placed(
                    dom[h].widget.spec_flow(),
                    m0[h].rect.pos,
                    m[p].rect.pos,
                    viewport,
                    m0[h].rect.size,
                )
                &&& m[h].clip_rect == ClipRect::Resolved(
                    m0[h].clip_rect.spec_resolve_node(m[h].rect, m[p].clip_rect.spec_get_rect(viewport), viewport),
                )
            },
        }
    }

    /// An empty layout over a unit viewport, at scale one.
    pub fn new() -> (r: LayoutDom)
        ensures
            r.wf(),
            r@.len() == 0,
            r.unscaled_viewport == (Rect { pos: Vec2 { x: 0, y: 0 }, size: Vec2 { x: 1, y: 1 } }),
            r.scale_factor == 1,
    {
        LayoutDom {
            nodes: layout_arena_new(),
            unscaled_viewport: Rect::from_pos_size(Vec2::zero(), Vec2::new(1, 1)),
            scale_factor: 1,
            interest_mouse: MouseInterest::new(),
        }
    }

    /// Sets the scale factor layout divides the viewport by.
    pub fn set_scale_factor(&mut self, scale: u32)
        requires
            scale >= 1,
        ensures
            final(self).scale_factor == scale,
            final(self).unscaled_viewport == old(self).unscaled_viewport,
            final(self)@ == old(self)@,
            final(self).interest_mouse == old(self).interest_mouse,
    {
        self.scale_factor = scale;
    }

    /// The scale factor in use.
    pub fn scale_factor(&self) -> (r: u32)
        ensures
            r == self.scale_factor,
    {
        self.scale_factor
    }

    /// Drops the records of removed nodes.
    pub fn sync_removals(&mut self, removals: &Vec<Handle>)
        requires
            old(self).wf(),
        ensures
            final(self).wf(),
            forall|h: Handle|
                #[trigger] final(self)@.contains_key(h) <==> old(self)@.contains_key(h) && !removals@.contains(h),
            forall|h: Handle| #[trigger] final(self)@.contains_key(h) ==> final(self)@[h] == old(self)@[h],
            final(self).unscaled_viewport == old(self).unscaled_viewport,
            final(self).scale_factor == old(self).scale_factor,
            final(self).interest_mouse == old(self).interest_mouse,
    {
        let mut i: usize = 0;
        while i < removals.len()
            invariant
                i <= removals@.len(),
                self.wf(),
                forall|h: Handle|
                    #[trigger] self@.contains_key(h) <==> old(self)@.contains_key(h) && !removals@.subrange(
                        0,
                        i as int,
                    ).contains(h),
                forall|h: Handle| #[trigger] self@.contains_key(h) ==> self@[h] == old(self)@[h],
                self.unscaled_viewport == old(self).unscaled_viewport,
                self.scale_factor == old(self).scale_factor,
                self.interest_mouse == old(self).interest_mouse,
            decreases removals@.len() - i,
        {
            let ghost before = self@;
            let r = removals[i];
            layout_arena_remove(&mut self.nodes, r);
            proof {
                assert(removals@.subrange(0, i + 1) =~= removals@.subrange(0, i as int).push(r));
                assert forall|h: Handle| #[trigger] self@.contains_key(h) <==> old(self)@.contains_key(h)
                    && !removals@.subrange(0, i + 1).contains(h) by {
                    crate::dom::lemma_push_contains(removals@.subrange(0, i as int), r, h);
                }
                vstd::set_lib::lemma_len_subset(self@.dom(), before.dom());
            }
            i = i + 1;
        }
        proof {
            assert(removals@.subrange(0, removals@.len() as int) =~= removals@);
        }
    }

    /// A node's record, if it was laid out.
    pub fn get(&self, id: Handle) -> (r: Option<&LayoutDomNode>)
        requires
            self.wf(),
        ensures
            r is Some == self@.contains_key(id),
            r matches Some(n) ==> *n == self@[id],
    {
        layout_arena_get(&self.nodes, id)
    }

    /// Sets the viewport, in physical pixels.
    pub fn set_unscaled_viewport(&mut self, view: Rect)
        ensures
            final(self).unscaled_viewport == view,
            final(self).scale_factor == old(self).scale_factor,
            final(self)@ == old(self)@,
            final(self).interest_mouse == old(self).interest_mouse,
    {
        self.unscaled_viewport = view;
    }

    /// The viewport layout works in, in logical pixels.
    pub fn viewport(&self) -> (r: Rect)
        requires
            self.scale_factor >= 1,
        ensures
            r == self.spec_viewport(),
    {
        let u = self.unscaled_viewport;
        let s = self.scale_factor;
        Rect {
            pos: Vec2 { x: scale_div(u.pos.x, s), y: scale_div(u.pos.y, s) },
            size: Vec2 { x: scale_div(u.size.x, s), y: scale_div(u.size.y, s) },
        }
    }

    /// The viewport as it was set.
    pub fn unscaled_viewport(&self) -> (r: Rect)
        ensures
            r == self.unscaled_viewport,
    {
        self.unscaled_viewport
    }

    /// How many nodes have a record.
    pub fn len(&self) -> (r: usize)
        ensures
            r == self@.len(),
    {
        layout_arena_len(&self.nodes)
    }

    /// Whether no node has a record.
    pub fn is_empty(&self) -> (r: bool)
        ensures
            r == (self@.len() == 0),
    {
        layout_arena_len(&self.nodes) == 0
    }

    /// Moves a laid-out node to `pos`, relative to its parent until
    /// positions are resolved. A node without a record is left alone.
    pub fn set_pos(&mut self, id: Handle, pos: Vec2)
        requires
            old(self).wf(),
        ensures
            final(self).wf(),
            final(self)@.dom() == old(self)@.dom(),
            final(self)@ == (if old(self)@.contains_key(id) {
                old(self)@.insert(
                    id,
                    LayoutDomNode { rect: Rect { pos, size: old(self)@[id].rect.size }, ..old(self)@[id] },
                )
            } else {
                old(self)@
            }),
            final(self).unscaled_viewport == old(self).unscaled_viewport,
            final(self).scale_factor == old(self).scale_factor,
            final(self).interest_mouse == old(self).interest_mouse,
    {
        let n = match layout_arena_get(&self.nodes, id) {
            Some(n) => *n,
            None => {
                return ;
            },
        };
        let ghost m = self@;
        proof {
            lemma_insert_within(m, m, id);
        }
        layout_arena_insert_at(&mut self.nodes, id, LayoutDomNode { rect: Rect { pos, size: n.rect.size }, ..n });
        proof {
            lemma_wf_after_insert(m, m, id, self@[id]);
            assert(self@.dom() =~= m.dom());
            assert(m.remove(id).insert(id, self@[id]) =~= m.insert(id, self@[id]));
        }
    }

    /// Lays out a node of the tree within `constraints` and returns its
    /// size, `spec_size`. Its widget decides how its children are laid out:
    /// each child gets a record, and a node that wants the mouse is
    /// registered in the layer open around it, or in the one it opens.
    pub fn calculate(&mut self, dom: &Dom, id: Handle, constraints: Constraints) -> (size: Vec2)
        requires
            dom.wf(),
            old(self).sized_for(*dom),
        ensures
            LayoutDom::grows(*old(self), *final(self), *dom),
            final(self).interest_mouse.stack@ == old(self).interest_mouse.stack@,
            size == spec_size(dom@, id, constraints, dom@.len()),
            entries_recorded(*final(self), *dom, old(self).interest_mouse.entries@.len() as int),
            forall|h: Handle|
                #[trigger] final(self)@.contains_key(h) && !old(self)@.contains_key(h) ==> exists|k: nat|
                    #[trigger] reach_rec(dom@, final(self)@, id, h, k),
            reach_recorded(dom@, final(self)@, id, dom@.len()),
            new_registered(*old(self), *final(self), *dom),
            dom@.contains_key(id) ==> final(self)@.contains_key(id) && final(self)@[id] == sized_record(
                dom@[id],
                size,
            ),
            dom@.contains_key(id) && dom@.len() > 1 ==> children_recorded(final(self)@, dom@, dom@[id].children@),
            dom@.contains_key(id) && dom@[id].interest.spec_wants_mouse() ==> registered(
                *old(self),
                *final(self),
                id,
                dom@[id],
            ),
    {
        let fuel = dom.len() as u64;
        proof {
            if dom@.contains_key(id) {
                vstd::set_lib::lemma_len_subset(set![id], dom@.dom());
                assert(set![id].len() == 1);
            }
        }
        self.calculate_inner(dom, id, constraints, fuel)
    }

    fn calculate_inner(&mut self, dom: &Dom, id: Handle, constraints: Constraints, fuel: u64) -> (size: Vec2)
        requires
            dom.wf(),
            old(self).sized_for(*dom),
        ensures
            LayoutDom::grows(*old(self), *final(self), *dom),
            final(self).interest_mouse.stack@ == old(self).interest_mouse.stack@,
            size == spec_size(dom@, id, constraints, fuel as nat),
            entries_recorded(*final(self), *dom, old(self).interest_mouse.entries@.len() as int),
            forall|h: Handle|
                #[trigger] final(self)@.contains_key(h) && !old(self)@.contains_key(h) ==> exists|k: nat|
                    #[trigger] reach_rec(dom@, final(self)@, id, h, k),
            reach_recorded(dom@, final(self)@, id, fuel as nat),
            new_registered(*old(self), *final(self), *dom),
            dom@.contains_key(id) && fuel > 0 ==> final(self)@.contains_key(id) && final(self)@[id]
                == sized_record(dom@[id], size),
            dom@.contains_key(id) && fuel > 1 ==> children_recorded(final(self)@, dom@, dom@[id].children@),
            dom@.contains_key(id) && fuel > 0 && dom@[id].interest.spec_wants_mouse() ==> registered(
                *old(self),
                *final(self),
                id,
                dom@[id],
            ),
        decreases fuel, 0nat,
    {
        if fuel == 0 {
            proof {
                lemma_grows_refl(*self, *dom);
            }
            return Vec2::zero();
        }
        let dn = match dom.get(id) {
            Some(n) => n,
            None => {
                proof {
                    lemma_grows_refl(*self, *dom);
                }
                return Vec2::zero();
            },
        };
        let ghost l0 = *self;
        let kind = dn.widget;
        let opens_layer = match kind {
            WidgetKind::Layer => true,
            _ => false,
        };
        if opens_layer {
            self.interest_mouse.push_layer(id);
        }
        if dn.interest.wants_mouse() {
            self.interest_mouse.insert(id, dn.interest);
        }
        let ghost l1 = *self;
        proof {
            assert(LayoutDom::grows(l0, l1, *dom)) by {
                assert(l0.interest_mouse.entries@.is_prefix_of(l1.interest_mouse.entries@)) by {
                    assert(l1.interest_mouse.entries@.subrange(0, l0.interest_mouse.entries@.len() as int)
                        =~= l0.interest_mouse.entries@);
                }
                assert(l0.interest_mouse.layer_roots@.is_prefix_of(l1.interest_mouse.layer_roots@)) by {
                    assert(l1.interest_mouse.layer_roots@.subrange(0, l0.interest_mouse.layer_roots@.len() as int)
                        =~= l0.interest_mouse.layer_roots@);
                }
                assert forall|k: int| 0 <= k < l1.interest_mouse.entries@.len() implies dom@.contains_key(
                    #[trigger] l1.interest_mouse.entries@[k].id,
                ) by {
                    if k < l0.interest_mouse.entries@.len() {
                        assert(l1.interest_mouse.entries@[k] == l0.interest_mouse.entries@[k]);
                    }
                }
            }
        }
        let size = match kind {
            WidgetKind::Root => {
                self.layout_children(dom, &dn.children, constraints, fuel - 1);
                constraints.max
            },
            WidgetKind::Sized(s) => {
                let sz = constraints.constrain(s);
                self.layout_children(dom, &dn.children, Constraints::loose(sz), fuel - 1);
                sz
            },
            WidgetKind::ColoredBox { size: s, color: _ } => {
                let sz = constraints.constrain(s);
                self.layout_children(dom, &dn.children, Constraints::loose(sz), fuel - 1);
                sz
            },
            WidgetKind::Column => self.layout_column(dom, &dn.children, constraints, fuel - 1),
            WidgetKind::Absolute(w) => {
                let inner = self.layout_children(dom, &dn.children, Constraints::none(), fuel - 1);
                let sz = constraints.constrain_min(inner);
                let offset = w.child_offset(sz, inner);
                let ghost before = *self;
                self.place_children(dom, &dn.children, offset);
                proof {
                    lemma_grows_trans(l1, before, *self, *dom);
                    lemma_entries_extend(before, *self, *dom, l1.interest_mouse.entries@.len() as int);
                    lemma_reached_same(l1@, before@, self@, dom@, dn.children@);
                    assert forall|j: int| 0 <= j < dn.children@.len() implies #[trigger] reach_recorded(
                        dom@,
                        self@,
                        dn.children@[j],
                        (fuel - 1) as nat,
                    ) by {
                        assert(reach_recorded(dom@, before@, dn.children@[j], (fuel - 1) as nat));
                        lemma_recorded_grows(dom@, before@, self@, dn.children@[j], (fuel - 1) as nat);
                    }
                }
                sz
            },
            _ => {
                let inner = self.layout_children(dom, &dn.children, constraints, fuel - 1);
                constraints.constrain_min(inner)
            },
        };
        let ghost l2 = *self;
        if opens_layer {
            self.interest_mouse.pop_layer();
        }
        let clip_rect = match kind {
            WidgetKind::Escape => ClipRect::EntireViewport,
            _ => ClipRect::Unresolved,
        };
        let rec = LayoutDomNode {
            rect: Rect::from_pos_size(Vec2::zero(), size),
            clip_rect,
            new_layer: opens_layer,
            event_interest: dn.interest,
        };
        let ghost m = self@;
        proof {
            lemma_insert_within(m, dom@, id);
            lemma_wf_after_insert(m, dom@, id, rec);
        }
        layout_arena_insert_at(&mut self.nodes, id, rec);
        proof {
            assert(self@ == m.insert(id, rec)) by {
                assert(m.remove(id).insert(id, rec) =~= m.insert(id, rec));
            }
            assert forall|h: Handle| #[trigger] self@.contains_key(h) implies self@[h].clip_rect == sized_clip(
                dom@[h],
            ) by {
                if h != id {
                    assert(m.contains_key(h));
                }
            }
            lemma_grows_trans(l0, l1, l2, *dom);
            assert(LayoutDom::grows(l0, *self, *dom));
            assert(new_reached_from(l1@, l2@, dom@, dn.children@));
            assert(list_reach_recorded(dom@, l2@, dn.children@, (fuel - 1) as nat));
            assert(l1@ == l0@);
            assert forall|h: Handle, k: nat| k < fuel as nat && #[trigger] reach(dom@, id, h, k) implies self@.contains_key(h) by {
                if h != id {
                    let c = choose|c: Handle| #[trigger] dom@[id].children@.contains(c) && reach(dom@, c, h, (k - 1) as nat);
                    let j = choose|j: int| 0 <= j < dn.children@.len() && dn.children@[j] == c;
                    assert(reach_recorded(dom@, l2@, dn.children@[j], (fuel - 1) as nat));
                    assert(l2@.contains_key(h));
                }
            }
            assert forall|h: Handle| #[trigger] self@.contains_key(h) && !old(self)@.contains_key(h) implies exists|k: nat|
                #[trigger] reach_rec(dom@, self@, id, h, k) by {
                if h == id {
                    assert(reach_rec(dom@, self@, id, id, 0));
                } else {
                    assert(l2@.contains_key(h));
                    let (j, k) = choose|j: int, k: nat| 0 <= j < dn.children@.len() && #[trigger] reach_rec(dom@, l2@, dn.children@[j], h, k);
                    lemma_reach_grows(dom@, l2@, self@, dn.children@[j], h, k);
                    let c = dn.children@[j];
                    assert(dom@[id].children@.contains(c));
                    assert(reach_rec(dom@, self@, id, h, k + 1));
                }
            }
            assert(entries_recorded(l2, *dom, l1.interest_mouse.entries@.len() as int));
            assert forall|k: int|
                l0.interest_mouse.entries@.len() <= k < self.interest_mouse.entries@.len() implies {
                let e = #[trigger] self.interest_mouse.entries@[k];
                &&& self@.contains_key(e.id)
                &&& dom@[e.id].interest.spec_wants_mouse()
                &&& e.interest == dom@[e.id].interest
            } by {
                assert(self.interest_mouse.entries@ == l2.interest_mouse.entries@);
                assert(l2.interest_mouse.entries@.subrange(0, l1.interest_mouse.entries@.len() as int)
                    == l1.interest_mouse.entries@);
                if k < l1.interest_mouse.entries@.len() {
                    assert(l1.interest_mouse.entries@[k] == self.interest_mouse.entries@[k]);
                    assert(self.interest_mouse.entries@[k].id == id);
                } else {
                    let e = l2.interest_mouse.entries@[k];
                    assert(l2@.contains_key(e.id));
                }
            }
            if dom@[id].interest.spec_wants_mouse() {
                let e = l0.interest_mouse.entries@.len() as int;
                assert(e < l1.interest_mouse.entries@.len());
                assert(self.interest_mouse.entries@.subrange(0, l1.interest_mouse.entries@.len() as int)
                    == l1.interest_mouse.entries@);
                assert(l1.interest_mouse.entries@[e] == self.interest_mouse.entries@[e]);
                assert(opens_layer == dom@[id].widget.spec_opens_layer());
                if opens_layer {
                    let lr = l0.interest_mouse.layer_roots@.len() as int;
                    assert(l1.interest_mouse.layer_roots@[lr] == Some(id));
                    assert(self.interest_mouse.layer_roots@.subrange(0, l1.interest_mouse.layer_roots@.len() as int)
                        == l1.interest_mouse.layer_roots@);
                    assert(l1.interest_mouse.layer_roots@[lr] == self.interest_mouse.layer_roots@[lr]);
                }
                assert(registered(l0, *self, id, dom@[id]));
            }
            if fuel > 1 {
                assert forall|c: Handle| dom@[id].children@.contains(c) && dom@.contains_key(c) implies #[trigger] self@.contains_key(c) by {
                    assert(l2@.contains_key(c));
                }
            }
        }
        size
    }

    /// Lays each child out within the same constraints; returns the largest
    /// extent on each axis.
    fn layout_children(&mut self, dom: &Dom, children: &Vec<Handle>, constraints: Constraints, fuel: u64) -> (r: Vec2)
        requires
            dom.wf(),
            old(self).sized_for(*dom),
        ensures
            LayoutDom::grows(*old(self), *final(self), *dom),
            final(self).interest_mouse.stack@ == old(self).interest_mouse.stack@,
            r == max_extent(dom@, children@, constraints, fuel as nat, children@.len() as nat),
            fuel > 0 ==> children_recorded(final(self)@, dom@, children@),
            entries_recorded(*final(self), *dom, old(self).interest_mouse.entries@.len() as int),
            new_reached_from(old(self)@, final(self)@, dom@, children@),
            list_reach_recorded(dom@, final(self)@, children@, fuel as nat),
            new_registered(*old(self), *final(self), *dom),
        decreases fuel, 1nat,
    {
        let mut size = Vec2::zero();
        let mut i: usize = 0;
        proof {
            lemma_grows_refl(*self, *dom);
        }
        while i < children.len()
            invariant
                i <= children@.len(),
                dom.wf(),
                self.sized_for(*dom),
                LayoutDom::grows(*old(self), *self, *dom),
                self.interest_mouse.stack@ == old(self).interest_mouse.stack@,
                size == max_extent(dom@, children@, constraints, fuel as nat, i as nat),
                entries_recorded(*self, *dom, old(self).interest_mouse.entries@.len() as int),
                new_reached_from(old(self)@, self@, dom@, children@.subrange(0, i as int)),
                list_reach_recorded(dom@, self@, children@.subrange(0, i as int), fuel as nat),
                new_registered(*old(self), *self, *dom),
                fuel > 0 ==> forall|j: int|
                    0 <= j < i && dom@.contains_key(children@[j]) ==> #[trigger] self@.contains_key(children@[j]),
            decreases children@.len() - i,
        {
            let ghost before = *self;
            let s = self.calculate_inner(dom, children[i], constraints, fuel);
            proof {
                lemma_grows_trans(*old(self), before, *self, *dom);
                lemma_entries_extend(before, *self, *dom, old(self).interest_mouse.entries@.len() as int);
                lemma_reached_step(old(self)@, before@, self@, dom@, children@, i as int);
                lemma_list_step(before@, self@, dom@, children@, i as int, fuel as nat);
                lemma_registered_trans(*old(self), before, *self, *dom);
            }
            size = size.max(s);
            i = i + 1;
        }
        proof {
            if fuel > 0 {
                assert forall|c: Handle| children@.contains(c) && dom@.contains_key(c) implies #[trigger] self@.contains_key(c) by {
                    let j = choose|j: int| 0 <= j < children@.len() && children@[j] == c;
                    assert(self@.contains_key(children@[j]));
                }
            }
            assert(children@.subrange(0, children@.len() as int) =~= children@);
        }
        size
    }

    /// Moves every child to `offset`.
    fn place_children(&mut self, dom: &Dom, children: &Vec<Handle>, offset: Vec2)
        requires
            old(self).sized_for(*dom),
        ensures
            LayoutDom::grows(*old(self), *final(self), *dom),
            final(self)@.dom() == old(self)@.dom(),
            final(self).interest_mouse == old(self).interest_mouse,
    {
        let mut i: usize = 0;
        proof {
            lemma_grows_refl(*self, *dom);
        }
        while i < children.len()
            invariant
                i <= children@.len(),
                self.sized_for(*dom),
                self@.dom() == old(self)@.dom(),
                LayoutDom::grows(*old(self), *self, *dom),
                self.interest_mouse == old(self).interest_mouse,
            decreases children@.len() - i,
        {
            self.set_pos(children[i], offset);
            i = i + 1;
        }
    }

    /// Stacks the children from top to bottom, each within the width and
    /// height of `constraints`; returns the widest child's width and the sum
    /// of the heights, within `constraints`.
    fn layout_column(&mut self, dom: &Dom, children: &Vec<Handle>, constraints: Constraints, fuel: u64) -> (r: Vec2)
        requires
            dom.wf(),
            old(self).sized_for(*dom),
        ensures
            LayoutDom::grows(*old(self), *final(self), *dom),
            final(self).interest_mouse.stack@ == old(self).interest_mouse.stack@,
            r == constraints.spec_constrain(
                col_extent(dom@, children@, loose_of(constraints.max), fuel as nat, children@.len() as nat),
            ),
            fuel > 0 ==> children_recorded(final(self)@, dom@, children@),
            entries_recorded(*final(self), *dom, old(self).interest_mouse.entries@.len() as int),
            new_reached_from(old(self)@, final(self)@, dom@, children@),
            list_reach_recorded(dom@, final(self)@, children@, fuel as nat),
            new_registered(*old(self), *final(self), *dom),
        decreases fuel, 1nat,
    {
        let loose = Constraints::loose(constraints.max);
        let mut width: i64 = 0;
        let mut height: i64 = 0;
        let mut i: usize = 0;
        proof {
            lemma_grows_refl(*self, *dom);
        }
        while i < children.len()
            invariant
                i <= children@.len(),
                dom.wf(),
                self.sized_for(*dom),
                LayoutDom::grows(*old(self), *self, *dom),
                self.interest_mouse.stack@ == old(self).interest_mouse.stack@,
                loose == loose_of(constraints.max),
                (Vec2 { x: width, y: height }) == col_extent(dom@, children@, loose, fuel as nat, i as nat),
                entries_recorded(*self, *dom, old(self).interest_mouse.entries@.len() as int),
                new_reached_from(old(self)@, self@, dom@, children@.subrange(0, i as int)),
                list_reach_recorded(dom@, self@, children@.subrange(0, i as int), fuel as nat),
                new_registered(*old(self), *self, *dom),
                fuel > 0 ==> forall|j: int|
                    0 <= j < i && dom@.contains_key(children@[j]) ==> #[trigger] self@.contains_key(children@[j]),
            decreases children@.len() - i,
        {
            let ghost before = *self;
            let s = self.calculate_inner(dom, children[i], loose, fuel);
            let ghost mid = *self;
            self.set_pos(children[i], Vec2::new(0, height));
            proof {
                lemma_grows_trans(before, mid, *self, *dom);
                lemma_grows_trans(*old(self), before, *self, *dom);
                lemma_entries_extend(before, mid, *dom, old(self).interest_mouse.entries@.len() as int);
                lemma_entries_extend(mid, *self, *dom, old(self).interest_mouse.entries@.len() as int);
                lemma_reached_step(old(self)@, before@, mid@, dom@, children@, i as int);
                lemma_reached_same(old(self)@, mid@, self@, dom@, children@.subrange(0, i + 1));
                lemma_list_step(before@, mid@, dom@, children@, i as int, fuel as nat);
                lemma_registered_trans(*old(self), before, mid, *dom);
                assert(new_registered(mid, *self, *dom));
                lemma_registered_trans(*old(self), mid, *self, *dom);
                assert forall|j: int| 0 <= j < children@.subrange(0, i + 1).len() implies #[trigger] reach_recorded(
                    dom@,
                    self@,
                    children@.subrange(0, i + 1)[j],
                    fuel as nat,
                ) by {
                    assert(reach_recorded(dom@, mid@, children@.subrange(0, i + 1)[j], fuel as nat));
                    lemma_recorded_grows(dom@, mid@, self@, children@.subrange(0, i + 1)[j], fuel as nat);
                }
            }
            width = crate::geometry::max_i64(width, s.x);
            height = crate::geometry::add_sat(height, s.y);
            i = i + 1;
        }
        proof {
            if fuel > 0 {
                assert forall|c: Handle| children@.contains(c) && dom@.contains_key(c) implies #[trigger] self@.contains_key(c) by {
                    let j = choose|j: int| 0 <= j < children@.len() && children@[j] == c;
                    assert(self@.contains_key(children@[j]));
                }
            }
            assert(children@.subrange(0, children@.len() as int) =~= children@);
        }
        constraints.constrain(Vec2::new(width, height))
    }

    /// Lays out the whole tree in the viewport: sizes first, from the root
    /// down as each widget directs, then absolute positions and clips,
    /// breadth first from the root. Records of earlier passes are dropped.
    /// Returns the records the size pass left and, for each node reached
    /// from the root, the parent it was reached from.
    pub fn calculate_all(&mut self, dom: &Dom) -> (r: Ghost<(Map<Handle, LayoutDomNode>, Map<Handle, Option<Handle>>)>)
        requires
            old(self).wf(),
            dom.wf(),
        ensures
            final(self).unscaled_viewport == old(self).unscaled_viewport,
            final(self).scale_factor == old(self).scale_factor,
            final(self).laid_out(*dom, r@.0, r@.1),
    {
        self.interest_mouse.clear();
        layout_arena_clear(&mut self.nodes);
        let constraints = Constraints::tight(self.viewport().size);
        let root = dom.root;
        proof {
            assert(self@.dom() =~= Set::<Handle>::empty());
        }
        let ghost cleared = *self;
        self.calculate(dom, root, constraints);
        let ghost sized = self@;
        let ghost after_size = *self;
        let ghost before = *self;
        let vis = self.resolve_layout(dom);
        proof {
            assert forall|h: Handle| #[trigger] sized.contains_key(h) implies vis@.contains_key(h) by {
                let k = choose|k: nat| #[trigger] reach_rec(dom@, sized, root, h, k);
                lemma_reach_visited(dom@, sized, vis@, root, h, k);
            }
            assert forall|h: Handle| #[trigger] sized.contains_key(h) && dom@[h].interest.spec_wants_mouse()
                implies self.interest_mouse.mentions(h) by {
                assert(!cleared@.contains_key(h));
                assert(after_size.interest_mouse.mentions(h));
            }
            assert forall|h: Handle, k: nat| k < dom@.len() && #[trigger] reach(dom@, root, h, k) implies vis@.contains_key(h) by {
                lemma_reach_to_rec(dom@, sized, root, h, k, dom@.len());
                lemma_reach_visited(dom@, sized, vis@, root, h, k);
            }
            assert forall|k: int| 0 <= k < self.interest_mouse.entries@.len() implies {
                let e = #[trigger] self.interest_mouse.entries@[k];
                &&& self@.contains_key(e.id)
                &&& dom@[e.id].interest.spec_wants_mouse()
                &&& e.interest == dom@[e.id].interest
            } by {
                assert(before.interest_mouse.entries@[k] == self.interest_mouse.entries@[k]);
                assert(before@.contains_key(before.interest_mouse.entries@[k].id));
            }
        }
        Ghost((sized, vis@))
    }

    /// Resolves positions and clips breadth first from the root: a node is
    /// placed by its flow relative to the parent it is reached from, and
    /// clipped within that parent's clip. Each node is resolved once.
    #[verifier::rlimit(100)]
    fn resolve_layout(&mut self, dom: &Dom) -> (vis: Ghost<Map<Handle, Option<Handle>>>)
        requires
            dom.wf(),
            old(self).sized_for(*dom),
        ensures
            final(self).wf(),
            final(self).unscaled_viewport == old(self).unscaled_viewport,
            final(self).scale_factor == old(self).scale_factor,
            final(self).interest_mouse == old(self).interest_mouse,
            final(self)@.dom() == old(self)@.dom(),
            old(self)@.contains_key(dom.root) ==> vis@.contains_key(dom.root),
            vis@.contains_key(dom.root) ==> vis@[dom.root] is None,
            forall|p: Handle| #[trigger] vis@.contains_key(p) ==> children_reached(vis@, old(self)@, dom@[p].children@),
            forall|h: Handle|
                #[trigger] vis@.contains_key(h) ==> LayoutDom::resolved(
                    final(self)@,
                    old(self)@,
                    dom@,
                    dom.root,
                    final(self).spec_viewport(),
                    vis@,
                    h,
                ),
            forall|h: Handle| #[trigger] final(self)@.contains_key(h) && !vis@.contains_key(h) ==> final(self)@[h] == old(self)@[h],
    {
        let vp = self.viewport();
        let root = dom.root;
        let ghost m0 = self@;
        let ghost mut vis: Map<Handle, Option<Handle>> = Map::empty();
        let mut queue: Vec<Pending> = Vec::new();
        queue.push(Pending { id: root, base: Vec2::zero(), parent_clip: vp });
        let ghost mut qpar: Seq<Option<Handle>> = seq![None];
        let mut head: usize = 0;
        proof {
            lemma_closed_start(queue@, m0, dom@);
        }
        while head < queue.len()
            invariant
                head <= queue@.len(),
                queue@.len() >= 1,
                qpar.len() == queue@.len(),
                dom.wf(),
                root == dom.root,
                old(self).sized_for(*dom),
                m0 == old(self)@,
                self.wf(),
                self@.dom() == m0.dom(),
                self.unscaled_viewport == old(self).unscaled_viewport,
                self.scale_factor == old(self).scale_factor,
                vp == old(self).spec_viewport(),
                self.interest_mouse == old(self).interest_mouse,
                vis.dom().subset_of(m0.dom()),
                vis.dom().finite(),
                vis.dom().len() <= m0.dom().len(),
                forall|h: Handle| #[trigger] self@.contains_key(h) ==> (vis.contains_key(h) <==> self@[h].clip_rect is Resolved),
                forall|h: Handle| #[trigger] self@.contains_key(h) && !vis.contains_key(h) ==> self@[h] == m0[h],
                forall|h: Handle| #[trigger] vis.contains_key(h) ==> LayoutDom::resolved(self@, m0, dom@, root, vp, vis, h),
                forall|k: int| 0 <= k < queue@.len() ==> queue_ok(self@, dom@, root, vp, vis, #[trigger] queue@[k], qpar[k]),
                head > 0 && m0.contains_key(root) ==> vis.contains_key(root),
                head == 0 ==> vis.dom().len() == 0,
                qpar[0] is None,
                vis.contains_key(root) ==> vis[root] is None,
                bfs_closed(queue@, head as int, m0, vis, dom@),
            decreases m0.dom().len() - vis.dom().len(), queue@.len() - head,
        {
            let item = queue[head];
            let ghost par = qpar[head as int];
            let ghost k0 = head as int;
            head = head + 1;
            let n = match layout_arena_get(&self.nodes, item.id) {
                Some(n) => *n,
                None => {
                    proof {
                        lemma_closed_skip(queue@, k0, m0, vis, dom@);
                    }
                    continue ;
                },
            };
            if let ClipRect::Resolved(_) = n.clip_rect {
                proof {
                    lemma_closed_skip(queue@, k0, m0, vis, dom@);
                }
                continue ;
            }
            let dn = match dom.get(item.id) {
                Some(d) => d,
                None => {
                    proof {
                        lemma_closed_skip(queue@, k0, m0, vis, dom@);
                    }
                    continue ;
                },
            };
            let id = item.id;
            let pos = place(dn.widget.flow(), n.rect.pos, item.base, vp, n.rect.size);
            let rect = Rect { pos, size: n.rect.size };
            let clip = n.clip_rect.resolve_node(rect, item.parent_clip, vp);
            let rec = LayoutDomNode { rect, clip_rect: ClipRect::Resolved(clip), ..n };
            let ghost m = self@;
            let ghost old_vis = vis;
            proof {
                assert(!vis.contains_key(id));
                assert(n == m0[id]);
                lemma_insert_within(m, m, id);
                lemma_wf_after_insert(m, m, id, rec);
                lemma_resolve_step(m, m0, dom@, root, vp, old_vis, queue@, qpar, k0, id, rec);
            }
            layout_arena_insert_at(&mut self.nodes, id, rec);
            proof {
                assert(self@ == m.insert(id, rec)) by {
                    assert(m.remove(id).insert(id, rec) =~= m.insert(id, rec));
                }
                if id == root {
                    assert(k0 == 0) by {
                        if k0 > 0 {
                            assert(old_vis.contains_key(root));
                        }
                    }
                }
                vis = vis.insert(id, par);
                assert(vis.dom() =~= old_vis.dom().insert(id));
                vstd::set_lib::lemma_len_subset(vis.dom(), m0.dom());
                assert(self@.dom() =~= m0.dom());
            }
            let ghost len0 = queue@.len();
            let ghost q0 = queue@;
            let ghost p0 = qpar;
            push_children(&mut queue, &dn.children, pos, clip);
            proof {
                qpar = p0 + Seq::new(dn.children@.len(), |i: int| Some(id));
                lemma_queue_extend(self@, dom@, root, vp, vis, q0, queue@, p0, qpar, id, pos, clip);
            }
            proof {
                lemma_closed_visit(q0, queue@, k0, m0, old_vis, vis, dom@, id, qpar[k0]);
            }
        }
        proof {
            lemma_closed_final(queue@, m0, vis, dom@);
        }
        Ghost(vis)
    }
}

/// Appends a step for each child, from the given position and clip.
fn push_children(queue: &mut Vec<Pending>, children: &Vec<Handle>, base: Vec2, clip: Rect)
    ensures
        final(queue)@.len() == old(queue)@.len() + children@.len(),
        forall|k: int| 0 <= k < old(queue)@.len() ==> #[trigger] final(queue)@[k] == old(queue)@[k],
        forall|i: int|
            0 <= i < children@.len() ==> #[trigger] final(queue)@[old(queue)@.len() + i] == (Pending {
                id: children@[i],
                base,
                parent_clip: clip,
            }),
{
    let mut j: usize = 0;
    while j < children.len()
        invariant
            j <= children@.len(),
            queue@.len() == old(queue)@.len() + j,
            forall|k: int| 0 <= k < old(queue)@.len() ==> #[trigger] queue@[k] == old(queue)@[k],
            forall|i: int|
                0 <= i < j ==> #[trigger] queue@[old(queue)@.len() + i] == (Pending {
                    id: children@[i],
                    base,
                    parent_clip: clip,
                }),
        decreases children@.len() - j,
    {
        queue.push(Pending { id: children[j], base, parent_clip: clip });
        j = j + 1;
    }
}

proof fn lemma_queue_extend(
    m: Map<Handle, LayoutDomNode>,
    dom: Map<Handle, DomNode>,
    root: Handle,
    vp: Rect,
    vis: Map<Handle, Option<Handle>>,
    q0: Seq<Pending>,
    q: Seq<Pending>,
    p0: Seq<Option<Handle>>,
    p: Seq<Option<Handle>>,
    id: Handle,
    pos: Vec2,
    clip: Rect,
)
    requires
        q0.len() == p0.len(),
        forall|k: int| 0 <= k < q0.len() ==> queue_ok(m, dom, root, vp, vis, #[trigger] q0[k], p0[k]),
        dom.contains_key(id),
        q.len() == q0.len() + dom[id].children@.len(),
        forall|k: int| 0 <= k < q0.len() ==> #[trigger] q[k] == q0[k],
        forall|i: int|
            0 <= i < dom[id].children@.len() ==> #[trigger] q[q0.len() + i] == (Pending {
                id: dom[id].children@[i],
                base: pos,
                parent_clip: clip,
            }),
        p == p0 + Seq::new(dom[id].children@.len(), |i: int| Some(id)),
        vis.contains_key(id),
        m.contains_key(id),
        m[id].clip_rect == ClipRect::Resolved(clip),
        m[id].rect.pos == pos,
    ensures
        q.len() == p.len(),
        forall|k: int| 0 <= k < q.len() ==> queue_ok(m, dom, root, vp, vis, #[trigger] q[k], p[k]),
        forall|k: int| 0 <= k < q0.len() ==> #[trigger] p[k] == p0[k],
        forall|i: int| 0 <= i < dom[id].children@.len() ==> #[trigger] q[q0.len() + i].id == dom[id].children@[i],
{
    assert forall|k: int| 0 <= k < q.len() implies queue_ok(m, dom, root, vp, vis, #[trigger] q[k], p[k]) by {
        if k < q0.len() {
            assert(q[k] == q0[k]);
            assert(p[k] == p0[k]);
        } else {
            let i = k - q0.len();
            assert(q[q0.len() + i] == q[k]);
            assert(p[k] == Some(id));
            assert(dom[id].children@.contains(dom[id].children@[i]));
        }
    }
    assert forall|i: int| 0 <= i < dom[id].children@.len() implies #[trigger] q[q0.len() + i].id == dom[id].children@[i] by {
        assert(q[q0.len() + i] == (Pending { id: dom[id].children@[i], base: pos, parent_clip: clip }));
    }
}

/// Some pending step is of node `c`.
pub open spec fn queued(q: Seq<Pending>, c: Handle) -> bool {
    exists|k: int| 0 <= k < q.len() && q[k].id == c
}

/// Every node of `cs` has a pending step.
pub open spec fn children_queued(q: Seq<Pending>, cs: Seq<Handle>) -> bool {
    forall|c: Handle| #[trigger] cs.contains(c) ==> queued(q, c)
}

/// Every node of `cs` with a record was reached.
pub open spec fn children_reached(vis: Map<Handle, Option<Handle>>, m: Map<Handle, LayoutDomNode>, cs: Seq<Handle>) -> bool {
    forall|c: Handle| #[trigger] cs.contains(c) && m.contains_key(c) ==> vis.contains_key(c)
}

/// Every step before `head` whose node has a record reached it, and every
/// child of a reached node has a step.
#[verifier::opaque]
pub open spec fn bfs_closed(
    q: Seq<Pending>,
    head: int,
    m0: Map<Handle, LayoutDomNode>,
    vis: Map<Handle, Option<Handle>>,
    dom: Map<Handle, DomNode>,
) -> bool {
    &&& forall|k: int| 0 <= k < head && m0.contains_key(#[trigger] q[k].id) ==> vis.contains_key(q[k].id)
    &&& forall|p: Handle| #[trigger] vis.contains_key(p) ==> children_queued(q, dom[p].children@)
}

proof fn lemma_closed_start(q: Seq<Pending>, m0: Map<Handle, LayoutDomNode>, dom: Map<Handle, DomNode>)
    ensures
        bfs_closed(q, 0, m0, Map::empty(), dom),
{
    reveal(bfs_closed);
}

proof fn lemma_closed_skip(
    q: Seq<Pending>,
    k0: int,
    m0: Map<Handle, LayoutDomNode>,
    vis: Map<Handle, Option<Handle>>,
    dom: Map<Handle, DomNode>,
)
    requires
        bfs_closed(q, k0, m0, vis, dom),
        0 <= k0 < q.len(),
        m0.contains_key(q[k0].id) ==> vis.contains_key(q[k0].id),
    ensures
        bfs_closed(q, k0 + 1, m0, vis, dom),
{
    reveal(bfs_closed);
}

proof fn lemma_closed_visit(
    q0: Seq<Pending>,
    q: Seq<Pending>,
    k0: int,
    m0: Map<Handle, LayoutDomNode>,
    old_vis: Map<Handle, Option<Handle>>,
    vis: Map<Handle, Option<Handle>>,
    dom: Map<Handle, DomNode>,
    id: Handle,
    par: Option<Handle>,
)
    requires
        bfs_closed(q0, k0, m0, old_vis, dom),
        0 <= k0 < q0.len(),
        q0[k0].id == id,
        vis == old_vis.insert(id, par),
        dom.contains_key(id),
        q.len() == q0.len() + dom[id].children@.len(),
        forall|k: int| 0 <= k < q0.len() ==> #[trigger] q[k] == q0[k],
        forall|i: int| 0 <= i < dom[id].children@.len() ==> #[trigger] q[q0.len() + i].id == dom[id].children@[i],
    ensures
        bfs_closed(q, k0 + 1, m0, vis, dom),
{
    reveal(bfs_closed);
    assert forall|k: int| 0 <= k < k0 + 1 && m0.contains_key(#[trigger] q[k].id) implies vis.contains_key(q[k].id) by {
        assert(q[k] == q0[k]);
    }
    assert forall|p: Handle| #[trigger] vis.contains_key(p) implies children_queued(q, dom[p].children@) by {
        assert forall|c: Handle| #[trigger] dom[p].children@.contains(c) implies queued(q, c) by {
            if p == id {
                let i = choose|i: int| 0 <= i < dom[p].children@.len() && dom[p].children@[i] == c;
                assert(q[q0.len() + i].id == c);
            } else {
                assert(old_vis.contains_key(p));
                assert(children_queued(q0, dom[p].children@));
                assert(queued(q0, c));
                let k = choose|k: int| 0 <= k < q0.len() && q0[k].id == c;
                assert(q[k] == q0[k]);
            }
        }
    }
}

proof fn lemma_closed_final(
    q: Seq<Pending>,
    m0: Map<Handle, LayoutDomNode>,
    vis: Map<Handle, Option<Handle>>,
    dom: Map<Handle, DomNode>,
)
    requires
        bfs_closed(q, q.len() as int, m0, vis, dom),
    ensures
        forall|p: Handle| #[trigger] vis.contains_key(p) ==> children_reached(vis, m0, dom[p].children@),
{
    reveal(bfs_closed);
    assert forall|p: Handle| #[trigger] vis.contains_key(p) implies children_reached(vis, m0, dom[p].children@) by {
        assert(children_queued(q, dom[p].children@));
        assert forall|c: Handle| #[trigger] dom[p].children@.contains(c) && m0.contains_key(c) implies vis.contains_key(c) by {
            assert(queued(q, c));
            let k = choose|k: int| 0 <= k < q.len() && q[k].id == c;
            assert(m0.contains_key(q[k].id));
        }
    }
}

/// Resolving the node of step `k0` of the queue keeps every visited node
/// resolved and every pending step well formed.
proof fn lemma_resolve_step(
    m: Map<Handle, LayoutDomNode>,
    m0: Map<Handle, LayoutDomNode>,
    dom: Map<Handle, DomNode>,
    root: Handle,
    vp: Rect,
    vis: Map<Handle, Option<Handle>>,
    queue: Seq<Pending>,
    qpar: Seq<Option<Handle>>,
    k0: int,
    id: Handle,
    rec: LayoutDomNode,
)
    requires
        0 <= k0 < queue.len(),
        qpar.len() == queue.len(),
        queue[k0].id == id,
        m.contains_key(id),
        m0.contains_key(id),
        dom.contains_key(id),
        !vis.contains_key(id),
        m[id] == m0[id],
        !(m[id].clip_rect is Resolved),
        forall|h: Handle| #[trigger] m.contains_key(h) ==> (vis.contains_key(h) <==> m[h].clip_rect is Resolved),
        forall|h: Handle| #[trigger] m.contains_key(h) && !vis.contains_key(h) ==> m[h] == m0[h],
        forall|h: Handle| #[trigger] vis.contains_key(h) ==> LayoutDom::resolved(m, m0, dom, root, vp, vis, h),
        forall|k: int| 0 <= k < queue.len() ==> queue_ok(m, dom, root, vp, vis, #[trigger] queue[k], qpar[k]),
        rec.rect == (Rect {
            pos: placed(dom[id].widget.spec_flow(), m0[id].rect.pos, queue[k0].base, vp, m0[id].rect.size),
            size: m0[id].rect.size,
        }),
        rec.clip_rect == ClipRect::Resolved(m0[id].clip_rect.spec_resolve_node(rec.rect, queue[k0].parent_clip, vp)),
        rec.new_layer == m0[id].new_layer,
        rec.event_interest == m0[id].event_interest,
    ensures
        ({
            let v2 = vis.insert(id, qpar[k0]);
            let m2 = m.insert(id, rec);
            &&& forall|h: Handle| #[trigger] v2.contains_key(h) ==> LayoutDom::resolved(m2, m0, dom, root, vp, v2, h)
            &&& forall|k: int| 0 <= k < queue.len() ==> queue_ok(m2, dom, root, vp, v2, #[trigger] queue[k], qpar[k])
            &&& forall|h: Handle| #[trigger] m2.contains_key(h) ==> (v2.contains_key(h) <==> m2[h].clip_rect is Resolved)
            &&& forall|h: Handle| #[trigger] m2.contains_key(h) && !v2.contains_key(h) ==> m2[h] == m0[h]
        }),
{
    let v2 = vis.insert(id, qpar[k0]);
    let m2 = m.insert(id, rec);
    assert(queue_ok(m, dom, root, vp, vis, queue[k0], qpar[k0]));
    if let Some(p) = qpar[k0] {
        assert(p != id);
        assert(m2[p] == m[p]);
    }
    assert(LayoutDom::resolved(m2, m0, dom, root, vp, v2, id));
    assert forall|h: Handle| #[trigger] v2.contains_key(h) implies LayoutDom::resolved(m2, m0, dom, root, vp, v2, h) by {
        if h != id {
            assert(LayoutDom::resolved(m, m0, dom, root, vp, vis, h));
            assert(v2[h] == vis[h]);
            if let Some(p) = vis[h] {
                assert(p != id);
            }
        }
    }
    assert forall|k: int| 0 <= k < queue.len() implies queue_ok(m2, dom, root, vp, v2, #[trigger] queue[k], qpar[k]) by {
        assert(queue_ok(m, dom, root, vp, vis, queue[k], qpar[k]));
        if let Some(p) = qpar[k] {
            assert(p != id);
        }
    }
}

/// A pending step of the breadth-first pass is well formed: it comes from
/// a resolved parent, with that parent's position and clip, or it is the
/// root, with the origin and the viewport.
spec fn queue_ok(
    m: Map<Handle, LayoutDomNode>,
    dom: Map<Handle, DomNode>,
    root: Handle,
    viewport: Rect,
    vis: Map<Handle, Option<Handle>>,
    item: Pending,
    par: Option<Handle>,
) -> bool {
    match par {
        None => item.id == root && item.base == Vec2 { x: 0, y: 0 } && item.parent_clip == viewport,
        Some(p) => {
            &&& vis.contains_key(p)
            &&& m.contains_key(p)
            &&& dom.contains_key(p)
            &&& dom[p].children@.contains(item.id)
            &&& m[p].clip_rect == ClipRect::Resolved(item.parent_clip)
            &&& m[p].rect.pos == item.base
        },
    }
}

/// The node `n` steps up from `h` along the parents the pass reached each
/// node from.
pub open spec fn chain_up(vis: Map<Handle, Option<Handle>>, h: Handle, n: nat) -> Option<Handle>
    decreases n,
{
    if n == 0 {
        Some(h)
    } else if vis.contains_key(h) {
        match vis[h] {
            Some(p) => chain_up(vis, p, (n - 1) as nat),
            None => None,
        }
    } else {
        None
    }
}

/// Clipping never grows toward the leaves: where no node from `d` up to,
/// but not including, its ancestor `a` escapes clipping, the clip of `d`
/// lies within the clip of `a`.
pub proof fn lemma_clip_monotonicity(
    m: Map<Handle, LayoutDomNode>,
    m0: Map<Handle, LayoutDomNode>,
    dom: Map<Handle, DomNode>,
    root: Handle,
    vp: Rect,
    vis: Map<Handle, Option<Handle>>,
    d: Handle,
    a: Handle,
    n: nat,
)
    requires
        forall|h: Handle| #[trigger] vis.contains_key(h) ==> LayoutDom::resolved(m, m0, dom, root, vp, vis, h),
        vis.contains_key(d),
        chain_up(vis, d, n) == Some(a),
        forall|k: nat|
            k < n ==> (#[trigger] chain_up(vis, d, k) matches Some(x) ==> m0[x].clip_rect == ClipRect::Unresolved),
    ensures
        vis.contains_key(a),
        m[a].clip_rect.spec_get_rect(vp).encloses(m[d].clip_rect.spec_get_rect(vp)),
    decreases n,
{
    assert(LayoutDom::resolved(m, m0, dom, root, vp, vis, d));
    if n > 0 {
        let p = vis[d]->Some_0;
        assert(chain_up(vis, d, 0) == Some(d));
        assert forall|k: nat| k < (n - 1) as nat implies (#[trigger] chain_up(vis, p, k) matches Some(x)
            ==> m0[x].clip_rect == ClipRect::Unresolved) by {
            assert(chain_up(vis, d, k + 1) == chain_up(vis, p, k));
        }
        lemma_clip_monotonicity(m, m0, dom, root, vp, vis, p, a, (n - 1) as nat);
        let pr = m[p].clip_rect.spec_get_rect(vp);
        lemma_clip_within_parent(m[d].rect, pr, vp);
    }
}

/// Absolute positioning ignores the ancestors: a node that flows to the
/// bottom right corner of the viewport with no offset is placed at the
/// viewport's size less its own, whatever its parent's position and its own
/// position within the parent.
pub proof fn lemma_absolute_bottom_right(vp: Rect, size: Vec2, local: Vec2, base: Vec2)
    ensures
        placed(
            Flow::Absolute { anchor: Alignment::spec_bottom_right(), offset: Vec2 { x: 0, y: 0 } },
            local,
            base,
            vp,
            size,
        ) == vp.size.spec_sub(size),
{
}

/// The same law over a whole layout pass: such a node, once reached, sits at
/// the viewport's size less its own.
pub proof fn lemma_absolute_resolved(
    m: Map<Handle, LayoutDomNode>,
    m0: Map<Handle, LayoutDomNode>,
    dom: Map<Handle, DomNode>,
    root: Handle,
    vp: Rect,
    vis: Map<Handle, Option<Handle>>,
    h: Handle,
)
    requires
        LayoutDom::resolved(m, m0, dom, root, vp, vis, h),
        dom[h].widget.spec_flow() == (Flow::Absolute {
            anchor: Alignment::spec_bottom_right(),
            offset: Vec2 { x: 0, y: 0 },
        }),
    ensures
        m[h].rect.pos == vp.size.spec_sub(m[h].rect.size),
{
    match vis[h] {
        Some(p) => lemma_absolute_bottom_right(vp, m0[h].rect.size, m0[h].rect.pos, m[p].rect.pos),
        None => lemma_absolute_bottom_right(vp, m0[h].rect.size, m0[h].rect.pos, Vec2 { x: 0, y: 0 }),
    }
}

/// Over a linked tree, the pass reaches each node from its own parent.
pub proof fn lemma_reached_from_parent(
    l: LayoutDom,
    dom: Dom,
    sized: Map<Handle, LayoutDomNode>,
    vis: Map<Handle, Option<Handle>>,
    h: Handle,
)
    requires
        l.laid_out(dom, sized, vis),
        dom.wf(),
        dom.linked(),
        vis.contains_key(h),
    ensures
        vis[h] == dom@[h].parent,
{
    assert(LayoutDom::resolved(l@, sized, dom@, dom.root, l.spec_viewport(), vis, h));
    if let Some(p) = vis[h] {
        assert(dom@[p].children@.contains(h));
    }
}

proof fn lemma_chain_is_parents(
    l: LayoutDom,
    dom: Dom,
    sized: Map<Handle, LayoutDomNode>,
    vis: Map<Handle, Option<Handle>>,
    d: Handle,
    n: nat,
)
    requires
        l.laid_out(dom, sized, vis),
        dom.wf(),
        dom.linked(),
        vis.contains_key(d),
    ensures
        chain_up(vis, d, n) == dom_up(dom@, d, n),
    decreases n,
{
    if n > 0 {
        lemma_reached_from_parent(l, dom, sized, vis, d);
        assert(LayoutDom::resolved(l@, sized, dom@, dom.root, l.spec_viewport(), vis, d));
        if let Some(p) = vis[d] {
            lemma_chain_is_parents(l, dom, sized, vis, p, (n - 1) as nat);
        }
    }
}

/// Clip monotonicity along the tree's own parent links: after a layout
/// pass over a linked tree, where no node from a reached node `d` up to,
/// but not including, its ancestor `a` escapes clipping, the clip of `d`
/// lies within the clip of `a`.
pub proof fn lemma_clip_within_ancestor(
    l: LayoutDom,
    dom: Dom,
    sized: Map<Handle, LayoutDomNode>,
    vis: Map<Handle, Option<Handle>>,
    d: Handle,
    a: Handle,
    n: nat,
)
    requires
        l.laid_out(dom, sized, vis),
        dom.wf(),
        dom.linked(),
        vis.contains_key(d),
        dom_up(dom@, d, n) == Some(a),
        forall|k: nat|
            k < n ==> (#[trigger] dom_up(dom@, d, k) matches Some(x) ==> !dom@[x].widget.spec_escapes_clip()),
    ensures
        l@[a].clip_rect.spec_get_rect(l.spec_viewport()).encloses(l@[d].clip_rect.spec_get_rect(l.spec_viewport())),
{
    lemma_chain_is_parents(l, dom, sized, vis, d, n);
    assert forall|k: nat| k < n implies (#[trigger] chain_up(vis, d, k) matches Some(x) ==> sized[x].clip_rect
        == ClipRect::Unresolved) by {
        lemma_chain_is_parents(l, dom, sized, vis, d, k);
        if let Some(x) = chain_up(vis, d, k) {
            assert(dom_up(dom@, d, k) == Some(x));
            lemma_chain_member_visited(vis, d, k, l, dom, sized);
            assert(sized.contains_key(x));
            assert(sized[x].clip_rect == sized_clip(dom@[x]));
        }
    }
    lemma_clip_monotonicity(l@, sized, dom@, dom.root, l.spec_viewport(), vis, d, a, n);
}

proof fn lemma_chain_member_visited(
    vis: Map<Handle, Option<Handle>>,
    d: Handle,
    k: nat,
    l: LayoutDom,
    dom: Dom,
    sized: Map<Handle, LayoutDomNode>,
)
    requires
        l.laid_out(dom, sized, vis),
        vis.contains_key(d),
    ensures
        chain_up(vis, d, k) matches Some(x) ==> vis.contains_key(x) && sized.contains_key(x),
    decreases k,
{
    assert(LayoutDom::resolved(l@, sized, dom@, dom.root, l.spec_viewport(), vis, d));
    if k > 0 {
        if let Some(p) = vis[d] {
            lemma_chain_member_visited(vis, p, (k - 1) as nat, l, dom, sized);
        }
    }
}

} // verus!
