//! The widget tree: nodes in a generational arena, declared anew every frame
//! and matched to the previous frame's nodes by call-site identity.
use vstd::prelude::*;

use thunderdome::{Arena, Index};

use crate::widget::{EventInterest, WidgetKind};

verus! {

#[verifier::external_type_specification]
#[verifier::external_body]
#[verifier::reject_recursive_types(T)]
pub struct ExArena<T>(Arena<T>);

/// A stable name for a node: the arena slot in the lower 32 bits, the slot's
/// generation in the upper 32 bits. A generation is never zero.
#[derive(Clone, Copy, Debug, PartialEq, Eq, Structural, Hash)]
pub struct Handle {
    pub bits: u64,
}

impl Handle {
    pub open spec fn spec_slot(self) -> int {
        self.bits as int % 0x1_0000_0000
    }

    pub open spec fn spec_generation(self) -> int {
        self.bits as int / 0x1_0000_0000
    }

    /// The arena slot.
    pub fn slot(&self) -> (r: u32)
        ensures
            r == self.spec_slot(),
    {
        (self.bits % 0x1_0000_0000) as u32
    }

    /// The slot's generation when the handle was made.
    pub fn generation(&self) -> (r: u32)
        ensures
            r == self.spec_generation(),
    {
        (self.bits / 0x1_0000_0000) as u32
    }
}

/// What every arena's contents satisfy: finitely many entries, non-zero
/// generations, and one entry per slot.
pub open spec fn arena_wf<T>(m: Map<Handle, T>) -> bool {
    &&& m.dom().finite()
    &&& m.dom().len() <= u32::MAX
    &&& forall|h: Handle| #[trigger] m.contains_key(h) ==> h.spec_generation() > 0
    &&& forall|a: Handle, b: Handle|
        #[trigger] m.contains_key(a) && #[trigger] m.contains_key(b) && a.spec_slot() == b.spec_slot() ==> a
            == b
}

/// No entry of `m` uses the slot of `h`.
pub open spec fn slot_free<T>(m: Map<Handle, T>, h: Handle) -> bool {
    forall|k: Handle| #[trigger] m.contains_key(k) ==> k.spec_slot() != h.spec_slot()
}

pub proof fn lemma_arena_insert<T>(m: Map<Handle, T>, h: Handle, v: T)
    requires
        arena_wf(m),
        m.dom().len() < u32::MAX,
        slot_free(m, h),
        h.spec_generation() > 0,
    ensures
        arena_wf(m.insert(h, v)),
        !m.contains_key(h),
{
}

/// Identifies a declaration: its call site, and an index that tells
/// repeated declarations from one site under one parent apart.
#[derive(Clone, Copy, Debug, PartialEq, Eq, Structural)]
pub struct WidgetKey {
    pub site: u64,
    pub index: u32,
}

/// A node of the tree.
pub struct DomNode {
    pub widget: WidgetKind,
    pub interest: EventInterest,
    pub key: WidgetKey,
    /// Absent for the root.
    pub parent: Option<Handle>,
    /// The children declared in the current frame, in declaration order.
    pub children: Vec<Handle>,
    /// The children of the previous frame, matched against new declarations.
    pub prev_children: Vec<Handle>,
    /// The frame in which the node was last declared.
    pub stamp: u64,
}

/// The contents of an arena of tree nodes, by handle.
pub uninterp spec fn dom_nodes(a: Arena<DomNode>) -> Map<Handle, DomNode>;

/// Relies on thunderdome::Arena::new: a new arena is empty.
#[verifier::external_body]
fn dom_arena_new() -> (r: Arena<DomNode>)
    ensures
        dom_nodes(r).dom().finite(),
        dom_nodes(r).dom().len() == 0,
{
    Arena::new()
}

/// Relies on thunderdome::Arena::insert: the value takes a slot that no
/// entry uses, under a non-zero generation; the call panics only when the
/// arena already holds u32::MAX entries. Index::to_bits puts the generation
/// above the slot.
#[verifier::external_body]
fn dom_arena_insert(a: &mut Arena<DomNode>, v: DomNode) -> (r: Handle)
    requires
        dom_nodes(*old(a)).dom().len() < u32::MAX,
    ensures
        slot_free(dom_nodes(*old(a)), r),
        r.spec_generation() > 0,
        dom_nodes(*final(a)) == dom_nodes(*old(a)).insert(r, v),
{
    Handle { bits: a.insert(v).to_bits() }
}

/// Relies on thunderdome::Arena::get: a value is found only under the slot
/// and generation it is stored with; Index::from_bits reads the two halves.
#[verifier::external_body]
fn dom_arena_get(a: &Arena<DomNode>, h: Handle) -> (r: Option<&DomNode>)
    requires
        arena_wf(dom_nodes(*a)),
    ensures
        r is Some == dom_nodes(*a).contains_key(h),
        r matches Some(n) ==> *n == dom_nodes(*a)[h],
{
    Index::from_bits(h.bits).and_then(|i| a.get(i))
}

/// Relies on thunderdome::Arena::insert_at: on a slot that holds an entry of
/// the same generation, the value replaces that entry; Index::from_bits
/// reads the slot and generation out of the handle.
#[verifier::external_body]
fn dom_arena_replace(a: &mut Arena<DomNode>, h: Handle, v: DomNode)
    requires
        arena_wf(dom_nodes(*old(a))),
        dom_nodes(*old(a)).contains_key(h),
    ensures
        dom_nodes(*final(a)) == dom_nodes(*old(a)).insert(h, v),
{
    Index::from_bits(h.bits).and_then(|i| a.insert_at(i, v));
}

/// Relies on thunderdome::Arena::remove: the entry under exactly this slot
/// and generation, if any, is taken out; Index::from_bits reads the slot
/// and generation out of the handle.
#[verifier::external_body]
fn dom_arena_remove(a: &mut Arena<DomNode>, h: Handle)
    requires
        arena_wf(dom_nodes(*old(a))),
    ensures
        dom_nodes(*final(a)) == dom_nodes(*old(a)).remove(h),
{
    Index::from_bits(h.bits).and_then(|i| a.remove(i));
}

/// Relies on thunderdome::Arena::iter: it visits every entry once, with its
/// index; Index::to_bits puts the generation above the slot.
#[verifier::external_body]
fn dom_arena_handles(a: &Arena<DomNode>) -> (r: Vec<Handle>)
    ensures
        forall|h: Handle| r@.contains(h) <==> dom_nodes(*a).contains_key(h),
        r@.no_duplicates(),
{
    a.iter().map(|(i, _)| Handle { bits: i.to_bits() }).collect()
}

/// A copy of a list of handles.
pub fn copy_handles(v: &Vec<Handle>) -> (r: Vec<Handle>)
    ensures
        r@ == v@,
{
    let mut r: Vec<Handle> = Vec::new();
    let mut i: usize = 0;
    while i < v.len()
        invariant
            i <= v@.len(),
            r@ == v@.subrange(0, i as int),
        decreases v@.len() - i,
    {
        r.push(v[i]);
        i = i + 1;
    }
    assert(r@ =~= v@);
    r
}

/// The first of `cands` that was declared under `key` and has not been
/// declared yet in frame `gen`.
pub open spec fn find_reusable(m: Map<Handle, DomNode>, cands: Seq<Handle>, key: WidgetKey, gen: u64) -> Option<
    Handle,
>
    decreases cands.len(),
{
    if cands.len() == 0 {
        None
    } else if m.contains_key(cands[0]) && m[cands[0]].key == key && m[cands[0]].stamp != gen {
        Some(cands[0])
    } else {
        find_reusable(m, cands.drop_first(), key, gen)
    }
}

pub proof fn lemma_push_contains<A>(s: Seq<A>, x: A, k: A)
    ensures
        s.push(x).contains(k) <==> s.contains(k) || k == x,
{
    if s.contains(k) {
        let j = choose|j: int| 0 <= j < s.len() && s[j] == k;
        assert(s.push(x)[j] == k);
    }
    if k == x {
        assert(s.push(x)[s.len() as int] == x);
    }
    if s.push(x).contains(k) {
        let j = choose|j: int| 0 <= j < s.push(x).len() && s.push(x)[j] == k;
        if j < s.len() {
            assert(s[j] == k);
        }
    }
}

/// What `find_reusable` returns is a candidate that matches.
pub proof fn lemma_find_reusable(m: Map<Handle, DomNode>, cands: Seq<Handle>, key: WidgetKey, gen: u64)
    ensures
        find_reusable(m, cands, key, gen) matches Some(h) ==> (m.contains_key(h) && m[h].key == key && m[h].stamp
            != gen && cands.contains(h)),
    decreases cands.len(),
{
    if cands.len() > 0 {
        lemma_find_reusable(m, cands.drop_first(), key, gen);
        if let Some(h) = find_reusable(m, cands, key, gen) {
            if !(m.contains_key(cands[0]) && m[cands[0]].key == key && m[cands[0]].stamp != gen) {
                let j = choose|j: int| 0 <= j < cands.drop_first().len() && cands.drop_first()[j] == h;
                assert(cands[j + 1] == h);
            } else {
                assert(cands[0] == h);
            }
        }
    }
}

/// The tree of the current frame.
pub struct Dom {
    pub nodes: Arena<DomNode>,
    pub root: Handle,
    /// The nodes entered and not yet exited, outermost first.
    pub stack: Vec<Handle>,
    /// The current frame.
    pub generation: u64,
}

impl View for Dom {
    type V = Map<Handle, DomNode>;

    open spec fn view(&self) -> Map<Handle, DomNode> {
        dom_nodes(self.nodes)
    }
}

impl Dom {
    pub open spec fn wf(&self) -> bool {
        &&& arena_wf(self@)
        &&& self@.contains_key(self.root)
        &&& self@[self.root].parent is None
        &&& self@[self.root].widget == WidgetKind::Root
        &&& forall|h: Handle| #[trigger] self@.contains_key(h) ==> self@[h].stamp <= self.generation
    }

    /// Between the start and the end of a frame's declarations: the root
    /// is current, and so is every entered node.
    pub open spec fn in_frame(&self) -> bool {
        &&& self.wf()
        &&& self.stack@.len() >= 1
        &&& self.stack@[0] == self.root
        &&& self@[self.root].stamp == self.generation
        &&& forall|i: int|
            0 <= i < self.stack@.len() ==> #[trigger] self@.contains_key(self.stack@[i])
                && self@[self.stack@[i]].stamp == self.generation
    }

    /// What `start_frame` does.
    pub open spec fn start_post(old: Dom, new: Dom) -> bool {
        let root = old.root;
        &&& new.in_frame()
        &&& new.root == root
        &&& new.generation == old.generation + 1
        &&& new.stack@ == seq![root]
        &&& new@.dom() == old@.dom()
        &&& forall|h: Handle| #[trigger] old@.contains_key(h) && h != root ==> new@[h] == old@[h]
        &&& new@[root].children@ == Seq::<Handle>::empty()
        &&& new@[root].prev_children@ == old@[root].children@
        &&& new@[root].stamp == new.generation
        &&& new@[root].key == old@[root].key
        &&& new@[root].widget == old@[root].widget
    }

    /// What `begin_widget` does: the node reused or made for the
    /// declaration is `r`, and it is now the current parent.
    pub open spec fn begin_post(
        old: Dom,
        new: Dom,
        key: WidgetKey,
        widget: WidgetKind,
        interest: EventInterest,
        r: Handle,
    ) -> bool {
        let p = old.stack@.last();
        let gen = old.generation;
        let found = find_reusable(old@, old@[p].prev_children@, key, gen);
        &&& new.in_frame()
        &&& new.root == old.root
        &&& new.generation == gen
        &&& new.stack@ == old.stack@.push(r)
        &&& r != p
        &&& (found matches Some(h) ==> r == h)
        &&& (found is None ==> !old@.contains_key(r))
        &&& new@.dom() == old@.dom().insert(r)
        &&& forall|h: Handle| #[trigger] old@.contains_key(h) && h != r && h != p ==> new@[h] == old@[h]
        &&& new@[p].children@ == old@[p].children@.push(r)
        &&& new@[p].prev_children@ == old@[p].prev_children@
        &&& new@[p].key == old@[p].key
        &&& new@[p].widget == old@[p].widget
        &&& new@[p].interest == old@[p].interest
        &&& new@[p].parent == old@[p].parent
        &&& new@[p].stamp == old@[p].stamp
        &&& new@[r].key == key
        &&& new@[r].widget == widget
        &&& new@[r].interest == interest
        &&& new@[r].parent == Some(p)
        &&& new@[r].children@ == Seq::<Handle>::empty()
        &&& new@[r].prev_children@ == (if found is Some {
            old@[r].children@
        } else {
            Seq::<Handle>::empty()
        })
        &&& new@[r].stamp == gen
    }

    /// What `end_widget` does: the current node is left, unless it is the
    /// root.
    pub open spec fn end_post(old: Dom, new: Dom) -> bool {
        &&& new.in_frame()
        &&& new.root == old.root
        &&& new.generation == old.generation
        &&& new@ == old@
        &&& new.stack@ == (if old.stack@.len() > 1 {
            old.stack@.drop_last()
        } else {
            old.stack@
        })
    }

    /// What `finish_frame` does: exactly the nodes declared in this frame
    /// stay, unchanged; `removed` lists the others.
    pub open spec fn finish_post(old: Dom, new: Dom, removed: Seq<Handle>) -> bool {
        &&& new.in_frame()
        &&& new.root == old.root
        &&& new.generation == old.generation
        &&& new.stack@ == seq![old.root]
        &&& forall|h: Handle|
            #[trigger] new@.contains_key(h) <==> old@.contains_key(h) && old@[h].stamp == old.generation
        &&& forall|h: Handle| #[trigger] new@.contains_key(h) ==> new@[h] == old@[h]
        &&& forall|h: Handle|
            #[trigger] removed.contains(h) <==> old@.contains_key(h) && old@[h].stamp != old.generation
    }

    /// A tree holding only its root, in frame zero.
    pub fn new() -> (r: Dom)
        ensures
            r.in_frame(),
            r.generation == 0,
            r@.len() == 1,
            r.stack@ == seq![r.root],
            r@[r.root].children@ == Seq::<Handle>::empty(),
            r@[r.root].widget == WidgetKind::Root,
            r.linked(),
    {
        let mut nodes = dom_arena_new();
        let ghost old_nodes = nodes;
        let node = DomNode {
            widget: WidgetKind::Root,
            interest: EventInterest::empty(),
            key: WidgetKey { site: 0, index: 0 },
            parent: None,
            children: Vec::new(),
            prev_children: Vec::new(),
            stamp: 0,
        };
        let root = dom_arena_insert(&mut nodes, node);
        proof {
            assert(dom_nodes(old_nodes).dom() =~= Set::<Handle>::empty());
            lemma_arena_insert(dom_nodes(old_nodes), root, dom_nodes(nodes)[root]);
            assert(dom_nodes(nodes).dom() =~= set![root]);
        }
        let mut stack = Vec::new();
        stack.push(root);
        Dom { nodes, root, stack, generation: 0 }
    }

    /// The root node's handle.
    pub fn root(&self) -> (r: Handle)
        ensures
            r == self.root,
    {
        self.root
    }

    /// The node being declared: the innermost entered one.
    pub fn current(&self) -> (r: Handle)
        requires
            self.in_frame(),
        ensures
            r == self.stack@.last(),
    {
        self.stack[self.stack.len() - 1]
    }

    /// The node under the handle, if it is in the tree.
    pub fn get(&self, h: Handle) -> (r: Option<&DomNode>)
        requires
            self.wf(),
        ensures
            r is Some == self@.contains_key(h),
            r matches Some(n) ==> *n == self@[h],
    {
        dom_arena_get(&self.nodes, h)
    }

    /// How many nodes the tree holds.
    pub fn len(&self) -> (r: usize)
        requires
            self.wf(),
        ensures
            r == self@.len(),
    {
        let hs = dom_arena_handles(&self.nodes);
        proof {
            assert(hs@.to_set() =~= self@.dom());
            hs@.unique_seq_to_set();
        }
        hs.len()
    }

    /// Begins a frame: the root is declared again and its children of the
    /// last frame become the ones new declarations are matched against.
    pub fn start_frame(&mut self)
        requires
            old(self).wf(),
            old(self).generation < u64::MAX,
        ensures
            Dom::start_post(*old(self), *final(self)),
            old(self).linked() ==> final(self).linked(),
    {
        let gen = self.generation + 1;
        let root = self.root;
        let old_children = match dom_arena_get(&self.nodes, root) {
            Some(n) => copy_handles(&n.children),
            None => Vec::new(),
        };
        let (widget, interest, key) = match dom_arena_get(&self.nodes, root) {
            Some(n) => (n.widget, n.interest, n.key),
            None => (WidgetKind::Root, EventInterest::empty(), WidgetKey { site: 0, index: 0 }),
        };
        let node = DomNode {
            widget,
            interest,
            key,
            parent: None,
            children: Vec::new(),
            prev_children: old_children,
            stamp: gen,
        };
        dom_arena_replace(&mut self.nodes, root, node);
        self.generation = gen;
        let mut stack = Vec::new();
        stack.push(root);
        self.stack = stack;
        proof {
            assert(self@.dom() =~= old(self)@.dom());
            assert(self.stack@ =~= seq![root]);
            if old(self).linked() {
                lemma_start_links(*old(self), *self);
            }
        }
    }

    /// Declares a widget under the current node and enters it. A node of
    /// the current node's previous children with the same key, not yet
    /// declared in this frame, is reused; otherwise a new node is made.
    pub fn begin_widget(&mut self, key: WidgetKey, widget: WidgetKind, interest: EventInterest) -> (r: Handle)
        requires
            old(self).in_frame(),
            old(self)@.len() < u32::MAX,
        ensures
            Dom::begin_post(*old(self), *final(self), key, widget, interest, r),
            old(self).linked() ==> final(self).linked(),
    {
        let ghost old_m = self@;
        let p = self.stack[self.stack.len() - 1];
        let gen = self.generation;
        let pnode = match dom_arena_get(&self.nodes, p) {
            Some(n) => n,
            None => {
                proof {
                    assert(false);
                }
                return p;
            },
        };
        let ghost cands = pnode.prev_children@;
        let mut found: Option<Handle> = None;
        let mut i: usize = 0;
        assert(cands.subrange(0, cands.len() as int) =~= cands);
        while i < pnode.prev_children.len()
            invariant_except_break
                found is None,
            invariant
                self@ == old_m,
                arena_wf(old_m),
                cands == pnode.prev_children@,
                i <= cands.len(),
                found is None ==> find_reusable(old_m, cands, key, gen) == find_reusable(
                    old_m,
                    cands.subrange(i as int, cands.len() as int),
                    key,
                    gen,
                ),
                found matches Some(h) ==> find_reusable(old_m, cands, key, gen) == Some(h),
            ensures
                found is None ==> i == cands.len(),
            decreases cands.len() - i,
        {
            let c = pnode.prev_children[i];
            let ghost rest = cands.subrange(i as int, cands.len() as int);
            proof {
                assert(rest.drop_first() =~= cands.subrange(i + 1, cands.len() as int));
                assert(rest[0] == c);
            }
            match dom_arena_get(&self.nodes, c) {
                Some(cn) => {
                    if cn.key == key && cn.stamp != gen {
                        assert(find_reusable(old_m, rest, key, gen) == Some(c));
                        assert(find_reusable(old_m, cands, key, gen) == Some(c));
                        found = Some(c);
                        break ;
                    }
                },
                None => {},
            }
            i = i + 1;
        }
        proof {
            if found is None {
                assert(cands.subrange(cands.len() as int, cands.len() as int) =~= Seq::<Handle>::empty());
            }
        }
        proof {
            lemma_find_reusable(old_m, cands, key, gen);
        }
        let mut pchildren = copy_handles(&pnode.children);
        let pprev = copy_handles(&pnode.prev_children);
        let (pw, pi, pk, pp, ps) = (pnode.widget, pnode.interest, pnode.key, pnode.parent, pnode.stamp);
        let r = match found {
            Some(h) => {
                let prev = match dom_arena_get(&self.nodes, h) {
                    Some(n) => copy_handles(&n.children),
                    None => Vec::new(),
                };
                let node = DomNode {
                    widget,
                    interest,
                    key,
                    parent: Some(p),
                    children: Vec::new(),
                    prev_children: prev,
                    stamp: gen,
                };
                dom_arena_replace(&mut self.nodes, h, node);
                h
            },
            None => {
                let node = DomNode {
                    widget,
                    interest,
                    key,
                    parent: Some(p),
                    children: Vec::new(),
                    prev_children: Vec::new(),
                    stamp: gen,
                };
                let h = dom_arena_insert(&mut self.nodes, node);
                proof {
                    lemma_arena_insert(old_m, h, self@[h]);
                }
                h
            },
        };
        pchildren.push(r);
        let pn = DomNode {
            widget: pw,
            interest: pi,
            key: pk,
            parent: pp,
            children: pchildren,
            prev_children: pprev,
            stamp: ps,
        };
        dom_arena_replace(&mut self.nodes, p, pn);
        self.stack.push(r);
        proof {
            assert(self@.dom() =~= old_m.dom().insert(r));
            assert forall|i: int| 0 <= i < self.stack@.len() implies #[trigger] self@.contains_key(self.stack@[i])
                && self@[self.stack@[i]].stamp == self.generation by {
                if i < old(self).stack@.len() {
                    let s = old(self).stack@[i];
                    assert(s == self.stack@[i]);
                    assert(old_m.contains_key(s) && old_m[s].stamp == gen);
                    assert(s != r);
                }
            }
        }
        proof {
            if old(self).linked() {
                lemma_begin_links(*old(self), *self, key, widget, interest, r);
            }
        }
        r
    }

    /// Leaves the current node. The root is never left: a call with only
    /// the root entered changes nothing.
    pub fn end_widget(&mut self)
        requires
            old(self).in_frame(),
        ensures
            Dom::end_post(*old(self), *final(self)),
            old(self).linked() ==> final(self).linked(),
    {
        if self.stack.len() > 1 {
            self.stack.pop();
        }
    }

    /// Ends a frame: every node not declared in it is removed, and so with
    /// it every node of a subtree that was not declared again. Returns the
    /// removed handles.
    pub fn finish_frame(&mut self) -> (removed: Vec<Handle>)
        requires
            old(self).in_frame(),
        ensures
            Dom::finish_post(*old(self), *final(self), removed@),
            old(self).linked() ==> final(self).linked(),
    {
        let ghost old_m = self@;
        let gen = self.generation;
        let hs = dom_arena_handles(&self.nodes);
        let mut removed: Vec<Handle> = Vec::new();
        let mut i: usize = 0;
        while i < hs.len()
            invariant
                i <= hs@.len(),
                arena_wf(self@),
                self.root == old(self).root,
                self.generation == gen,
                gen == old(self).generation,
                old_m == dom_nodes(old(self).nodes),
                forall|h: Handle| hs@.contains(h) <==> old_m.contains_key(h),
                forall|h: Handle|
                    #[trigger] self@.contains_key(h) <==> old_m.contains_key(h) && (old_m[h].stamp == gen
                        || !hs@.subrange(0, i as int).contains(h)),
                forall|h: Handle| #[trigger] self@.contains_key(h) ==> self@[h] == old_m[h],
                forall|h: Handle|
                    #[trigger] removed@.contains(h) <==> hs@.subrange(0, i as int).contains(h)
                        && old_m.contains_key(h) && old_m[h].stamp != gen,
            decreases hs@.len() - i,
        {
            let h = hs[i];
            let stale = match dom_arena_get(&self.nodes, h) {
                Some(n) => n.stamp != gen,
                None => false,
            };
            proof {
                assert(hs@.subrange(0, i + 1) =~= hs@.subrange(0, i as int).push(h));
            }
            let ghost before = self@;
            let ghost removed_before = removed@;
            if stale {
                dom_arena_remove(&mut self.nodes, h);
                removed.push(h);
            }
            i = i + 1;
            proof {
                assert forall|k: Handle| #[trigger] removed@.contains(k) <==> hs@.subrange(0, i as int).contains(k)
                    && old_m.contains_key(k) && old_m[k].stamp != gen by {
                    lemma_push_contains(hs@.subrange(0, i - 1), h, k);
                    if stale {
                        lemma_push_contains(removed_before, h, k);
                    }
                }
                assert forall|k: Handle| #[trigger] self@.contains_key(k) <==> old_m.contains_key(k) && (old_m[k].stamp == gen
                        || !hs@.subrange(0, i as int).contains(k)) by {
                    lemma_push_contains(hs@.subrange(0, i - 1), h, k);
                }
            }
        }
        proof {
            assert(hs@.subrange(0, hs@.len() as int) =~= hs@);
        }
        let mut stack = Vec::new();
        stack.push(self.root);
        self.stack = stack;
        proof {
            if old(self).linked() {
                lemma_finish_links(*old(self), *self, removed@);
            }
        }
        removed
    }
}

/// Identity is stable across frames: a key declared under the root in one
/// frame, and declared again under the root as the first declaration of the
/// next frame, resolves to the same handle both times.
pub proof fn lemma_identity_stability(
    d0: Dom,
    d1: Dom,
    d2: Dom,
    d3: Dom,
    d4: Dom,
    d5: Dom,
    d6: Dom,
    key: WidgetKey,
    w1: WidgetKind,
    i1: EventInterest,
    h1: Handle,
    w2: WidgetKind,
    i2: EventInterest,
    h2: Handle,
    removed: Seq<Handle>,
)
    requires
        Dom::start_post(d0, d1),
        Dom::begin_post(d1, d2, key, w1, i1, h1),
        Dom::end_post(d2, d3),
        Dom::finish_post(d3, d4, removed),
        Dom::start_post(d4, d5),
        Dom::begin_post(d5, d6, key, w2, i2, h2),
    ensures
        h1 == h2,
{
    let root = d0.root;
    assert(d1.stack@.last() == root);
    assert(d3@.contains_key(h1));
    assert(d4@.contains_key(h1));
    assert(d4@.contains_key(root));
    assert(d5@[root].prev_children@ == seq![h1]);
    assert(d5.stack@.last() == root);
    assert(d5@[h1] == d4@[h1]);
    let cands = d5@[root].prev_children@;
    assert(cands[0] == h1);
    assert(find_reusable(d5@, cands, key, d5.generation) == Some(h1));
}

/// Identity is stable under any parent: where the parent's children of the
/// previous frame hold exactly one node declared under `key`, and it has not
/// been declared again yet, a declaration of `key` resolves to it.
pub proof fn lemma_unique_key_reused(
    m: Map<Handle, DomNode>,
    cands: Seq<Handle>,
    key: WidgetKey,
    gen: u64,
    h: Handle,
)
    requires
        cands.contains(h),
        m.contains_key(h),
        m[h].key == key,
        m[h].stamp != gen,
        forall|c: Handle| #[trigger] cands.contains(c) && c != h && m.contains_key(c) ==> m[c].key != key,
    ensures
        find_reusable(m, cands, key, gen) == Some(h),
    decreases cands.len(),
{
    if cands[0] != h {
        let rest = cands.drop_first();
        let j = choose|j: int| 0 <= j < cands.len() && cands[j] == h;
        assert(j > 0);
        assert(rest[j - 1] == h);
        assert forall|c: Handle| #[trigger] rest.contains(c) && c != h && m.contains_key(c) implies m[c].key != key by {
            let i = choose|i: int| 0 <= i < rest.len() && rest[i] == c;
            assert(cands[i + 1] == c);
            assert(cands.contains(c));
        }
        assert(cands.contains(cands[0]));
        lemma_unique_key_reused(m, rest, key, gen, h);
    }
}

/// The links of the tree agree: every child listed by a node is a node of
/// the tree whose parent is that node, so a node has at most one parent; a
/// node declared in the current frame lists only nodes declared in it; and
/// where such a node keeps last frame's children to match against, those
/// not declared again still name it as their parent.
pub open spec fn tree_links(m: Map<Handle, DomNode>, gen: u64) -> bool {
    &&& forall|p: Handle, c: Handle|
        m.contains_key(p) && #[trigger] m[p].children@.contains(c) ==> m.contains_key(c) && m[c].parent == Some(p)
    &&& forall|p: Handle, c: Handle|
        m.contains_key(p) && m[p].stamp == gen && #[trigger] m[p].children@.contains(c) ==> m[c].stamp == gen
    &&& forall|p: Handle, c: Handle|
        m.contains_key(p) && m[p].stamp == gen && #[trigger] m[p].prev_children@.contains(c) && m.contains_key(c)
            && m[c].stamp != gen ==> m[c].parent == Some(p)
}

impl Dom {
    /// The tree's links agree (`tree_links`).
    pub open spec fn linked(&self) -> bool {
        tree_links(self@, self.generation)
    }
}

pub proof fn lemma_start_links(d0: Dom, d1: Dom)
    requires
        d0.wf(),
        d0.linked(),
        Dom::start_post(d0, d1),
    ensures
        d1.linked(),
{
    let root = d0.root;
    let m0 = d0@;
    let m1 = d1@;
    assert forall|p: Handle, c: Handle| m1.contains_key(p) && #[trigger] m1[p].children@.contains(c) implies m1.contains_key(c)
        && m1[c].parent == Some(p) by {
        if p != root {
            assert(m0[p].children@.contains(c));
            assert(c != root);
        }
    }
    assert forall|p: Handle, c: Handle|
        m1.contains_key(p) && m1[p].stamp == d1.generation && #[trigger] m1[p].children@.contains(c) implies m1[c].stamp
        == d1.generation by {
        if p != root {
            assert(m0[p].stamp <= d0.generation);
        }
    }
    assert forall|p: Handle, c: Handle|
        m1.contains_key(p) && m1[p].stamp == d1.generation && #[trigger] m1[p].prev_children@.contains(c)
            && m1.contains_key(c) && m1[c].stamp != d1.generation implies m1[c].parent == Some(p) by {
        if p != root {
            assert(m0[p].stamp <= d0.generation);
        } else {
            assert(m0[root].children@.contains(c));
            assert(c != root);
        }
    }
}

pub proof fn lemma_begin_links(
    d0: Dom,
    d1: Dom,
    key: WidgetKey,
    widget: WidgetKind,
    interest: EventInterest,
    r: Handle,
)
    requires
        d0.in_frame(),
        d0.linked(),
        Dom::begin_post(d0, d1, key, widget, interest, r),
    ensures
        d1.linked(),
{
    let m0 = d0@;
    let m1 = d1@;
    let gen = d0.generation;
    let p = d0.stack@.last();
    assert(d0.stack@[d0.stack@.len() - 1] == p);
    assert(m0.contains_key(p) && m0[p].stamp == gen);
    let found = find_reusable(m0, m0[p].prev_children@, key, gen);
    lemma_find_reusable(m0, m0[p].prev_children@, key, gen);
    assert(m0.contains_key(r) ==> m0[r].stamp != gen);
    assert(m0.contains_key(r) ==> m0[r].parent == Some(p));
    assert forall|q: Handle, c: Handle| m1.contains_key(q) && #[trigger] m1[q].children@.contains(c) implies m1.contains_key(c)
        && m1[c].parent == Some(q) by {
        if q == p {
            if c != r {
                assert(m0[p].children@.contains(c)) by {
                    let i = choose|i: int| 0 <= i < m1[p].children@.len() && m1[p].children@[i] == c;
                    assert(m1[p].children@ == m0[p].children@.push(r));
                    assert(i < m0[p].children@.len());
                    assert(m0[p].children@[i] == c);
                }
                assert(m0[c].stamp == gen);
            }
        } else if q != r {
            assert(m0[q].children@.contains(c));
            assert(m0.contains_key(c));
            if c == r {
                assert(m0[r].parent == Some(q));
            }
        }
    }
    assert forall|q: Handle, c: Handle|
        m1.contains_key(q) && m1[q].stamp == gen && #[trigger] m1[q].children@.contains(c) implies m1[c].stamp == gen by {
        if q == p {
            if c != r {
                assert(m0[p].children@.contains(c)) by {
                    let i = choose|i: int| 0 <= i < m1[p].children@.len() && m1[p].children@[i] == c;
                    assert(m1[p].children@ == m0[p].children@.push(r));
                    assert(m0[p].children@[i] == c);
                }
            }
        } else if q != r {
            assert(m0[q].children@.contains(c));
        }
    }
    assert forall|q: Handle, c: Handle|
        m1.contains_key(q) && m1[q].stamp == gen && #[trigger] m1[q].prev_children@.contains(c) && m1.contains_key(c)
            && m1[c].stamp != gen implies m1[c].parent == Some(q) by {
        assert(c != r && c != p);
        if q == r {
            assert(found is Some);
            assert(m0[r].children@.contains(c));
        } else if q == p {
        } else {
            assert(m0[q].prev_children@.contains(c));
        }
    }
}

pub proof fn lemma_finish_links(d0: Dom, d1: Dom, removed: Seq<Handle>)
    requires
        d0.wf(),
        d0.linked(),
        Dom::finish_post(d0, d1, removed),
    ensures
        d1.linked(),
{
    let m0 = d0@;
    let m1 = d1@;
    assert forall|p: Handle, c: Handle| m1.contains_key(p) && #[trigger] m1[p].children@.contains(c) implies m1.contains_key(c)
        && m1[c].parent == Some(p) by {
        assert(m0[p].children@.contains(c));
        assert(m0[c].stamp == d0.generation);
    }
    assert forall|p: Handle, c: Handle|
        m1.contains_key(p) && m1[p].stamp == d1.generation && #[trigger] m1[p].children@.contains(c) implies m1[c].stamp
        == d1.generation by {
        assert(m0[p].children@.contains(c));
    }
}

} // verus!
