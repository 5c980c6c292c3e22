//! Paint output: draw calls with their clip rectangles, the scissor each
//! becomes on the surface, the merged vertex and index buffers, and the
//! managed texture table diffed from frame to frame.
use vstd::prelude::*;

use crate::dom::{Dom, DomNode, Handle};
use crate::geometry::{Rect, Vec2};
use crate::layout::{LayoutDom, LayoutDomNode};
use crate::widget::WidgetKind;

verus! {

/// A managed texture referenced in a frame, with the version of its
/// contents.
#[derive(Clone, Copy, Debug, PartialEq, Eq, Structural)]
pub struct TextureEntry {
    pub id: u64,
    pub version: u64,
}

/// How a managed texture changed between two frames.
#[derive(Clone, Copy, Debug, PartialEq, Eq, Structural)]
pub enum TextureChange {
    Added,
    Modified,
    Removed,
}

/// One change of the texture table.
#[derive(Clone, Copy, Debug, PartialEq, Eq, Structural)]
pub struct TextureEdit {
    pub id: u64,
    pub change: TextureChange,
}

/// The version of texture `id` in a table, searching from its end.
pub open spec fn find_version(t: Seq<TextureEntry>, id: u64) -> Option<u64>
    decreases t.len(),
{
    if t.len() == 0 {
        None
    } else if t.last().id == id {
        Some(t.last().version)
    } else {
        find_version(t.drop_last(), id)
    }
}

/// No texture appears twice in a table.
pub open spec fn unique_ids(t: Seq<TextureEntry>) -> bool {
    forall|i: int, j: int| 0 <= i < j < t.len() ==> #[trigger] t[i].id != #[trigger] t[j].id
}

/// The change, if any, of a texture of the current table.
pub open spec fn edit_for(prev: Seq<TextureEntry>, e: TextureEntry) -> Seq<TextureEdit> {
    match find_version(prev, e.id) {
        None => seq![TextureEdit { id: e.id, change: TextureChange::Added }],
        Some(v) => if v == e.version {
            Seq::empty()
        } else {
            seq![TextureEdit { id: e.id, change: TextureChange::Modified }]
        },
    }
}

/// Additions and modifications, in the order of the current table.
pub open spec fn changes_of(prev: Seq<TextureEntry>, cur: Seq<TextureEntry>) -> Seq<TextureEdit>
    decreases cur.len(),
{
    if cur.len() == 0 {
        Seq::empty()
    } else {
        changes_of(prev, cur.drop_last()) + edit_for(prev, cur.last())
    }
}

/// Removals, in the order of the previous table.
pub open spec fn removals_of(prev: Seq<TextureEntry>, cur: Seq<TextureEntry>) -> Seq<TextureEdit>
    decreases prev.len(),
{
    if prev.len() == 0 {
        Seq::empty()
    } else {
        removals_of(prev.drop_last(), cur) + (if find_version(cur, prev.last().id) is None {
            seq![TextureEdit { id: prev.last().id, change: TextureChange::Removed }]
        } else {
            Seq::empty()
        })
    }
}

/// The changes from one frame's table to the next.
pub open spec fn texture_diff(prev: Seq<TextureEntry>, cur: Seq<TextureEntry>) -> Seq<TextureEdit> {
    changes_of(prev, cur) + removals_of(prev, cur)
}

fn find_version_exec(t: &Vec<TextureEntry>, id: u64) -> (r: Option<u64>)
    ensures
        r == find_version(t@, id),
{
    let mut i: usize = t.len();
    assert(t@.subrange(0, t@.len() as int) =~= t@);
    while i > 0
        invariant
            i <= t@.len(),
            find_version(t@, id) == find_version(t@.subrange(0, i as int), id),
        decreases i,
    {
        let ghost s = t@.subrange(0, i as int);
        assert(s.drop_last() =~= t@.subrange(0, i - 1));
        if t[i - 1].id == id {
            return Some(t[i - 1].version);
        }
        i = i - 1;
    }
    None
}

/// The texture edits from the table `prev` to the table `cur`: first each
/// texture of `cur` that `prev` lacks (added) or holds at another version
/// (modified), in the order of `cur`; then each texture of `prev` that
/// `cur` lacks (removed), in the order of `prev`.
pub fn diff_textures(prev: &Vec<TextureEntry>, cur: &Vec<TextureEntry>) -> (r: Vec<TextureEdit>)
    ensures
        r@ == texture_diff(prev@, cur@),
{
    let mut r: Vec<TextureEdit> = Vec::new();
    let mut i: usize = 0;
    while i < cur.len()
        invariant
            i <= cur@.len(),
            r@ == changes_of(prev@, cur@.subrange(0, i as int)),
        decreases cur@.len() - i,
    {
        let e = cur[i];
        let ghost before = r@;
        match find_version_exec(prev, e.id) {
            None => r.push(TextureEdit { id: e.id, change: TextureChange::Added }),
            Some(v) => {
                if v != e.version {
                    r.push(TextureEdit { id: e.id, change: TextureChange::Modified });
                }
            },
        }
        proof {
            let s = cur@.subrange(0, i + 1);
            assert(s.drop_last() =~= cur@.subrange(0, i as int));
            assert(s.last() == e);
            assert(r@ =~= before + edit_for(prev@, e));
        }
        i = i + 1;
    }
    assert(cur@.subrange(0, cur@.len() as int) =~= cur@);
    let ghost changes = r@;
    let mut j: usize = 0;
    while j < prev.len()
        invariant
            j <= prev@.len(),
            changes == changes_of(prev@, cur@),
            r@ == changes + removals_of(prev@.subrange(0, j as int), cur@),
        decreases prev@.len() - j,
    {
        let e = prev[j];
        let ghost before = r@;
        if find_version_exec(cur, e.id).is_none() {
            r.push(TextureEdit { id: e.id, change: TextureChange::Removed });
        }
        proof {
            let s = prev@.subrange(0, j + 1);
            assert(s.drop_last() =~= prev@.subrange(0, j as int));
            assert(s.last() == e);
            assert(r@ =~= changes + removals_of(s, cur@));
        }
        j = j + 1;
    }
    assert(prev@.subrange(0, prev@.len() as int) =~= prev@);
    r
}

proof fn lemma_find_update(t: Seq<TextureEntry>, k: int, e: TextureEntry)
    requires
        unique_ids(t),
        0 <= k < t.len(),
        e.id == t[k].id,
    ensures
        forall|key: u64|
            #[trigger] find_version(t.update(k, e), key) == (if key == e.id {
                Some(e.version)
            } else {
                find_version(t, key)
            }),
    decreases t.len(),
{
    let u = t.update(k, e);
    if k < t.len() - 1 {
        let s = t.drop_last();
        assert(unique_ids(s)) by {
            assert forall|a: int, b: int| 0 <= a < b < s.len() implies #[trigger] s[a].id != #[trigger] s[b].id by {
                assert(s[a] == t[a] && s[b] == t[b]);
            }
        }
        assert(u.drop_last() =~= s.update(k, e));
        lemma_find_update(s, k, e);
        assert(t.last().id != e.id);
        assert(u.last() == t.last());
        assert forall|key: u64| #[trigger] find_version(u, key) == (if key == e.id {
            Some(e.version)
        } else {
            find_version(t, key)
        }) by {
            assert(find_version(s.update(k, e), key) == (if key == e.id {
                Some(e.version)
            } else {
                find_version(s, key)
            }));
        }
    } else {
        assert(u.drop_last() =~= t.drop_last());
        assert(u.last() == e);
        assert forall|key: u64| #[trigger] find_version(u, key) == (if key == e.id {
            Some(e.version)
        } else {
            find_version(t, key)
        }) by {}
    }
}

proof fn lemma_find_member(t: Seq<TextureEntry>, i: int)
    requires
        unique_ids(t),
        0 <= i < t.len(),
    ensures
        find_version(t, t[i].id) == Some(t[i].version),
    decreases t.len(),
{
    if i < t.len() - 1 {
        assert(t.last().id != t[i].id);
        let s = t.drop_last();
        assert(unique_ids(s)) by {
            assert forall|a: int, b: int| 0 <= a < b < s.len() implies #[trigger] s[a].id != #[trigger] s[b].id by {
                assert(s[a] == t[a] && s[b] == t[b]);
            }
        }
        assert(s[i] == t[i]);
        lemma_find_member(s, i);
    }
}

proof fn lemma_no_changes(t: Seq<TextureEntry>, n: int)
    requires
        unique_ids(t),
        0 <= n <= t.len(),
    ensures
        changes_of(t, t.subrange(0, n)) == Seq::<TextureEdit>::empty(),
    decreases n,
{
    if n > 0 {
        let s = t.subrange(0, n);
        assert(s.drop_last() =~= t.subrange(0, n - 1));
        lemma_no_changes(t, n - 1);
        lemma_find_member(t, n - 1);
        assert(edit_for(t, s.last()) =~= Seq::<TextureEdit>::empty());
        assert(changes_of(t, s) =~= Seq::<TextureEdit>::empty());
    }
}

proof fn lemma_no_removals(t: Seq<TextureEntry>, n: int)
    requires
        unique_ids(t),
        0 <= n <= t.len(),
    ensures
        removals_of(t.subrange(0, n), t) == Seq::<TextureEdit>::empty(),
    decreases n,
{
    if n > 0 {
        let s = t.subrange(0, n);
        assert(s.drop_last() =~= t.subrange(0, n - 1));
        lemma_no_removals(t, n - 1);
        lemma_find_member(t, n - 1);
        assert(removals_of(s, t) =~= Seq::<TextureEdit>::empty());
    }
}

/// A frame that references the same textures, at the same versions, as the
/// frame before yields no texture edits.
pub proof fn lemma_unchanged_frame_no_edits(t: Seq<TextureEntry>)
    requires
        unique_ids(t),
    ensures
        texture_diff(t, t) == Seq::<TextureEdit>::empty(),
{
    lemma_no_changes(t, t.len() as int);
    lemma_no_removals(t, t.len() as int);
    assert(t.subrange(0, t.len() as int) =~= t);
    assert(texture_diff(t, t) =~= Seq::<TextureEdit>::empty());
}

/// The render pipeline a draw call selects.
#[derive(Clone, Copy, Debug, PartialEq, Eq, Structural)]
pub enum Pipeline {
    /// Flat colour and textured geometry.
    Main,
    /// Glyphs.
    Text,
}

/// A texture a draw call samples.
#[derive(Clone, Copy, Debug, PartialEq, Eq, Structural)]
pub enum TextureId {
    /// A texture of the managed table.
    Managed(u64),
    /// A texture the renderer was handed directly.
    User(u64),
}

/// A vertex: a position in logical pixels, texture coordinates in
/// 1/65536ths of the texture, and an RGBA colour.
#[derive(Clone, Copy, Debug, PartialEq, Eq, Structural)]
pub struct Vertex {
    pub position: Vec2,
    pub texcoord: Vec2,
    pub color: u32,
}

/// Geometry emitted by a widget, with the clip active when it was emitted.
pub struct PaintCall {
    pub vertices: Vec<Vertex>,
    /// Indices into `vertices`.
    pub indices: Vec<u32>,
    pub texture: Option<TextureId>,
    pub pipeline: Pipeline,
    /// Absent where the call is not clipped.
    pub clip: Option<Rect>,
}

/// A rectangle of surface pixels.
#[derive(Clone, Copy, Debug, PartialEq, Eq, Structural)]
pub struct ScissorRect {
    pub x: u32,
    pub y: u32,
    pub w: u32,
    pub h: u32,
}

/// A coordinate as a surface pixel: negative values become zero, and
/// values past `u32::MAX` become `u32::MAX`.
pub open spec fn to_pixel(v: int) -> int {
    if v < 0 {
        0
    } else if v > u32::MAX {
        u32::MAX as int
    } else {
        v
    }
}

pub fn pixel(v: i64) -> (r: u32)
    ensures
        r == to_pixel(v as int),
{
    if v < 0 {
        0
    } else if v > 0xffff_ffff {
        0xffff_ffff
    } else {
        v as u32
    }
}

/// The scissor a clip becomes on a surface of `sw` by `sh` pixels: the clip
/// in pixels, cut at the surface's far edges. A clip that starts past the
/// surface or covers no pixel gives none.
pub open spec fn spec_scissor(clip: Rect, sw: u32, sh: u32) -> Option<ScissorRect> {
    let x = to_pixel(clip.pos.x as int);
    let y = to_pixel(clip.pos.y as int);
    let x1 = min_u(min_u(x + to_pixel(clip.size.x as int), u32::MAX as int), sw as int);
    let y1 = min_u(min_u(y + to_pixel(clip.size.y as int), u32::MAX as int), sh as int);
    let w = if x1 > x {
        x1 - x
    } else {
        0
    };
    let h = if y1 > y {
        y1 - y
    } else {
        0
    };
    if x > sw || y > sh || w == 0 || h == 0 {
        None
    } else {
        Some(ScissorRect { x: x as u32, y: y as u32, w: w as u32, h: h as u32 })
    }
}

pub open spec fn min_u(a: int, b: int) -> int {
    if a <= b {
        a
    } else {
        b
    }
}

/// The scissor for a clip on a surface of `sw` by `sh` pixels, or none
/// where the draw call would cover no pixel.
pub fn scissor(clip: Rect, sw: u32, sh: u32) -> (r: Option<ScissorRect>)
    ensures
        r == spec_scissor(clip, sw, sh),
{
    let x = pixel(clip.pos.x);
    let y = pixel(clip.pos.y);
    let w0 = pixel(clip.size.x);
    let h0 = pixel(clip.size.y);
    let mut x1 = x.saturating_add(w0);
    if x1 > sw {
        x1 = sw;
    }
    let mut y1 = y.saturating_add(h0);
    if y1 > sh {
        y1 = sh;
    }
    let w = x1.saturating_sub(x);
    let h = y1.saturating_sub(y);
    if x > sw || y > sh || w == 0 || h == 0 {
        None
    } else {
        Some(ScissorRect { x, y, w, h })
    }
}

/// The scissor of a draw call: the whole surface where it is not clipped;
/// none on a surface without pixels.
pub open spec fn call_scissor(clip: Option<Rect>, sw: u32, sh: u32) -> Option<ScissorRect> {
    match clip {
        Some(c) => spec_scissor(c, sw, sh),
        None => if sw == 0 || sh == 0 {
            None
        } else {
            Some(ScissorRect { x: 0, y: 0, w: sw, h: sh })
        },
    }
}

/// A draw command for the renderer: a range of the merged index buffer.
#[derive(Clone, Copy, Debug, PartialEq, Eq, Structural)]
pub struct DrawCommand {
    /// The paint call it came from.
    pub call: usize,
    pub index_start: u32,
    pub index_end: u32,
    pub texture: Option<TextureId>,
    pub pipeline: Pipeline,
    pub scissor: ScissorRect,
}

/// The paint output of one frame.
pub struct PaintDom {
    pub calls: Vec<PaintCall>,
    /// The managed textures referenced this frame.
    pub textures: Vec<TextureEntry>,
    /// The managed textures referenced in the previous frame.
    pub prev_textures: Vec<TextureEntry>,
    /// The changes of the texture table made by the last finished frame.
    pub texture_edits: Vec<TextureEdit>,
    pub surface_width: u32,
    pub surface_height: u32,
}

impl PaintDom {
    pub fn new() -> (r: PaintDom)
        ensures
            r.calls@.len() == 0,
            r.textures@.len() == 0,
            r.prev_textures@.len() == 0,
            r.texture_edits@.len() == 0,
    {
        PaintDom {
            calls: Vec::new(),
            textures: Vec::new(),
            prev_textures: Vec::new(),
            texture_edits: Vec::new(),
            surface_width: 0,
            surface_height: 0,
        }
    }

    pub fn set_surface_size(&mut self, w: u32, h: u32)
        ensures
            final(self).surface_width == w,
            final(self).surface_height == h,
            final(self).calls@ == old(self).calls@,
            final(self).textures@ == old(self).textures@,
            final(self).prev_textures@ == old(self).prev_textures@,
            final(self).texture_edits@ == old(self).texture_edits@,
    {
        self.surface_width = w;
        self.surface_height = h;
    }

    /// Begins a frame's paint: the calls are dropped, and this frame's
    /// texture table starts empty, the last one kept to diff against.
    pub fn start(&mut self)
        ensures
            final(self).calls@.len() == 0,
            final(self).textures@.len() == 0,
            final(self).prev_textures@ == old(self).textures@,
            final(self).texture_edits@ == old(self).texture_edits@,
            final(self).surface_width == old(self).surface_width,
            final(self).surface_height == old(self).surface_height,
    {
        self.calls = Vec::new();
        std::mem::swap(&mut self.prev_textures, &mut self.textures);
        self.textures = Vec::new();
    }

    /// Records that this frame references texture `id` at `version`. A
    /// texture referenced twice keeps the later version.
    pub fn reference_texture(&mut self, id: u64, version: u64)
        requires
            unique_ids(old(self).textures@),
        ensures
            unique_ids(final(self).textures@),
            forall|k: u64|
                #[trigger] find_version(final(self).textures@, k) == (if k == id {
                    Some(version)
                } else {
                    find_version(old(self).textures@, k)
                }),
            final(self).calls@ == old(self).calls@,
            final(self).prev_textures@ == old(self).prev_textures@,
            final(self).texture_edits@ == old(self).texture_edits@,
            final(self).surface_width == old(self).surface_width,
            final(self).surface_height == old(self).surface_height,
    {
        let e = TextureEntry { id, version };
        let mut i: usize = 0;
        while i < self.textures.len()
            invariant
                i <= self.textures@.len(),
                self.textures@ == old(self).textures@,
                unique_ids(self.textures@),
                self.calls@ == old(self).calls@,
                self.prev_textures@ == old(self).prev_textures@,
                self.texture_edits@ == old(self).texture_edits@,
                self.surface_width == old(self).surface_width,
                self.surface_height == old(self).surface_height,
                forall|q: int| 0 <= q < i ==> #[trigger] self.textures@[q].id != id,
                e == (TextureEntry { id, version }),
            decreases self.textures@.len() - i,
        {
            if self.textures[i].id == id {
                let ghost t = self.textures@;
                assert(t[i as int].id == e.id);
                self.textures.set(i, e);
                proof {
                    assert(self.textures@ == t.update(i as int, e));
                    lemma_find_update(t, i as int, e);
                    assert(unique_ids(self.textures@)) by {
                        assert forall|a: int, b: int| 0 <= a < b < self.textures@.len() implies #[trigger] self.textures@[a].id
                            != #[trigger] self.textures@[b].id by {
                            assert(t[a].id != t[b].id);
                            assert(self.textures@[a].id == t[a].id);
                            assert(self.textures@[b].id == t[b].id);
                        }
                    }
                }
                return ;
            }
            i = i + 1;
        }
        let ghost t = self.textures@;
        self.textures.push(e);
        proof {
            assert(self.textures@.drop_last() =~= t);
            assert(self.textures@.last() == e);
            assert forall|k: u64| #[trigger] find_version(self.textures@, k) == (if k == id {
                Some(version)
            } else {
                find_version(t, k)
            }) by {}
            assert forall|a: int, b: int| 0 <= a < b < self.textures@.len() implies #[trigger] self.textures@[a].id
                != #[trigger] self.textures@[b].id by {
                if b < t.len() {
                    assert(t[a].id != t[b].id);
                }
            }
        }
    }

    /// Ends a frame's paint: the texture edits become the changes from the
    /// previous frame's table to this one's.
    pub fn finish(&mut self)
        ensures
            final(self).texture_edits@ == texture_diff(old(self).prev_textures@, old(self).textures@),
            final(self).textures@ == old(self).textures@,
            final(self).prev_textures@ == old(self).prev_textures@,
            final(self).calls@ == old(self).calls@,
            final(self).surface_width == old(self).surface_width,
            final(self).surface_height == old(self).surface_height,
    {
        self.texture_edits = diff_textures(&self.prev_textures, &self.textures);
    }

    /// Drops the draw calls.
    pub fn clear_calls(&mut self)
        ensures
            final(self).calls@.len() == 0,
            final(self).textures@ == old(self).textures@,
            final(self).prev_textures@ == old(self).prev_textures@,
            final(self).texture_edits@ == old(self).texture_edits@,
            final(self).surface_width == old(self).surface_width,
            final(self).surface_height == old(self).surface_height,
    {
        self.calls = Vec::new();
    }

    /// Adds a draw call.
    pub fn add_call(&mut self, call: PaintCall)
        ensures
            final(self).calls@ == old(self).calls@.push(call),
            final(self).textures@ == old(self).textures@,
            final(self).prev_textures@ == old(self).prev_textures@,
            final(self).texture_edits@ == old(self).texture_edits@,
            final(self).surface_width == old(self).surface_width,
            final(self).surface_height == old(self).surface_height,
    {
        self.calls.push(call);
    }

    /// Merges the calls into one vertex and one index buffer for the
    /// renderer, shifting each call's indices by the vertices before it, and
    /// makes one draw command per call that covers a pixel of the surface.
    /// Calls whose clip covers no pixel are dropped.
    pub fn build_commands(&self, vertices: &mut Vec<Vertex>, indices: &mut Vec<u32>) -> (r: Vec<DrawCommand>)
        requires
            old(vertices)@.len() == 0,
            old(indices)@.len() == 0,
            total_vertices(self.calls@, self.calls@.len() as int) <= u32::MAX,
            total_indices(self.calls@, self.calls@.len() as int) <= u32::MAX,
            forall|i: int, q: int|
                0 <= i < self.calls@.len() && 0 <= q < self.calls@[i].indices@.len() ==> #[trigger] self.calls@[i].indices@[q]
                    < self.calls@[i].vertices@.len(),
        ensures
            final(vertices)@.len() == total_vertices(self.calls@, self.calls@.len() as int),
            final(indices)@.len() == total_indices(self.calls@, self.calls@.len() as int),
            forall|i: int, j: int|
                0 <= i < self.calls@.len() && 0 <= j < self.calls@[i].vertices@.len() ==> final(vertices)@[total_vertices(
                    self.calls@,
                    i,
                ) + j] == #[trigger] self.calls@[i].vertices@[j],
            forall|i: int, j: int|
                0 <= i < self.calls@.len() && 0 <= j < self.calls@[i].indices@.len() ==> final(indices)@[total_indices(
                    self.calls@,
                    i,
                ) + j] as int == total_vertices(self.calls@, i) + #[trigger] self.calls@[i].indices@[j],
            forall|k: int|
                0 <= k < r@.len() ==> command_of(self.calls@, #[trigger] r@[k], self.surface_width, self.surface_height),
            forall|k1: int, k2: int| 0 <= k1 < k2 < r@.len() ==> #[trigger] r@[k1].call < #[trigger] r@[k2].call,
            forall|i: int|
                0 <= i < self.calls@.len() && (call_scissor(self.calls@[i].clip, self.surface_width, self.surface_height) is Some)
                    ==> exists|k: int| 0 <= k < r@.len() && #[trigger] r@[k].call == i,
    {
        let sw = self.surface_width;
        let sh = self.surface_height;
        let mut r: Vec<DrawCommand> = Vec::new();
        let mut i: usize = 0;
        proof {
            lemma_totals_monotone(self.calls@);
        }
        while i < self.calls.len()
            invariant
                i <= self.calls@.len(),
                sw == self.surface_width,
                sh == self.surface_height,
                total_vertices(self.calls@, self.calls@.len() as int) <= u32::MAX,
                total_indices(self.calls@, self.calls@.len() as int) <= u32::MAX,
                forall|a: int, q: int|
                    0 <= a < self.calls@.len() && 0 <= q < self.calls@[a].indices@.len() ==> #[trigger] self.calls@[a].indices@[q]
                        < self.calls@[a].vertices@.len(),
                forall|a: int, b: int|
                    0 <= a <= b <= self.calls@.len() ==> #[trigger] total_vertices(self.calls@, a) <= #[trigger] total_vertices(
                        self.calls@,
                        b,
                    ),
                forall|a: int, b: int|
                    0 <= a <= b <= self.calls@.len() ==> #[trigger] total_indices(self.calls@, a) <= #[trigger] total_indices(
                        self.calls@,
                        b,
                    ),
                vertices@.len() == total_vertices(self.calls@, i as int),
                indices@.len() == total_indices(self.calls@, i as int),
                forall|a: int, j: int|
                    0 <= a < i && 0 <= j < self.calls@[a].vertices@.len() ==> vertices@[total_vertices(self.calls@, a)
                        + j] == #[trigger] self.calls@[a].vertices@[j],
                forall|a: int, j: int|
                    0 <= a < i && 0 <= j < self.calls@[a].indices@.len() ==> indices@[total_indices(self.calls@, a)
                        + j] as int == total_vertices(self.calls@, a) + #[trigger] self.calls@[a].indices@[j],
                forall|k: int| 0 <= k < r@.len() ==> command_of(self.calls@, #[trigger] r@[k], sw, sh),
                forall|k: int| 0 <= k < r@.len() ==> #[trigger] r@[k].call < i,
                forall|k1: int, k2: int| 0 <= k1 < k2 < r@.len() ==> #[trigger] r@[k1].call < #[trigger] r@[k2].call,
                forall|a: int|
                    0 <= a < i && (call_scissor(self.calls@[a].clip, sw, sh) is Some) ==> exists|k: int|
                        0 <= k < r@.len() && #[trigger] r@[k].call == a,
            decreases self.calls@.len() - i,
        {
            let call = &self.calls[i];
            let base = vertices.len() as u32;
            let start = indices.len() as u32;
            proof {
                assert(total_vertices(self.calls@, i + 1) == total_vertices(self.calls@, i as int)
                    + self.calls@[i as int].vertices@.len());
                assert(total_indices(self.calls@, i + 1) == total_indices(self.calls@, i as int)
                    + self.calls@[i as int].indices@.len());
                assert(total_vertices(self.calls@, i + 1) <= total_vertices(self.calls@, self.calls@.len() as int));
                assert(total_indices(self.calls@, i + 1) <= total_indices(self.calls@, self.calls@.len() as int));
            }
            let ghost v0 = vertices@;
            let ghost x0 = indices@;
            let mut j: usize = 0;
            while j < call.vertices.len()
                invariant
                    j <= call.vertices@.len(),
                    vertices@.len() == v0.len() + j,
                    forall|q: int| 0 <= q < v0.len() ==> vertices@[q] == v0[q],
                    forall|q: int| 0 <= q < j ==> vertices@[v0.len() + q] == #[trigger] call.vertices@[q],
                decreases call.vertices@.len() - j,
            {
                vertices.push(call.vertices[j]);
                j = j + 1;
            }
            let mut j: usize = 0;
            while j < call.indices.len()
                invariant
                    j <= call.indices@.len(),
                    base as int == v0.len(),
                    vertices@.len() == v0.len() + call.vertices@.len(),
                    forall|q: int| 0 <= q < v0.len() ==> vertices@[q] == v0[q],
                    forall|q: int| 0 <= q < call.vertices@.len() ==> vertices@[v0.len() + q] == #[trigger] call.vertices@[q],
                    indices@.len() == x0.len() + j,
                    v0.len() + call.vertices@.len() <= u32::MAX,
                    forall|q: int| 0 <= q < call.indices@.len() ==> #[trigger] call.indices@[q] < call.vertices@.len(),
                    forall|q: int| 0 <= q < x0.len() ==> indices@[q] == x0[q],
                    forall|q: int|
                        0 <= q < j ==> indices@[x0.len() + q] as int == base + #[trigger] call.indices@[q],
                decreases call.indices@.len() - j,
            {
                indices.push(base + call.indices[j]);
                j = j + 1;
            }
            proof {
                let tv = total_vertices(self.calls@, i as int);
                let ti = total_indices(self.calls@, i as int);
                assert(call == self.calls@[i as int]);
                assert forall|a: int, j: int|
                    0 <= a < i + 1 && 0 <= j < self.calls@[a].vertices@.len() implies vertices@[total_vertices(
                        self.calls@,
                        a,
                    ) + j] == #[trigger] self.calls@[a].vertices@[j] by {
                    if a < i {
                        assert(total_vertices(self.calls@, a + 1) <= tv);
                        assert(total_vertices(self.calls@, a + 1) == total_vertices(self.calls@, a)
                            + self.calls@[a].vertices@.len());
                        assert(total_vertices(self.calls@, 0) <= total_vertices(self.calls@, a));
                        let q = total_vertices(self.calls@, a) + j;
                        assert(q < v0.len());
                        assert(vertices@[q] == v0[q]);
                        assert(v0[total_vertices(self.calls@, a) + j] == self.calls@[a].vertices@[j]);
                    } else {
                        assert(vertices@[v0.len() + j] == call.vertices@[j]);
                    }
                }
                assert forall|a: int, j: int|
                    0 <= a < i + 1 && 0 <= j < self.calls@[a].indices@.len() implies indices@[total_indices(
                        self.calls@,
                        a,
                    ) + j] as int == total_vertices(self.calls@, a) + #[trigger] self.calls@[a].indices@[j] by {
                    if a < i {
                        assert(total_indices(self.calls@, a + 1) <= ti);
                        assert(total_indices(self.calls@, a + 1) == total_indices(self.calls@, a)
                            + self.calls@[a].indices@.len());
                        assert(total_indices(self.calls@, 0) <= total_indices(self.calls@, a));
                        let q = total_indices(self.calls@, a) + j;
                        assert(q < x0.len());
                        assert(indices@[q] == x0[q]);
                        assert(x0[total_indices(self.calls@, a) + j] as int == total_vertices(self.calls@, a)
                            + self.calls@[a].indices@[j]);
                    } else {
                        assert(indices@[x0.len() + j] as int == base + call.indices@[j]);
                    }
                }
            }
            let end = indices.len() as u32;
            let sc = match call.clip {
                Some(c) => scissor(c, sw, sh),
                None => if sw == 0 || sh == 0 {
                    None
                } else {
                    Some(ScissorRect { x: 0, y: 0, w: sw, h: sh })
                },
            };
            let ghost r0 = r@;
            if let Some(s) = sc {
                r.push(
                    DrawCommand {
                        call: i,
                        index_start: start,
                        index_end: end,
                        texture: call.texture,
                        pipeline: call.pipeline,
                        scissor: s,
                    },
                );
            }
            proof {
                assert forall|a: int|
                    0 <= a < i + 1 && (call_scissor(self.calls@[a].clip, sw, sh) is Some) implies exists|k: int|
                        0 <= k < r@.len() && #[trigger] r@[k].call == a by {
                    if a < i {
                        let k = choose|k: int| 0 <= k < r0.len() && #[trigger] r0[k].call == a;
                        assert(r@[k] == r0[k]);
                    } else {
                        assert(r@[r@.len() - 1].call == a);
                    }
                }
                assert forall|k: int| 0 <= k < r@.len() implies command_of(self.calls@, #[trigger] r@[k], sw, sh) by {
                    if k < r0.len() {
                        assert(r@[k] == r0[k]);
                    }
                }
                assert forall|k1: int, k2: int| 0 <= k1 < k2 < r@.len() implies #[trigger] r@[k1].call < #[trigger] r@[k2].call by {
                    if k2 < r0.len() {
                        assert(r@[k1] == r0[k1] && r@[k2] == r0[k2]);
                    } else {
                        assert(r@[k1] == r0[k1]);
                    }
                }
            }
            i = i + 1;
        }
        r
    }
}

/// The vertices of the first `n` calls.
pub open spec fn total_vertices(calls: Seq<PaintCall>, n: int) -> int
    decreases n,
{
    if n <= 0 {
        0
    } else {
        total_vertices(calls, n - 1) + calls[n - 1].vertices@.len()
    }
}

/// The indices of the first `n` calls.
pub open spec fn total_indices(calls: Seq<PaintCall>, n: int) -> int
    decreases n,
{
    if n <= 0 {
        0
    } else {
        total_indices(calls, n - 1) + calls[n - 1].indices@.len()
    }
}

proof fn lemma_totals_monotone(calls: Seq<PaintCall>)
    ensures
        forall|a: int, b: int|
            0 <= a <= b <= calls.len() ==> #[trigger] total_vertices(calls, a) <= #[trigger] total_vertices(calls, b),
        forall|a: int, b: int|
            0 <= a <= b <= calls.len() ==> #[trigger] total_indices(calls, a) <= #[trigger] total_indices(calls, b),
{
    assert forall|a: int, b: int| 0 <= a <= b <= calls.len() implies #[trigger] total_vertices(calls, a) <= #[trigger] total_vertices(
        calls,
        b,
    ) by {
        lemma_vertices_monotone(calls, a, b);
    }
    assert forall|a: int, b: int| 0 <= a <= b <= calls.len() implies #[trigger] total_indices(calls, a) <= #[trigger] total_indices(
        calls,
        b,
    ) by {
        lemma_indices_monotone(calls, a, b);
    }
}

proof fn lemma_vertices_monotone(calls: Seq<PaintCall>, a: int, b: int)
    requires
        0 <= a <= b,
    ensures
        total_vertices(calls, a) <= total_vertices(calls, b),
    decreases b - a,
{
    if a < b {
        lemma_vertices_monotone(calls, a, b - 1);
    }
}

proof fn lemma_indices_monotone(calls: Seq<PaintCall>, a: int, b: int)
    requires
        0 <= a <= b,
    ensures
        total_indices(calls, a) <= total_indices(calls, b),
    decreases b - a,
{
    if a < b {
        lemma_indices_monotone(calls, a, b - 1);
    }
}

/// A draw command is the one made for its call: the call's range of the
/// merged index buffer, its texture and pipeline, and its scissor.
pub open spec fn command_of(calls: Seq<PaintCall>, c: DrawCommand, sw: u32, sh: u32) -> bool {
    &&& 0 <= c.call < calls.len()
    &&& c.index_start == total_indices(calls, c.call as int)
    &&& c.index_end == total_indices(calls, c.call + 1)
    &&& c.texture == calls[c.call as int].texture
    &&& c.pipeline == calls[c.call as int].pipeline
    &&& call_scissor(calls[c.call as int].clip, sw, sh) == Some(c.scissor)
}

/// The draw call that fills a laid-out node with `color`: two triangles over
/// its rectangle, clipped to the node's clip.
pub open spec fn is_fill_of(call: PaintCall, n: LayoutDomNode, color: u32, viewport: Rect) -> bool {
    let r = n.rect;
    let z = Vec2 { x: 0, y: 0 };
    let right = r.right() as i64;
    let bottom = r.bottom() as i64;
    &&& call.vertices@ == seq![
        Vertex { position: r.pos, texcoord: z, color },
        Vertex { position: Vec2 { x: right, y: r.pos.y }, texcoord: z, color },
        Vertex { position: Vec2 { x: right, y: bottom }, texcoord: z, color },
        Vertex { position: Vec2 { x: r.pos.x, y: bottom }, texcoord: z, color },
    ]
    &&& call.indices@ == seq![0u32, 1, 2, 0, 2, 3]
    &&& call.texture is None
    &&& call.pipeline == Pipeline::Main
    &&& call.clip == Some(n.clip_rect.spec_get_rect(viewport))
}

/// Every call fills a coloured box of the tree that was laid out.
pub open spec fn calls_fill_boxes(calls: Seq<PaintCall>, dom: Dom, layout: LayoutDom) -> bool {
    forall|k: int|
        0 <= k < calls.len() ==> exists|h: Handle|
            #![trigger dom@[h], layout@[h]]
            dom@.contains_key(h) && layout@.contains_key(h) && (dom@[h].widget matches WidgetKind::ColoredBox {
                size: _,
                color,
            } && is_fill_of(#[trigger] calls[k], layout@[h], color, layout.spec_viewport()))
}

fn fill_call(n: &LayoutDomNode, color: u32, viewport: Rect) -> (r: PaintCall)
    ensures
        is_fill_of(r, *n, color, viewport),
{
    let r = n.rect;
    let z = Vec2::zero();
    let m = r.max();
    let vertices = vec![
        Vertex { position: r.pos, texcoord: z, color },
        Vertex { position: Vec2 { x: m.x, y: r.pos.y }, texcoord: z, color },
        Vertex { position: Vec2 { x: m.x, y: m.y }, texcoord: z, color },
        Vertex { position: Vec2 { x: r.pos.x, y: m.y }, texcoord: z, color },
    ];
    let indices: Vec<u32> = vec![0, 1, 2, 0, 2, 3];
    let call = PaintCall {
        vertices,
        indices,
        texture: None,
        pipeline: Pipeline::Main,
        clip: Some(n.clip_rect.get_rect(viewport)),
    };
    proof {
        assert(call.vertices@ =~= seq![
            Vertex { position: r.pos, texcoord: z, color },
            Vertex { position: Vec2 { x: r.right() as i64, y: r.pos.y }, texcoord: z, color },
            Vertex { position: Vec2 { x: r.right() as i64, y: r.bottom() as i64 }, texcoord: z, color },
            Vertex { position: Vec2 { x: r.pos.x, y: r.bottom() as i64 }, texcoord: z, color },
        ]);
        assert(call.indices@ =~= seq![0u32, 1, 2, 0, 2, 3]);
    }
    call
}

/// The boxes a depth-first walk from `id` fills, in order, and the layer
/// roots it meets and leaves for later. `layer_start` tells that `id` opens
/// the layer being painted, and is painted now.
pub open spec fn walk(
    dom: Map<Handle, DomNode>,
    layout: Map<Handle, LayoutDomNode>,
    id: Handle,
    fuel: nat,
    layer_start: bool,
) -> (Seq<Handle>, Seq<Handle>)
    decreases fuel, 0nat, 0nat,
{
    if fuel == 0 || !layout.contains_key(id) || !dom.contains_key(id) {
        (Seq::empty(), Seq::empty())
    } else if layout[id].new_layer && !layer_start {
        (Seq::empty(), seq![id])
    } else {
        let own = if dom[id].widget is ColoredBox {
            seq![id]
        } else {
            Seq::empty()
        };
        let cs = dom[id].children@;
        let rest = walk_list(dom, layout, cs, (fuel - 1) as nat, cs.len() as nat);
        (own + rest.0, rest.1)
    }
}

/// The walks from the first `n` of `cs`, one after the other.
pub open spec fn walk_list(
    dom: Map<Handle, DomNode>,
    layout: Map<Handle, LayoutDomNode>,
    cs: Seq<Handle>,
    fuel: nat,
    n: nat,
) -> (Seq<Handle>, Seq<Handle>)
    decreases fuel, 1nat, n,
{
    if n == 0 || n > cs.len() {
        (Seq::empty(), Seq::empty())
    } else {
        let a = walk_list(dom, layout, cs, fuel, (n - 1) as nat);
        let b = walk(dom, layout, cs[n - 1], fuel, false);
        (a.0 + b.0, a.1 + b.1)
    }
}

/// The colour of a coloured box.
pub open spec fn box_color(w: WidgetKind) -> Option<u32> {
    match w {
        WidgetKind::ColoredBox { size: _, color } => Some(color),
        _ => None,
    }
}

/// Call `k` fills box `k` of `hs`.
pub open spec fn fill_at(calls: Seq<PaintCall>, hs: Seq<Handle>, dom: Dom, layout: LayoutDom, k: int) -> bool {
    &&& box_color(dom@[hs[k]].widget) is Some
    &&& is_fill_of(calls[k], layout@[hs[k]], box_color(dom@[hs[k]].widget)->Some_0, layout.spec_viewport())
}

/// The calls fill the boxes `hs`, one each, in order.
pub open spec fn fills(calls: Seq<PaintCall>, hs: Seq<Handle>, dom: Dom, layout: LayoutDom) -> bool {
    &&& calls.len() == hs.len()
    &&& forall|k: int| 0 <= k < calls.len() ==> #[trigger] fill_at(calls, hs, dom, layout, k)
}

proof fn lemma_fills_concat(
    a: Seq<PaintCall>,
    ha: Seq<Handle>,
    b: Seq<PaintCall>,
    hb: Seq<Handle>,
    dom: Dom,
    layout: LayoutDom,
)
    requires
        fills(a, ha, dom, layout),
        fills(b, hb, dom, layout),
    ensures
        fills(a + b, ha + hb, dom, layout),
{
    let c = a + b;
    let hc = ha + hb;
    assert forall|k: int| 0 <= k < c.len() implies #[trigger] fill_at(c, hc, dom, layout, k) by {
        if k < a.len() {
            assert(fill_at(a, ha, dom, layout, k));
            assert(c[k] == a[k]);
            assert(hc[k] == ha[k]);
        } else {
            assert(fill_at(b, hb, dom, layout, k - a.len()));
            assert(c[k] == b[k - a.len()]);
            assert(hc[k] == hb[k - a.len()]);
        }
    }
}

/// The walks of the layers `ls`, the first `n` of them, one after the
/// other: the boxes they fill, and the layer roots they meet.
pub open spec fn layer_walks(
    dom: Map<Handle, DomNode>,
    layout: Map<Handle, LayoutDomNode>,
    ls: Seq<Handle>,
    fuel: nat,
    n: nat,
) -> (Seq<Handle>, Seq<Handle>)
    decreases n,
{
    if n == 0 || n > ls.len() {
        (Seq::empty(), Seq::empty())
    } else {
        let a = layer_walks(dom, layout, ls, fuel, (n - 1) as nat);
        let w = walk(dom, layout, ls[n - 1], fuel, true);
        (a.0 + w.0, a.1 + w.1)
    }
}

/// `ls` is an order of painting layers: the root first, then layer roots in
/// the order the walks of the layers before them met them.
pub open spec fn layer_order(
    dom: Map<Handle, DomNode>,
    layout: Map<Handle, LayoutDomNode>,
    root: Handle,
    ls: Seq<Handle>,
    fuel: nat,
) -> bool {
    &&& ls.len() >= 1
    &&& ls[0] == root
    &&& ls.is_prefix_of(seq![root] + layer_walks(dom, layout, ls, fuel, ls.len()).1)
}

proof fn lemma_layer_walks_prefix(
    dom: Map<Handle, DomNode>,
    layout: Map<Handle, LayoutDomNode>,
    a: Seq<Handle>,
    b: Seq<Handle>,
    fuel: nat,
    n: nat,
)
    requires
        n <= a.len(),
        n <= b.len(),
        a.subrange(0, n as int) == b.subrange(0, n as int),
    ensures
        layer_walks(dom, layout, a, fuel, n) == layer_walks(dom, layout, b, fuel, n),
    decreases n,
{
    if n > 0 {
        assert(a.subrange(0, n - 1) =~= a.subrange(0, n as int).subrange(0, n - 1));
        assert(b.subrange(0, n - 1) =~= b.subrange(0, n as int).subrange(0, n - 1));
        lemma_layer_walks_prefix(dom, layout, a, b, fuel, (n - 1) as nat);
        assert(a[n - 1] == a.subrange(0, n as int)[n - 1]);
        assert(b[n - 1] == b.subrange(0, n as int)[n - 1]);
    }
}

impl PaintDom {
    /// Paints the laid-out tree: depth first from the root in declaration
    /// order, each coloured box filled within its clip. A subtree that
    /// opened a layer is painted after everything painted before it is
    /// done, so that later layers lie on top: the calls are the fills of
    /// the layers' walks, the root's first, then each layer in the order the
    /// walks met it.
    pub fn paint_all(&mut self, dom: &Dom, layout: &LayoutDom)
        requires
            dom.wf(),
            layout.wf(),
            calls_fill_boxes(old(self).calls@, *dom, *layout),
        ensures
            calls_fill_boxes(final(self).calls@, *dom, *layout),
            old(self).calls@.is_prefix_of(final(self).calls@),
            exists|ls: Seq<Handle>|
                #[trigger] layer_order(dom@, layout@, dom.root, ls, dom@.len()) && fills(
                    final(self).calls@.subrange(old(self).calls@.len() as int, final(self).calls@.len() as int),
                    layer_walks(dom@, layout@, ls, dom@.len(), ls.len()).0,
                    *dom,
                    *layout,
                ),
            final(self).textures@ == old(self).textures@,
            final(self).prev_textures@ == old(self).prev_textures@,
            final(self).texture_edits@ == old(self).texture_edits@,
    {
        let budget = dom.len();
        let ghost c0 = self.calls@.len();
        let ghost root = dom.root;
        let mut layers: Vec<Handle> = Vec::new();
        layers.push(dom.root());
        proof {
            vstd::set_lib::lemma_len_subset(set![dom.root], dom@.dom());
            assert(set![dom.root].len() == 1);
            assert(self.calls@.subrange(c0 as int, c0 as int) =~= Seq::<PaintCall>::empty());
            assert(layers@ =~= seq![root] + layer_walks(dom@, layout@, layers@.subrange(0, 0), budget as nat, 0).1);
            assert(self.calls@.subrange(0, c0 as int) =~= self.calls@);
        }
        let mut i: usize = 0;
        while i < layers.len() && i < budget
            invariant
                dom.wf(),
                layout.wf(),
                root == dom.root,
                budget == dom@.len(),
                budget >= 1,
                layers@.len() >= 1,
                layers@[0] == root,
                i <= layers@.len(),
                layers@ == seq![root] + layer_walks(dom@, layout@, layers@.subrange(0, i as int), budget as nat, i as nat).1,
                calls_fill_boxes(self.calls@, *dom, *layout),
                old(self).calls@.is_prefix_of(self.calls@),
                c0 == old(self).calls@.len(),
                c0 <= self.calls@.len(),
                fills(
                    self.calls@.subrange(c0 as int, self.calls@.len() as int),
                    layer_walks(dom@, layout@, layers@.subrange(0, i as int), budget as nat, i as nat).0,
                    *dom,
                    *layout,
                ),
                self.textures@ == old(self).textures@,
                self.prev_textures@ == old(self).prev_textures@,
                self.texture_edits@ == old(self).texture_edits@,
            decreases budget - i,
        {
            let id = layers[i];
            let ghost before = self.calls@;
            let ghost lb = layers@;
            self.paint_subtree(dom, layout, id, budget as u64, true, &mut layers);
            proof {
                let ls = lb.subrange(0, i as int);
                let ls1 = layers@.subrange(0, i + 1);
                let w = walk(dom@, layout@, id, budget as nat, true);
                assert(ls1.subrange(0, i as int) =~= ls);
                assert(ls.subrange(0, i as int) =~= ls);
                lemma_layer_walks_prefix(dom@, layout@, ls1, ls, budget as nat, i as nat);
                assert(ls1[i as int] == id);
                let lw = layer_walks(dom@, layout@, ls, budget as nat, i as nat);
                assert(layer_walks(dom@, layout@, ls1, budget as nat, (i + 1) as nat) == (lw.0 + w.0, lw.1 + w.1));
                assert(layers@ =~= seq![root] + (lw.1 + w.1));
                let mid = before.len();
                assert(before.is_prefix_of(self.calls@));
                let sub1 = before.subrange(c0 as int, mid as int);
                let sub2 = self.calls@.subrange(mid as int, self.calls@.len() as int);
                assert(sub1 =~= self.calls@.subrange(c0 as int, mid as int));
                assert(self.calls@.subrange(c0 as int, self.calls@.len() as int) =~= sub1 + sub2);
                lemma_fills_concat(sub1, lw.0, sub2, w.0, *dom, *layout);
                assert(old(self).calls@.is_prefix_of(self.calls@)) by {
                    assert(self.calls@.subrange(0, c0 as int) =~= before.subrange(0, c0 as int));
                }
                assert(layers@[0] == lb[0]);
            }
            i = i + 1;
        }
        proof {
            let ls = layers@.subrange(0, i as int);
            assert(i >= 1);
            assert(ls[0] == root);
            assert(ls.is_prefix_of(layers@)) by {
                assert(layers@.subrange(0, i as int) =~= ls);
            }
            assert(layer_order(dom@, layout@, root, ls, budget as nat));
        }
    }

    fn paint_subtree(
        &mut self,
        dom: &Dom,
        layout: &LayoutDom,
        id: Handle,
        fuel: u64,
        layer_start: bool,
        layers: &mut Vec<Handle>,
    )
        requires
            dom.wf(),
            layout.wf(),
            calls_fill_boxes(old(self).calls@, *dom, *layout),
        ensures
            calls_fill_boxes(final(self).calls@, *dom, *layout),
            old(self).calls@.is_prefix_of(final(self).calls@),
            fills(
                final(self).calls@.subrange(old(self).calls@.len() as int, final(self).calls@.len() as int),
                walk(dom@, layout@, id, fuel as nat, layer_start).0,
                *dom,
                *layout,
            ),
            final(layers)@ == old(layers)@ + walk(dom@, layout@, id, fuel as nat, layer_start).1,
            final(self).textures@ == old(self).textures@,
            final(self).prev_textures@ == old(self).prev_textures@,
            final(self).texture_edits@ == old(self).texture_edits@,
        decreases fuel,
    {
        let ghost c0 = self.calls@.len();
        let ghost l0 = layers@;
        proof {
            assert(self.calls@.subrange(c0 as int, c0 as int) =~= Seq::<PaintCall>::empty());
            assert(l0 + Seq::<Handle>::empty() =~= l0);
            assert(self.calls@.subrange(0, c0 as int) =~= self.calls@);
        }
        if fuel == 0 {
            return ;
        }
        let n = match layout.get(id) {
            Some(n) => n,
            None => {
                return ;
            },
        };
        let dn = match dom.get(id) {
            Some(d) => d,
            None => {
                return ;
            },
        };
        if n.new_layer && !layer_start {
            layers.push(id);
            proof {
                assert(layers@ =~= l0 + seq![id]);
            }
            return ;
        }
        let ghost own: Seq<Handle> = if dn.widget is ColoredBox {
            seq![id]
        } else {
            Seq::empty()
        };
        if let WidgetKind::ColoredBox { size: _, color } = dn.widget {
            let call = fill_call(n, color, layout.viewport());
            let ghost before = self.calls@;
            self.calls.push(call);
            proof {
                assert forall|k: int| 0 <= k < self.calls@.len() implies exists|h: Handle|
                    #![trigger dom@[h], layout@[h]]
                    dom@.contains_key(h) && layout@.contains_key(h) && (dom@[h].widget matches WidgetKind::ColoredBox {
                        size: _,
                        color,
                    } && is_fill_of(#[trigger] self.calls@[k], layout@[h], color, layout.spec_viewport())) by {
                    if k < before.len() {
                        assert(self.calls@[k] == before[k]);
                    } else {
                        assert(dom@[id].widget == dn.widget);
                        assert(layout@[id] == *n);
                    }
                }
            }
        }
        proof {
            assert(self.calls@.subrange(0, c0 as int) =~= old(self).calls@);
            assert(fills(self.calls@.subrange(c0 as int, self.calls@.len() as int), own, *dom, *layout)) by {
                if dn.widget is ColoredBox {
                    assert(self.calls@.subrange(c0 as int, self.calls@.len() as int)[0] == self.calls@[c0 as int]);
                    assert(dom@[id].widget == dn.widget);
                    assert(layout@[id] == *n);
                    assert(fill_at(self.calls@.subrange(c0 as int, self.calls@.len() as int), own, *dom, *layout, 0));
                }
            }
            assert(layers@ =~= l0 + walk_list(dom@, layout@, dn.children@, (fuel - 1) as nat, 0).1);
            assert(own + walk_list(dom@, layout@, dn.children@, (fuel - 1) as nat, 0).0 =~= own);
        }
        let mut j: usize = 0;
        while j < dn.children.len()
            invariant
                fuel > 0,
                dom.wf(),
                layout.wf(),
                dom@.contains_key(id),
                *dn == dom@[id],
                j <= dn.children@.len(),
                c0 <= self.calls@.len(),
                calls_fill_boxes(self.calls@, *dom, *layout),
                old(self).calls@.is_prefix_of(self.calls@),
                c0 == old(self).calls@.len(),
                fills(
                    self.calls@.subrange(c0 as int, self.calls@.len() as int),
                    own + walk_list(dom@, layout@, dn.children@, (fuel - 1) as nat, j as nat).0,
                    *dom,
                    *layout,
                ),
                layers@ == l0 + walk_list(dom@, layout@, dn.children@, (fuel - 1) as nat, j as nat).1,
                self.textures@ == old(self).textures@,
                self.prev_textures@ == old(self).prev_textures@,
                self.texture_edits@ == old(self).texture_edits@,
            decreases dn.children@.len() - j,
        {
            let ghost before = self.calls@;
            let c = dn.children[j];
            self.paint_subtree(dom, layout, c, fuel - 1, false, layers);
            proof {
                let cs = dn.children@;
                let f = (fuel - 1) as nat;
                let prev = walk_list(dom@, layout@, cs, f, j as nat);
                let w = walk(dom@, layout@, c, f, false);
                assert(cs[j as int] == c);
                assert(walk_list(dom@, layout@, cs, f, (j + 1) as nat) == (prev.0 + w.0, prev.1 + w.1));
                assert(layers@ =~= l0 + walk_list(dom@, layout@, cs, f, (j + 1) as nat).1);
                let mid = before.len();
                let all = self.calls@.subrange(c0 as int, self.calls@.len() as int);
                let target = own + walk_list(dom@, layout@, cs, f, (j + 1) as nat).0;
                assert(target =~= (own + prev.0) + w.0);
                assert(before.is_prefix_of(self.calls@));
                let sub1 = before.subrange(c0 as int, mid as int);
                let sub2 = self.calls@.subrange(mid as int, self.calls@.len() as int);
                assert(sub1 =~= self.calls@.subrange(c0 as int, mid as int));
                assert(all =~= sub1 + sub2);
                lemma_fills_concat(sub1, own + prev.0, sub2, w.0, *dom, *layout);
                assert(old(self).calls@.is_prefix_of(self.calls@)) by {
                    assert(self.calls@.subrange(0, c0 as int) =~= before.subrange(0, c0 as int));
                }
            }
            j = j + 1;
        }
        proof {
            assert(walk(dom@, layout@, id, fuel as nat, layer_start) == (
                own + walk_list(dom@, layout@, dn.children@, (fuel - 1) as nat, dn.children@.len() as nat).0,
                walk_list(dom@, layout@, dn.children@, (fuel - 1) as nat, dn.children@.len() as nat).1,
            ));
        }
    }
}

} // verus!
