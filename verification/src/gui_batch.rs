//! Batching of the gui sprites of the engine.
//!
//! Each gui holds sprites in drawing order. Consecutive sprites of the same
//! kind are drawn by one batch; each sprite is a quad of four vertices and
//! six indices.

use vstd::prelude::*;

verus! {

/// What a sprite is drawn from: a glyph of a font or an image.
#[derive(Copy, Clone, PartialEq, Eq, Structural, Debug)]
pub enum GuiSpriteType {
    Font(u64),
    Image(u64),
}

/// A sprite of a gui as batching sees it: its kind and the image view it
/// samples.
#[derive(Copy, Clone, PartialEq, Eq, Structural, Debug)]
pub struct GuiViewSprite {
    pub image_view: u64,
    pub ty: GuiSpriteType,
}

/// The sprites of one gui.
pub struct GuiView {
    pub sprites: Vec<GuiViewSprite>,
    pub id: u32,
    pub visible: bool,
}

/// A group of sprites drawn together: the sprites `start..stop` of the gui
/// at `gui`, of kind `ty`, drawn with `set`.
#[derive(Copy, Clone, PartialEq, Eq, Structural, Debug)]
pub struct GuiGroup {
    pub ty: GuiSpriteType,
    pub set: u64,
    pub gui: usize,
    pub start: usize,
    pub stop: usize,
}

/// One draw call of the gui.
#[derive(Copy, Clone, PartialEq, Eq, Structural, Debug)]
pub struct GuiBatch {
    pub pipeline: u64,
    pub set: u64,
    pub index_count: u32,
    pub first_index: u32,
}

/// The first gui, from `g` on, that is visible and has sprites; the number
/// of guis when there is none.
pub open spec fn first_sprite_gui(views: Seq<GuiView>, g: int) -> int
    decreases views.len() - g,
{
    if g < 0 || g >= views.len() {
        views.len() as int
    } else if views[g].visible && views[g].sprites@.len() > 0 {
        g
    } else {
        first_sprite_gui(views, g + 1)
    }
}

proof fn lemma_first_sprite_gui(views: Seq<GuiView>, g: int)
    requires
        0 <= g <= views.len(),
    ensures
        g <= first_sprite_gui(views, g) <= views.len(),
        first_sprite_gui(views, g) < views.len() ==> views[first_sprite_gui(views, g)].visible
            && views[first_sprite_gui(views, g)].sprites@.len() > 0,
        forall|j: int|
            g <= j < first_sprite_gui(views, g) ==> !(#[trigger] views[j].visible && views[j].sprites@.len() > 0),
    decreases views.len() - g,
{
    if g < views.len() && !(views[g].visible && views[g].sprites@.len() > 0) {
        lemma_first_sprite_gui(views, g + 1);
    }
}

/// The first gui that is visible and has sprites, and the kind of its first
/// sprite; the number of guis and `None` when there is none.
pub fn find_first_sprite_type(gui: &[GuiView]) -> (r: (Option<GuiSpriteType>, usize))
    ensures
        r.1 == first_sprite_gui(gui@, 0),
        r.1 < gui@.len() ==> r.0 == Some(gui@[r.1 as int].sprites@[0].ty),
        r.1 == gui@.len() ==> r.0 is None,
{
    proof {
        lemma_first_sprite_gui(gui@, 0);
    }
    let mut gui_index: usize = 0;
    while gui_index < gui.len()
        invariant
            gui_index <= gui@.len(),
            first_sprite_gui(gui@, gui_index as int) == first_sprite_gui(gui@, 0),
        decreases gui@.len() - gui_index,
    {
        if gui[gui_index].visible && gui[gui_index].sprites.len() > 0 {
            return (Some(gui[gui_index].sprites[0].ty), gui_index);
        }
        gui_index = gui_index + 1;
    }
    (None, gui_index)
}

/// The end of the run of sprites of the kind of sprite `s`, starting at `s`.
pub open spec fn run_end(sprites: Seq<GuiViewSprite>, s: int) -> int
    decreases sprites.len() - s,
{
    if s < 0 || s + 1 >= sprites.len() {
        sprites.len() as int
    } else if sprites[s + 1].ty != sprites[s].ty {
        s + 1
    } else {
        run_end(sprites, s + 1)
    }
}

/// A run ends after its start, at the first sprite of another kind.
pub proof fn lemma_run_end(sprites: Seq<GuiViewSprite>, s: int, e: int)
    requires
        0 <= s < e <= sprites.len(),
        forall|j: int| s <= j < e ==> #[trigger] sprites[j].ty == sprites[s].ty,
        e == sprites.len() || sprites[e].ty != sprites[s].ty,
    ensures
        run_end(sprites, s) == e,
    decreases e - s,
{
    if s + 1 < e {
        lemma_run_end(sprites, s + 1, e);
    }
}

/// A run holds at least its first sprite.
pub proof fn lemma_run_end_bounds(sprites: Seq<GuiViewSprite>, s: int)
    requires
        0 <= s < sprites.len(),
    ensures
        s < run_end(sprites, s) <= sprites.len(),
    decreases sprites.len() - s,
{
    if s + 1 < sprites.len() && sprites[s + 1].ty == sprites[s].ty {
        lemma_run_end_bounds(sprites, s + 1);
    }
}

/// The groups of the sprites of gui `g` from sprite `s` on, the previous
/// group being of kind `cur`. Every run of sprites of one kind is a group;
/// a run of another kind than the previous group is preceded by an empty
/// group of its kind.
pub open spec fn gui_groups_in(g: int, sprites: Seq<GuiViewSprite>, s: int, cur: GuiSpriteType) -> Seq<GuiGroup>
    decreases sprites.len() - s,
{
    if s < 0 || s >= sprites.len() {
        Seq::empty()
    } else {
        let ty = sprites[s].ty;
        let set = sprites[s].image_view;
        let e = run_end(sprites, s);
        proof {
            lemma_run_end_bounds(sprites, s);
        }
        let full = GuiGroup { ty, set, gui: g as usize, start: s as usize, stop: e as usize };
        let head = if ty == cur {
            seq![full]
        } else {
            seq![GuiGroup { ty, set, gui: g as usize, start: s as usize, stop: s as usize }, full]
        };
        head + gui_groups_in(g, sprites, e, ty)
    }
}

/// The kind of the last group after the sprites `sprites`, the previous
/// group being of kind `cur`.
pub open spec fn last_type(sprites: Seq<GuiViewSprite>, cur: GuiSpriteType) -> GuiSpriteType {
    if sprites.len() == 0 {
        cur
    } else {
        sprites.last().ty
    }
}

/// The groups of the guis from `g` on, the previous group being of kind
/// `cur`. Hidden guis are skipped.
pub open spec fn gui_groups_from(views: Seq<GuiView>, g: int, cur: GuiSpriteType) -> Seq<GuiGroup>
    decreases views.len() - g,
{
    if g < 0 || g >= views.len() {
        Seq::empty()
    } else if !views[g].visible {
        gui_groups_from(views, g + 1, cur)
    } else {
        gui_groups_in(g, views[g].sprites@, 0, cur) + gui_groups_from(
            views,
            g + 1,
            last_type(views[g].sprites@, cur),
        )
    }
}

/// The groups of sprites of the guis, starting at the first visible gui
/// with sprites.
pub open spec fn gui_groups(views: Seq<GuiView>) -> Seq<GuiGroup> {
    let first = first_sprite_gui(views, 0);
    if first >= views.len() {
        Seq::empty()
    } else {
        gui_groups_from(views, first, views[first].sprites@[0].ty)
    }
}

/// Every visible gui after the first one with sprites has sprites.
pub open spec fn visible_guis_have_sprites(views: Seq<GuiView>) -> bool {
    forall|g: int|
        first_sprite_gui(views, 0) <= g < views.len() && #[trigger] views[g].visible ==> views[g].sprites@.len()
            > 0
}

/// Splits the sprites of the visible guis in groups drawn together.
pub fn groups(gui: &[GuiView]) -> (r: Vec<GuiGroup>)
    requires
        visible_guis_have_sprites(gui@),
    ensures
        r@ == gui_groups(gui@),
        forall|k: int| 0 <= k < r@.len() ==> (#[trigger] r@[k]).start <= r@[k].stop,
{
    let ghost views = gui@;
    let (first, first_index) = find_first_sprite_type(gui);
    let mut out: Vec<GuiGroup> = Vec::new();
    let mut cur = match first {
        Some(ty) => ty,
        None => {
            return out;
        },
    };
    proof {
        lemma_first_sprite_gui(views, 0);
    }
    let ghost total = gui_groups(views);
    let mut g: usize = first_index;
    while g < gui.len()
        invariant
            views == gui@,
            visible_guis_have_sprites(views),
            first_sprite_gui(views, 0) <= g <= views.len(),
            out@ + gui_groups_from(views, g as int, cur) == total,
            forall|k: int| 0 <= k < out@.len() ==> (#[trigger] out@[k]).start <= out@[k].stop,
        decreases views.len() - g,
    {
        if !gui[g].visible {
            g = g + 1;
        } else {
            let sprites = &gui[g].sprites;
            let ghost sp = sprites@;
            let ghost rest = gui_groups_from(views, g + 1, last_type(sp, cur));
            proof {
                assert(sp.len() > 0);
            }
            let mut s: usize = 0;
            while s < sprites.len()
                invariant
                    sp == sprites@,
                    sp.len() > 0,
                    s <= sp.len(),
                    s > 0 ==> cur == sp[s - 1].ty,
                    s == 0 ==> rest == gui_groups_from(views, g + 1, last_type(sp, cur)),
                    s > 0 ==> rest == gui_groups_from(views, g + 1, sp.last().ty),
                    out@ + gui_groups_in(g as int, sp, s as int, cur) + rest == total,
                    forall|k: int| 0 <= k < out@.len() ==> (#[trigger] out@[k]).start <= out@[k].stop,
                decreases sp.len() - s,
            {
                let ty = sprites[s].ty;
                let set = sprites[s].image_view;
                let mut e: usize = s + 1;
                while e < sprites.len() && sprites[e].ty == ty
                    invariant
                        sp == sprites@,
                        s < e <= sp.len(),
                        ty == sp[s as int].ty,
                        forall|j: int| s <= j < e ==> #[trigger] sp[j].ty == ty,
                    decreases sp.len() - e,
                {
                    e = e + 1;
                }
                proof {
                    lemma_run_end(sp, s as int, e as int);
                    let full = GuiGroup { ty, set, gui: g, start: s, stop: e };
                    let head = if ty == cur {
                        seq![full]
                    } else {
                        seq![GuiGroup { ty, set, gui: g, start: s, stop: s }, full]
                    };
                    assert(gui_groups_in(g as int, sp, s as int, cur) == head + gui_groups_in(
                        g as int,
                        sp,
                        e as int,
                        ty,
                    ));
                    if e == sp.len() {
                        assert(sp.last().ty == ty);
                    }
                }
                let ghost out_before = out@;
                if ty != cur {
                    out.push(GuiGroup { ty, set, gui: g, start: s, stop: s });
                }
                out.push(GuiGroup { ty, set, gui: g, start: s, stop: e });
                proof {
                    let full = GuiGroup { ty, set, gui: g, start: s, stop: e };
                    let head = if ty == cur {
                        seq![full]
                    } else {
                        seq![GuiGroup { ty, set, gui: g, start: s, stop: s }, full]
                    };
                    assert(out@ =~= out_before + head);
                    let tail = gui_groups_in(g as int, sp, e as int, ty);
                    assert(out_before + (head + tail) + rest =~= out@ + tail + rest);
                }
                cur = ty;
                s = e;
            }
            g = g + 1;
        }
    }
    out
}


/// Number of sprites of the group `gr`.
pub open spec fn group_size(gr: GuiGroup) -> int {
    gr.stop - gr.start
}

/// Number of sprites of the first `k` groups.
pub open spec fn sprites_before(groups: Seq<GuiGroup>, k: int) -> int
    decreases k,
{
    if k <= 0 {
        0
    } else {
        sprites_before(groups, k - 1) + group_size(groups[k - 1])
    }
}

/// Every group holds its sprites in order.
pub open spec fn groups_ordered(groups: Seq<GuiGroup>) -> bool {
    forall|k: int| 0 <= k < groups.len() ==> (#[trigger] groups[k]).start <= groups[k].stop
}

proof fn lemma_sprites_before_monotonic(groups: Seq<GuiGroup>, j: int, k: int)
    requires
        groups_ordered(groups),
        0 <= j <= k <= groups.len(),
    ensures
        0 <= sprites_before(groups, j) <= sprites_before(groups, k),
    decreases k,
{
    if k > 0 {
        if j < k {
            lemma_sprites_before_monotonic(groups, j, k - 1);
        } else {
            lemma_sprites_before_monotonic(groups, 0, k - 1);
        }
        assert(groups[k - 1].start <= groups[k - 1].stop);
    }
}

/// Number of sprites of the visible guis from gui `g` on.
pub open spec fn visible_sprites_from(views: Seq<GuiView>, g: int) -> int
    decreases views.len() - g,
{
    if g < 0 || g >= views.len() {
        0
    } else if !views[g].visible {
        visible_sprites_from(views, g + 1)
    } else {
        views[g].sprites@.len() + visible_sprites_from(views, g + 1)
    }
}

/// The sprites of groups following each other add up.
proof fn lemma_sprites_before_concat(a: Seq<GuiGroup>, b: Seq<GuiGroup>, k: int)
    requires
        0 <= k <= b.len(),
    ensures
        sprites_before(a + b, a.len() + k) == sprites_before(a, a.len() as int) + sprites_before(b, k),
    decreases k,
{
    if k == 0 {
        lemma_sprites_before_prefix(a, b, a.len() as int);
    } else {
        lemma_sprites_before_concat(a, b, k - 1);
        assert((a + b)[a.len() + k - 1] == b[k - 1]);
    }
}

proof fn lemma_sprites_before_prefix(a: Seq<GuiGroup>, b: Seq<GuiGroup>, k: int)
    requires
        0 <= k <= a.len(),
    ensures
        sprites_before(a + b, k) == sprites_before(a, k),
    decreases k,
{
    if k > 0 {
        lemma_sprites_before_prefix(a, b, k - 1);
        assert((a + b)[k - 1] == a[k - 1]);
    }
}

/// The groups of a gui hold each of its sprites from `s` on once.
proof fn lemma_groups_in_cover(g: int, sprites: Seq<GuiViewSprite>, s: int, cur: GuiSpriteType)
    requires
        0 <= s <= sprites.len(),
        sprites.len() <= usize::MAX,
    ensures
        sprites_before(gui_groups_in(g, sprites, s, cur), gui_groups_in(g, sprites, s, cur).len() as int)
            == sprites.len() - s,
    decreases sprites.len() - s,
{
    if s < sprites.len() {
        let ty = sprites[s].ty;
        let set = sprites[s].image_view;
        let e = run_end(sprites, s);
        lemma_run_end_bounds(sprites, s);
        let full = GuiGroup { ty, set, gui: g as usize, start: s as usize, stop: e as usize };
        let head = if ty == cur {
            seq![full]
        } else {
            seq![GuiGroup { ty, set, gui: g as usize, start: s as usize, stop: s as usize }, full]
        };
        let tail = gui_groups_in(g, sprites, e, ty);
        lemma_groups_in_cover(g, sprites, e, ty);
        lemma_sprites_before_concat(head, tail, tail.len() as int);
        assert(sprites_before(head, 0) == 0);
        if ty == cur {
            assert(sprites_before(head, 1) == e - s);
        } else {
            assert(sprites_before(head, 1) == 0);
            assert(sprites_before(head, 2) == e - s);
        }
    }
}

/// The groups of the guis from `g` on hold each sprite of the visible guis
/// once.
proof fn lemma_groups_from_cover(views: Seq<GuiView>, g: int, cur: GuiSpriteType)
    requires
        0 <= g <= views.len(),
    ensures
        sprites_before(gui_groups_from(views, g, cur), gui_groups_from(views, g, cur).len() as int)
            == visible_sprites_from(views, g),
    decreases views.len() - g,
{
    if g < views.len() {
        if !views[g].visible {
            lemma_groups_from_cover(views, g + 1, cur);
        } else {
            let sp = views[g].sprites@;
            assert(views[g].sprites.len() == sp.len());
            let a = gui_groups_in(g, sp, 0, cur);
            let b = gui_groups_from(views, g + 1, last_type(sp, cur));
            lemma_groups_in_cover(g, sp, 0, cur);
            lemma_groups_from_cover(views, g + 1, last_type(sp, cur));
            lemma_sprites_before_concat(a, b, b.len() as int);
        }
    }
}

/// The guis before `g` hold no visible sprite.
proof fn lemma_visible_sprites_skip(views: Seq<GuiView>, g: int, first: int)
    requires
        0 <= g <= first <= views.len(),
        forall|j: int| g <= j < first ==> !(#[trigger] views[j].visible && views[j].sprites@.len() > 0),
    ensures
        visible_sprites_from(views, g) == visible_sprites_from(views, first),
    decreases first - g,
{
    if g < first {
        lemma_visible_sprites_skip(views, g + 1, first);
        assert(!(views[g].visible && views[g].sprites@.len() > 0));
    }
}

/// Every sprite of the visible guis is drawn once: the groups hold as many
/// sprites as the visible guis, so the batches draw that many quads.
pub proof fn lemma_groups_cover_sprites(views: Seq<GuiView>)
    ensures
        sprites_before(gui_groups(views), gui_groups(views).len() as int) == visible_sprites_from(views, 0),
{
    lemma_first_sprite_gui(views, 0);
    let first = first_sprite_gui(views, 0);
    lemma_visible_sprites_skip(views, 0, first);
    if first < views.len() {
        lemma_groups_from_cover(views, first, views[first].sprites@[0].ty);
    }
}

/// The pipeline that draws sprites of kind `ty`.
pub open spec fn pipeline_for(ty: GuiSpriteType, text_pipeline: u64, image_pipeline: u64) -> u64 {
    match ty {
        GuiSpriteType::Font(_) => text_pipeline,
        GuiSpriteType::Image(_) => image_pipeline,
    }
}

/// The batch of the group `k`: its sprites' indices follow those of the
/// groups before it.
pub open spec fn batch_of(groups: Seq<GuiGroup>, k: int, text_pipeline: u64, image_pipeline: u64) -> GuiBatch {
    GuiBatch {
        pipeline: pipeline_for(groups[k].ty, text_pipeline, image_pipeline),
        set: groups[k].set,
        first_index: (6 * sprites_before(groups, k)) as u32,
        index_count: (6 * group_size(groups[k])) as u32,
    }
}

/// The index of corner `j` of a quad among the six indices of its two
/// triangles.
pub open spec fn quad_corner(j: int) -> int {
    if j == 0 {
        0
    } else if j == 1 {
        1
    } else if j == 2 {
        2
    } else if j == 3 {
        2
    } else if j == 4 {
        3
    } else {
        1
    }
}

/// Writes the indices of `sprite_count` quads at `first` in `indices`, the
/// vertices of the quads starting at vertex `vertex_first`.
pub fn generate_indices(indices: &mut Vec<u32>, first: usize, vertex_first: u32, sprite_count: usize)
    requires
        first + 6 * sprite_count < old(indices)@.len(),
        vertex_first + 4 * sprite_count <= u32::MAX,
    ensures
        final(indices)@.len() == old(indices)@.len(),
        forall|p: int, j: int|
            #![trigger final(indices)@[first + 6 * p + j]]
            0 <= p < sprite_count && 0 <= j < 6 ==> final(indices)@[first + 6 * p + j] == vertex_first + 4 * p
                + quad_corner(j),
        forall|i: int|
            0 <= i < old(indices)@.len() && !(first <= i < first + 6 * sprite_count) ==> #[trigger] final(indices)@[i] == old(indices)@[i],
{
    let len = indices.len();
    let mut i = first;
    let mut v = vertex_first;
    let mut n: usize = 0;
    while n < sprite_count
        invariant
            len == old(indices)@.len(),
            first + 6 * sprite_count < old(indices)@.len(),
            vertex_first + 4 * sprite_count <= u32::MAX,
            n <= sprite_count,
            i == first + 6 * n,
            v == vertex_first + 4 * n,
            indices@.len() == old(indices)@.len(),
            forall|p: int, j: int|
                #![trigger indices@[first + 6 * p + j]]
                0 <= p < n && 0 <= j < 6 ==> indices@[first + 6 * p + j] == vertex_first + 4 * p + quad_corner(j),
            forall|k: int|
                0 <= k < old(indices)@.len() && !(first <= k < first + 6 * n) ==> #[trigger] indices@[k] == old(indices)@[k],
        decreases sprite_count - n,
    {
        indices.set(i, v);
        indices.set(i + 1, v + 1);
        indices.set(i + 2, v + 2);
        indices.set(i + 3, v + 2);
        indices.set(i + 4, v + 3);
        indices.set(i + 5, v + 1);
        proof {
            assert forall|p: int, j: int|
                #![trigger indices@[first + 6 * p + j]]
                0 <= p < n + 1 && 0 <= j < 6 implies indices@[first + 6 * p + j] == vertex_first + 4 * p
                    + quad_corner(j) by {
                if p == n {
                    assert(first + 6 * p + j == i + j);
                } else {
                    assert(first + 6 * p + j < i);
                }
            }
        }
        i = i + 6;
        v = v + 4;
        n = n + 1;
    }
}

/// The batches of the groups: one per group, drawn by the text pipeline
/// for glyphs and the image pipeline for images.
pub fn build_batches(groups: &[GuiGroup], text_pipeline: u64, image_pipeline: u64) -> (r: Vec<GuiBatch>)
    requires
        groups_ordered(groups@),
        6 * sprites_before(groups@, groups@.len() as int) <= u32::MAX,
    ensures
        r@.len() == groups@.len(),
        forall|k: int| 0 <= k < r@.len() ==> #[trigger] r@[k] == batch_of(groups@, k, text_pipeline, image_pipeline),
{
    let mut batches: Vec<GuiBatch> = Vec::new();
    let mut index_count: u32 = 0;
    let mut k: usize = 0;
    while k < groups.len()
        invariant
            groups_ordered(groups@),
            6 * sprites_before(groups@, groups@.len() as int) <= u32::MAX,
            k <= groups@.len(),
            batches@.len() == k,
            index_count == 6 * sprites_before(groups@, k as int),
            forall|j: int| 0 <= j < k ==> #[trigger] batches@[j] == batch_of(groups@, j, text_pipeline, image_pipeline),
        decreases groups@.len() - k,
    {
        let group = groups[k];
        proof {
            lemma_sprites_before_monotonic(groups@, k + 1, groups@.len() as int);
            assert(group.start <= group.stop);
        }
        let count = ((group.stop - group.start) * 6) as u32;
        let pipeline = match group.ty {
            GuiSpriteType::Font(_) => text_pipeline,
            GuiSpriteType::Image(_) => image_pipeline,
        };
        batches.push(GuiBatch { pipeline, set: group.set, first_index: index_count, index_count: count });
        index_count = index_count + count;
        k = k + 1;
    }
    batches
}

/// The batches and the indices of the guis: groups the sprites, gives each
/// group its batch and writes the indices of every sprite in order, at the
/// start of `indices`. Returns the groups, the batches, the number of
/// indices and the number of vertices written.
pub fn build(gui: &[GuiView], text_pipeline: u64, image_pipeline: u64, indices: &mut Vec<u32>) -> (r: (
    Vec<GuiGroup>,
    Vec<GuiBatch>,
    usize,
    u32,
))
    requires
        visible_guis_have_sprites(gui@),
        6 * sprites_before(gui_groups(gui@), gui_groups(gui@).len() as int) < old(indices)@.len(),
        6 * sprites_before(gui_groups(gui@), gui_groups(gui@).len() as int) <= u32::MAX,
    ensures
        ({
            let groups = gui_groups(gui@);
            let total = sprites_before(groups, groups.len() as int);
            &&& r.0@ == groups
            &&& r.1@.len() == groups.len()
            &&& forall|k: int| 0 <= k < groups.len() ==> #[trigger] r.1@[k] == batch_of(groups, k, text_pipeline, image_pipeline)
            &&& r.2 == 6 * total
            &&& r.3 == 4 * total
            &&& final(indices)@.len() == old(indices)@.len()
            &&& forall|p: int, j: int|
                #![trigger final(indices)@[6 * p + j]]
                0 <= p < total && 0 <= j < 6 ==> final(indices)@[6 * p + j] == 4 * p + quad_corner(j)
            &&& forall|i: int| 6 * total <= i < old(indices)@.len() ==> #[trigger] final(indices)@[i] == old(indices)@[i]
        }),
{
    let groups = groups(gui);
    let ghost gs = groups@;
    let batches = build_batches(&groups, text_pipeline, image_pipeline);
    let mut index_count: usize = 0;
    let mut vertex_count: u32 = 0;
    let mut k: usize = 0;
    while k < groups.len()
        invariant
            gs == groups@,
            gs == gui_groups(gui@),
            groups_ordered(gs),
            6 * sprites_before(gs, gs.len() as int) < old(indices)@.len(),
            6 * sprites_before(gs, gs.len() as int) <= u32::MAX,
            k <= gs.len(),
            index_count == 6 * sprites_before(gs, k as int),
            vertex_count == 4 * sprites_before(gs, k as int),
            indices@.len() == old(indices)@.len(),
            forall|p: int, j: int|
                #![trigger indices@[6 * p + j]]
                0 <= p < sprites_before(gs, k as int) && 0 <= j < 6 ==> indices@[6 * p + j] == 4 * p + quad_corner(j),
            forall|i: int| 6 * sprites_before(gs, k as int) <= i < old(indices)@.len() ==> #[trigger] indices@[i] == old(indices)@[i],
        decreases gs.len() - k,
    {
        let group = groups[k];
        proof {
            lemma_sprites_before_monotonic(gs, k + 1, gs.len() as int);
            lemma_sprites_before_monotonic(gs, k as int, k + 1);
            assert(group.start <= group.stop);
        }
        let n = group.stop - group.start;
        let ghost before = indices@;
        let ghost base = sprites_before(gs, k as int);
        generate_indices(indices, index_count, vertex_count, n);
        proof {
            assert forall|p: int, j: int|
                #![trigger indices@[6 * p + j]]
                0 <= p < base + n && 0 <= j < 6 implies indices@[6 * p + j] == 4 * p + quad_corner(j) by {
                if p < base {
                    assert(6 * p + j < index_count);
                    assert(indices@[6 * p + j] == before[6 * p + j]);
                } else {
                    let q = p - base;
                    assert(6 * p + j == index_count + 6 * q + j);
                    assert(indices@[index_count + 6 * q + j] == vertex_count + 4 * q + quad_corner(j));
                }
            }
        }
        index_count = index_count + 6 * n;
        vertex_count = vertex_count + 4 * (n as u32);
        k = k + 1;
    }
    (groups, batches, index_count, vertex_count)
}


/// Errors of the gui updates.
#[derive(Copy, Clone, PartialEq, Eq, Structural, Debug)]
pub enum GuiError {
    /// There is no gui at this index.
    MissingGui(usize),
}

/// The guis known to the engine, and whether their batches are outdated.
pub struct GuiViews {
    pub gui: Vec<GuiView>,
    pub update_batches: bool,
}

/// The position of the first gui with `id`, if any.
pub open spec fn gui_position(views: Seq<GuiView>, id: u32) -> Option<int> {
    if exists|i: int| 0 <= i < views.len() && #[trigger] views[i].id == id {
        Some(choose|i: int| 0 <= i < views.len() && #[trigger] views[i].id == id && forall|j: int| 0 <= j < i ==> views[j].id != id)
    } else {
        None
    }
}

impl GuiViews {
    /// No gui yet.
    pub fn new() -> (v: Self)
        ensures
            v.gui@.len() == 0,
            !v.update_batches,
    {
        GuiViews { gui: Vec::new(), update_batches: false }
    }

    /// The index of the gui `id`, adding a visible gui without sprites at the
    /// end when there is none.
    pub fn gui_index_or_create(&mut self, id: u32) -> (index: usize)
        ensures
            final(self).update_batches == old(self).update_batches,
            index < final(self).gui@.len(),
            match gui_position(old(self).gui@, id) {
                Some(i) => index == i && final(self).gui@ == old(self).gui@,
                None => {
                    &&& index == old(self).gui@.len()
                    &&& final(self).gui@.len() == old(self).gui@.len() + 1
                    &&& final(self).gui@.take(index as int) == old(self).gui@
                    &&& final(self).gui@[index as int].id == id
                    &&& final(self).gui@[index as int].visible
                    &&& final(self).gui@[index as int].sprites@.len() == 0
                },
            },
    {
        let mut i: usize = 0;
        while i < self.gui.len()
            invariant
                i <= self.gui@.len(),
                self.gui@ == old(self).gui@,
                self.update_batches == old(self).update_batches,
                forall|j: int| 0 <= j < i ==> #[trigger] self.gui@[j].id != id,
            decreases self.gui@.len() - i,
        {
            if self.gui[i].id == id {
                proof {
                    let k = choose|k: int|
                        0 <= k < self.gui@.len() && #[trigger] self.gui@[k].id == id && forall|j: int|
                            0 <= j < k ==> self.gui@[j].id != id;
                    assert(k == i);
                }
                return i;
            }
            i = i + 1;
        }
        let index = self.gui.len();
        self.gui.push(GuiView { sprites: Vec::new(), id, visible: true });
        proof {
            assert(self.gui@.take(index as int) =~= old(self).gui@);
        }
        index
    }

    /// Shows or hides the gui at `index` and marks the batches as outdated.
    pub fn toggle_gui_visibility(&mut self, index: usize, visible: bool) -> (r: Result<(), GuiError>)
        ensures
            index >= old(self).gui@.len() ==> {
                &&& r == Err::<(), GuiError>(GuiError::MissingGui(index))
                &&& final(self).gui@ == old(self).gui@
                &&& final(self).update_batches == old(self).update_batches
            },
            index < old(self).gui@.len() ==> {
                &&& r is Ok
                &&& final(self).update_batches
                &&& final(self).gui@.len() == old(self).gui@.len()
                &&& forall|k: int| 0 <= k < old(self).gui@.len() && k != index ==> #[trigger] final(self).gui@[k] == old(self).gui@[k]
                &&& final(self).gui@[index as int].visible == visible
                &&& final(self).gui@[index as int].id == old(self).gui@[index as int].id
                &&& final(self).gui@[index as int].sprites@ == old(self).gui@[index as int].sprites@
            },
    {
        if index >= self.gui.len() {
            return Err(GuiError::MissingGui(index));
        }
        let mut view = GuiView { sprites: Vec::new(), id: 0, visible: false };
        let ghost before = self.gui@;
        self.gui.set_and_swap(index, &mut view);
        view.visible = visible;
        self.gui.set_and_swap(index, &mut view);
        proof {
            assert forall|k: int| 0 <= k < before.len() && k != index implies #[trigger] self.gui@[k] == before[k] by {}
        }
        self.update_batches = true;
        Ok(())
    }

    /// Replaces the sprites of the gui at `index` and marks the batches as
    /// outdated.
    pub fn set_gui_sprites(&mut self, index: usize, sprites: Vec<GuiViewSprite>) -> (r: Result<(), GuiError>)
        ensures
            index >= old(self).gui@.len() ==> {
                &&& r == Err::<(), GuiError>(GuiError::MissingGui(index))
                &&& final(self).gui@ == old(self).gui@
                &&& final(self).update_batches == old(self).update_batches
            },
            index < old(self).gui@.len() ==> {
                &&& r is Ok
                &&& final(self).update_batches
                &&& final(self).gui@.len() == old(self).gui@.len()
                &&& forall|k: int| 0 <= k < old(self).gui@.len() && k != index ==> #[trigger] final(self).gui@[k] == old(self).gui@[k]
                &&& final(self).gui@[index as int].visible == old(self).gui@[index as int].visible
                &&& final(self).gui@[index as int].id == old(self).gui@[index as int].id
                &&& final(self).gui@[index as int].sprites@ == sprites@
            },
    {
        if index >= self.gui.len() {
            return Err(GuiError::MissingGui(index));
        }
        let mut view = GuiView { sprites: Vec::new(), id: 0, visible: false };
        let ghost before = self.gui@;
        self.gui.set_and_swap(index, &mut view);
        view.sprites = sprites;
        self.gui.set_and_swap(index, &mut view);
        proof {
            assert forall|k: int| 0 <= k < before.len() && k != index implies #[trigger] self.gui@[k] == before[k] by {}
        }
        self.update_batches = true;
        Ok(())
    }
}

} // verus!
