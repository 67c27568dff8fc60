//! The structure of a gui as its builder records it: the layout items and
//! components in the order they are added, the callbacks of the labels,
//! and the tree of layouts, kept as a stack of the layouts that are open.
//! The sizes of the items and layouts are floating point values that the
//! caller keeps beside these, index for index.

use vstd::prelude::*;
use crate::gui_layout::{full_walk, layout_plan_of, lemma_pop_done, lemma_walk_add_item, pop_done};
use crate::gui_state::{
    click_output, GuiComponentBase, GuiComponentCallbacksValue, GuiComponentStyle, GuiLabelCallbackValues, GuiLayoutType,
    GuiStyleBuilder, IntoGuiCallback,
};

verus! {

/// The callbacks a label can have.
#[derive(Copy, Clone, PartialEq, Eq, Structural, Debug)]
pub enum GuiLabelCallback {
    Click,
}

/// A layout of the gui: how it places its children and how many it has.
#[derive(Copy, Clone, PartialEq, Eq, Structural, Debug)]
pub struct GuiLayoutNode {
    pub ty: GuiLayoutType,
    pub children_count: u32,
}

/// A component whose style is not known to the builder.
#[derive(Clone, Debug, PartialEq, Eq)]
pub enum GuiBuildError {
    MissingLabelStyle(String),
    MissingFrameStyle(String),
}

/// A layout of type `ty` without children.
pub open spec fn empty_layout(ty: GuiLayoutType) -> GuiLayoutNode {
    GuiLayoutNode { ty, children_count: 0 }
}

/// The stack of open layouts with one more child in the innermost one.
pub open spec fn add_child(stack: Seq<(usize, GuiLayoutNode)>) -> Seq<(usize, GuiLayoutNode)> {
    let last = stack.len() - 1;
    let top = stack[last];
    stack.update(
        last,
        (top.0, GuiLayoutNode { ty: top.1.ty, children_count: (top.1.children_count + 1) as u32 }),
    )
}

/// The callbacks a new label takes: those set last, if they are a
/// label's.
pub open spec fn taken_callbacks_index(last: GuiComponentCallbacksValue, callbacks_len: nat) -> u32 {
    match last {
        GuiComponentCallbacksValue::Label(_) => callbacks_len as u32,
        GuiComponentCallbacksValue::Empty => u32::MAX,
    }
}

/// The callbacks list after a new label took the last callbacks.
pub open spec fn callbacks_after_take(
    callbacks: Seq<GuiComponentCallbacksValue>,
    last: GuiComponentCallbacksValue,
) -> Seq<GuiComponentCallbacksValue> {
    match last {
        GuiComponentCallbacksValue::Label(_) => callbacks.push(last),
        GuiComponentCallbacksValue::Empty => callbacks,
    }
}

/// What a gui builder has recorded.
pub struct GuiBuilder {
    pub layouts: Vec<GuiLayoutNode>,
    pub layouts_stack: Vec<(usize, GuiLayoutNode)>,
    pub item_has_layout: Vec<bool>,
    pub component_base: Vec<GuiComponentBase>,
    pub callbacks: Vec<GuiComponentCallbacksValue>,
    pub last_callbacks: GuiComponentCallbacksValue,
    pub errors: Vec<GuiBuildError>,
    pub next_layout: GuiLayoutType,
    pub item_index: u32,
    /// The layout each component was added to, in order.
    pub parents: Ghost<Seq<int>>,
    /// No error was recorded since the builder was made.
    pub clean: Ghost<bool>,
}

/// The number of children of each layout.
pub open spec fn node_counts(layouts: Seq<GuiLayoutNode>) -> Seq<u32> {
    layouts.map_values(|n: GuiLayoutNode| n.children_count)
}

/// The numbers of children `counts` with those of the open layouts, which
/// the stack holds, in place.
pub open spec fn apply_stack(counts: Seq<u32>, stack: Seq<(usize, GuiLayoutNode)>) -> Seq<u32>
    decreases stack.len(),
{
    if stack.len() == 0 {
        counts
    } else {
        apply_stack(counts, stack.drop_last()).update(stack.last().0 as int, stack.last().1.children_count)
    }
}

/// The open layouts all are among the `len` layouts.
pub open spec fn stack_in(stack: Seq<(usize, GuiLayoutNode)>, len: int) -> bool {
    forall|k: int| 0 <= k < stack.len() ==> (#[trigger] stack[k]).0 < len
}

proof fn lemma_apply_stack_len(counts: Seq<u32>, stack: Seq<(usize, GuiLayoutNode)>)
    requires
        stack_in(stack, counts.len() as int),
    ensures
        apply_stack(counts, stack).len() == counts.len(),
    decreases stack.len(),
{
    if stack.len() > 0 {
        lemma_apply_stack_len(counts, stack.drop_last());
    }
}

/// One more child in the innermost open layout is one more child in the
/// numbers of children.
proof fn lemma_apply_add_child(counts: Seq<u32>, stack: Seq<(usize, GuiLayoutNode)>)
    requires
        stack.len() >= 1,
        stack_in(stack, counts.len() as int),
        stack.last().1.children_count < u32::MAX,
    ensures
        apply_stack(counts, stack)[stack.last().0 as int] == stack.last().1.children_count,
        apply_stack(counts, add_child(stack)) == apply_stack(counts, stack).update(
            stack.last().0 as int,
            (stack.last().1.children_count + 1) as u32,
        ),
{
    lemma_apply_stack_len(counts, stack.drop_last());
    assert(add_child(stack).drop_last() =~= stack.drop_last());
    let base = apply_stack(counts, stack.drop_last());
    let t = stack.last().0 as int;
    assert(base.update(t, stack.last().1.children_count).update(t, (stack.last().1.children_count + 1) as u32)
        =~= base.update(t, (stack.last().1.children_count + 1) as u32));
}

/// A layout added after the others is not touched by the open layouts.
proof fn lemma_apply_push(counts: Seq<u32>, x: u32, stack: Seq<(usize, GuiLayoutNode)>)
    requires
        stack_in(stack, counts.len() as int),
    ensures
        apply_stack(counts.push(x), stack) == apply_stack(counts, stack).push(x),
    decreases stack.len(),
{
    if stack.len() > 0 {
        lemma_apply_push(counts, x, stack.drop_last());
        lemma_apply_stack_len(counts, stack.drop_last());
        let base = apply_stack(counts, stack.drop_last());
        assert(base.push(x).update(stack.last().0 as int, stack.last().1.children_count) =~= base.update(
            stack.last().0 as int,
            stack.last().1.children_count,
        ).push(x));
    }
}

/// Setting the number of children of a layout that is not open commutes
/// with the open layouts.
proof fn lemma_apply_update_closed(counts: Seq<u32>, j: int, v: u32, stack: Seq<(usize, GuiLayoutNode)>)
    requires
        0 <= j < counts.len(),
        stack_in(stack, counts.len() as int),
        forall|k: int| 0 <= k < stack.len() ==> (#[trigger] stack[k]).0 != j,
    ensures
        apply_stack(counts.update(j, v), stack) == apply_stack(counts, stack).update(j, v),
    decreases stack.len(),
{
    if stack.len() > 0 {
        lemma_apply_update_closed(counts, j, v, stack.drop_last());
        lemma_apply_stack_len(counts, stack.drop_last());
        let base = apply_stack(counts, stack.drop_last());
        assert(stack.last().0 != j);
        assert(base.update(j, v).update(stack.last().0 as int, stack.last().1.children_count) =~= base.update(
            stack.last().0 as int,
            stack.last().1.children_count,
        ).update(j, v));
    }
}

/// Setting the number of children of an open layout is overridden by the
/// open layouts.
proof fn lemma_apply_update_open(counts: Seq<u32>, j: int, v: u32, stack: Seq<(usize, GuiLayoutNode)>)
    requires
        0 <= j < counts.len(),
        stack_in(stack, counts.len() as int),
        forall|a: int, b: int| 0 <= a < b < stack.len() ==> (#[trigger] stack[a]).0 < (#[trigger] stack[b]).0,
        exists|k: int| 0 <= k < stack.len() && (#[trigger] stack[k]).0 == j,
    ensures
        apply_stack(counts.update(j, v), stack) == apply_stack(counts, stack),
    decreases stack.len(),
{
    let s0 = stack.drop_last();
    lemma_apply_stack_len(counts, s0);
    if stack.last().0 == j {
        assert forall|k: int| 0 <= k < s0.len() implies (#[trigger] s0[k]).0 != j by {
            assert(stack[k].0 < stack[stack.len() - 1].0);
        }
        lemma_apply_update_closed(counts, j, v, s0);
        let base = apply_stack(counts, s0);
        assert(base.update(j, v).update(j, stack.last().1.children_count) =~= base.update(
            j,
            stack.last().1.children_count,
        ));
    } else {
        let k = choose|k: int| 0 <= k < stack.len() && (#[trigger] stack[k]).0 == j;
        assert(k < stack.len() - 1);
        assert(s0[k].0 == j);
        lemma_apply_update_open(counts, j, v, s0);
    }
}

/// The number of components that were added to layout `l`, given the
/// layout each component was added to.
pub open spec fn components_added_to(parents: Seq<int>, l: int) -> nat
    decreases parents.len(),
{
    if parents.len() == 0 {
        0
    } else {
        components_added_to(parents.drop_last(), l) + if parents.last() == l {
            1nat
        } else {
            0nat
        }
    }
}

/// The layouts keep their types: those of `before` are still there, each
/// with its type.
pub open spec fn keeps_layout_types(before: Seq<GuiLayoutNode>, after: Seq<GuiLayoutNode>) -> bool {
    &&& before.len() <= after.len()
    &&& forall|i: int| 0 <= i < before.len() ==> (#[trigger] after[i]).ty == before[i].ty
}

proof fn lemma_components_added_push(parents: Seq<int>, x: int, l: int)
    ensures
        components_added_to(parents.push(x), l) == components_added_to(parents, l) + if x == l {
            1nat
        } else {
            0nat
        },
{
    assert(parents.push(x).drop_last() =~= parents);
}

proof fn lemma_components_added_none(parents: Seq<int>, l: int)
    requires
        forall|i: int| 0 <= i < parents.len() ==> (#[trigger] parents[i]) != l,
    ensures
        components_added_to(parents, l) == 0,
    decreases parents.len(),
{
    if parents.len() > 0 {
        lemma_components_added_none(parents.drop_last(), l);
    }
}

/// The open layouts only change the numbers of children of open layouts.
proof fn lemma_apply_stack_other(counts: Seq<u32>, stack: Seq<(usize, GuiLayoutNode)>, j: int)
    requires
        0 <= j < counts.len(),
        stack_in(stack, counts.len() as int),
        forall|k: int| 0 <= k < stack.len() ==> (#[trigger] stack[k]).0 != j,
    ensures
        apply_stack(counts, stack)[j] == counts[j],
    decreases stack.len(),
{
    if stack.len() > 0 {
        lemma_apply_stack_other(counts, stack.drop_last(), j);
        lemma_apply_stack_len(counts, stack.drop_last());
        assert(stack[stack.len() - 1].0 != j);
    }
}

impl GuiBuilder {
    /// The root layout is open and first in the layouts; the open layouts
    /// are layouts of the gui, each opened after the one it is in; one
    /// item index per component; the callbacks of the components exist;
    /// an open layout has the type of its layout; each component was added
    /// to a layout of the gui; each layout has, counting the open ones as
    /// their stack entries hold, as many children as components were added
    /// to it; and, while no error was recorded, walking the items with the
    /// numbers of children recorded so far finds the layout each item was
    /// added to.
    pub open spec fn wf(&self) -> bool {
        let stack = self.layouts_stack@;
        &&& stack.len() >= 1
        &&& stack[0].0 == 0
        &&& self.layouts@.len() >= 1
        &&& forall|i: int| 0 <= i < stack.len() ==> (#[trigger] stack[i]).0 < self.layouts@.len()
        &&& forall|i: int, j: int| 0 <= i < j < stack.len() ==> (#[trigger] stack[i]).0 < (#[trigger] stack[j]).0
        &&& self.item_index == self.component_base@.len()
        &&& forall|i: int|
            0 <= i < self.component_base@.len() ==> (#[trigger] self.component_base@[i]).callbacks_index == u32::MAX
                || self.component_base@[i].callbacks_index < self.callbacks@.len()
        &&& forall|i: int|
            0 <= i < stack.len() ==> (#[trigger] stack[i]).1.ty == self.layouts@[stack[i].0 as int].ty
        &&& forall|i: int| 0 <= i < self.parents@.len() ==> 0 <= #[trigger] self.parents@[i] < self.layouts@.len()
        &&& forall|l: int|
            0 <= l < self.layouts@.len() ==> #[trigger] self.children_counts()[l] == components_added_to(
                self.parents@,
                l,
            )
        &&& self.clean@ ==> self.plan_consistent()
    }

    /// The number of children of each layout, those of the open layouts
    /// being the ones their stack entries hold.
    pub open spec fn children_counts(&self) -> Seq<u32> {
        apply_stack(node_counts(self.layouts@), self.layouts_stack@)
    }

    /// Walking the items with the numbers of children so far goes through
    /// every item, finds the layout each was added to, opens every layout,
    /// leaves no child to place, and the open layouts of the builder are
    /// the outer ones the walk has open.
    pub open spec fn plan_consistent(&self) -> bool {
        let c = self.children_counts();
        let w = full_walk(c, self.item_has_layout@);
        let stack = self.layouts_stack@;
        &&& w.ok
        &&& w.parents == self.parents@
        &&& w.next == c.len()
        &&& forall|k: int| 0 <= k < w.stack.len() ==> (#[trigger] w.stack[k]).1 == 0
        &&& stack.len() <= w.stack.len()
        &&& forall|k: int| 0 <= k < stack.len() ==> (#[trigger] w.stack[k]).0 == stack[k].0 as int
    }

    /// A builder of an empty gui laid out with `styles`: the root layout,
    /// of the root layout type of the styles, is the only layout and is
    /// open; no item, component, callback nor error, and the next layout is
    /// a column.
    pub fn new<F: Copy, R: Copy>(styles: &GuiStyleBuilder<F, R>) -> (b: Self)
        ensures
            b.wf(),
            b.clean@,
            b.layouts@ == seq![empty_layout(styles.root_layout_type)],
            b.layouts_stack@ == seq![(0usize, empty_layout(styles.root_layout_type))],
            b.item_has_layout@.len() == 0,
            b.component_base@.len() == 0,
            b.callbacks@.len() == 0,
            b.last_callbacks == GuiComponentCallbacksValue::Empty,
            b.errors@.len() == 0,
            b.next_layout == GuiLayoutType::VBox,
            b.item_index == 0,
            b.parents@.len() == 0,
    {
        let root = GuiLayoutNode { ty: styles.root_layout_type, children_count: 0 };
        let mut layouts: Vec<GuiLayoutNode> = Vec::new();
        layouts.push(root);
        let mut layouts_stack: Vec<(usize, GuiLayoutNode)> = Vec::new();
        layouts_stack.push((0, root));
        let b = GuiBuilder {
            layouts,
            layouts_stack,
            item_has_layout: Vec::new(),
            component_base: Vec::new(),
            callbacks: Vec::new(),
            last_callbacks: GuiComponentCallbacksValue::Empty,
            errors: Vec::new(),
            next_layout: GuiLayoutType::VBox,
            item_index: 0,
            parents: Ghost(Seq::empty()),
            clean: Ghost(true),
        };
        proof {
            assert(b.layouts@ =~= seq![root]);
            assert(b.layouts_stack@ =~= seq![(0usize, root)]);
            assert(b.layouts_stack@.drop_last() =~= Seq::<(usize, GuiLayoutNode)>::empty());
            assert(node_counts(b.layouts@) =~= seq![0u32]);
            assert(apply_stack(seq![0u32], b.layouts_stack@.drop_last()) == seq![0u32]);
            assert(seq![0u32].update(0, 0u32) =~= seq![0u32]);
            assert(b.children_counts() =~= seq![0u32]);
            assert(full_walk(b.children_counts(), b.item_has_layout@).stack =~= seq![(0int, 0int)]);
        }
        b
    }

    /// Sets the layout that places the children of the next frame.
    pub fn layout(&mut self, layout_type: GuiLayoutType)
        ensures
            old(self).wf() ==> final(self).wf(),
            final(self).next_layout == layout_type,
            final(self).layouts@ == old(self).layouts@,
            final(self).layouts_stack@ == old(self).layouts_stack@,
            final(self).item_has_layout@ == old(self).item_has_layout@,
            final(self).component_base@ == old(self).component_base@,
            final(self).callbacks@ == old(self).callbacks@,
            final(self).last_callbacks == old(self).last_callbacks,
            final(self).errors@ == old(self).errors@,
            final(self).item_index == old(self).item_index,
            final(self).parents == old(self).parents,
            final(self).clean == old(self).clean,
    {
        self.next_layout = layout_type;
        proof {
            assert(self.children_counts() == old(self).children_counts());
        }
    }

    /// The next label sends `click` when it is clicked.
    pub fn set_label_callback(&mut self, click: u64)
        ensures
            old(self).wf() ==> final(self).wf(),
            final(self).last_callbacks == GuiComponentCallbacksValue::Label(GuiLabelCallbackValues { click }),
            final(self).next_layout == old(self).next_layout,
            final(self).layouts@ == old(self).layouts@,
            final(self).layouts_stack@ == old(self).layouts_stack@,
            final(self).item_has_layout@ == old(self).item_has_layout@,
            final(self).component_base@ == old(self).component_base@,
            final(self).callbacks@ == old(self).callbacks@,
            final(self).errors@ == old(self).errors@,
            final(self).item_index == old(self).item_index,
            final(self).parents == old(self).parents,
            final(self).clean == old(self).clean,
    {
        self.last_callbacks = GuiComponentCallbacksValue::Label(GuiLabelCallbackValues { click });
        proof {
            assert(self.children_counts() == old(self).children_counts());
        }
    }

    /// The next label sends `callback_id`, as its raw value, when it is
    /// clicked.
    pub fn label_callback<ID: IntoGuiCallback>(&mut self, _callback: GuiLabelCallback, callback_id: ID)
        ensures
            old(self).wf() ==> final(self).wf(),
            final(self).last_callbacks is Label,
            final(self).next_layout == old(self).next_layout,
            final(self).layouts@ == old(self).layouts@,
            final(self).layouts_stack@ == old(self).layouts_stack@,
            final(self).item_has_layout@ == old(self).item_has_layout@,
            final(self).component_base@ == old(self).component_base@,
            final(self).callbacks@ == old(self).callbacks@,
            final(self).errors@ == old(self).errors@,
            final(self).item_index == old(self).item_index,
            final(self).parents == old(self).parents,
            final(self).clean == old(self).clean,
    {
        let click = callback_id.into_u64();
        self.set_label_callback(click);
    }

    /// Adds a label of style `style_key`: its layout item, and the last
    /// callbacks if they are a label's, are recorded in any case; if the
    /// style is known, the label becomes a component and a child of the
    /// innermost open layout, and its style index is returned; else the
    /// error is recorded.
    pub fn label<F: Copy, R: Copy>(&mut self, styles: &GuiStyleBuilder<F, R>, style_key: &str) -> (r: Option<u32>)
        requires
            old(self).wf(),
            styles.wf(),
            old(self).item_index < u32::MAX,
            old(self).callbacks@.len() < u32::MAX,
            old(self).layouts_stack@.last().1.children_count < u32::MAX,
        ensures
            final(self).wf(),
            final(self).item_has_layout@ == old(self).item_has_layout@.push(false),
            final(self).last_callbacks == GuiComponentCallbacksValue::Empty,
            final(self).callbacks@ == callbacks_after_take(old(self).callbacks@, old(self).last_callbacks),
            final(self).layouts@ == old(self).layouts@,
            final(self).next_layout == old(self).next_layout,
            styles.font_styles.contents().contains_key(style_key@) ==> {
                let si = styles.font_styles.contents()[style_key@];
                &&& r == Some(si)
                &&& si < styles.styles@.len() && styles.styles@[si as int] is Font
                &&& final(self).component_base@ == old(self).component_base@.push(
                    GuiComponentBase {
                        callbacks_index: taken_callbacks_index(old(self).last_callbacks, old(self).callbacks@.len()),
                        style_index: si,
                    },
                )
                &&& final(self).layouts_stack@ == add_child(old(self).layouts_stack@)
                &&& final(self).item_index == old(self).item_index + 1
                &&& final(self).errors@ == old(self).errors@
                &&& final(self).parents@ == old(self).parents@.push(old(self).layouts_stack@.last().0 as int)
                &&& final(self).clean == old(self).clean
            },
            !styles.font_styles.contents().contains_key(style_key@) ==> {
                &&& r is None
                &&& final(self).component_base@ == old(self).component_base@
                &&& final(self).layouts_stack@ == old(self).layouts_stack@
                &&& final(self).item_index == old(self).item_index
                &&& final(self).errors@.len() == old(self).errors@.len() + 1
                &&& final(self).errors@.take(old(self).errors@.len() as int) == old(self).errors@
                &&& final(self).errors@.last() matches GuiBuildError::MissingLabelStyle(key) && key@ == style_key@
                &&& final(self).parents == old(self).parents
                &&& !final(self).clean@
            },
    {
        self.item_has_layout.push(false);
        let ghost old_callbacks = self.callbacks@;
        let taken = self.last_callbacks.take();
        let callbacks_index: u32 = match taken {
            GuiComponentCallbacksValue::Label(_) => {
                self.callbacks.push(taken);
                (self.callbacks.len() - 1) as u32
            },
            GuiComponentCallbacksValue::Empty => u32::MAX,
        };
        proof {
            assert forall|i: int|
                0 <= i < self.component_base@.len() implies (#[trigger] self.component_base@[i]).callbacks_index
                == u32::MAX || self.component_base@[i].callbacks_index < self.callbacks@.len() by {
                assert(self.callbacks@.len() >= old_callbacks.len());
            }
        }
        let style_index = match styles.font_styles.get(style_key) {
            Some(index) => index,
            None => {
                let ghost old_errors = self.errors@;
                self.errors.push(GuiBuildError::MissingLabelStyle(style_key.to_owned()));
                self.clean = Ghost(false);
                proof {
                    assert(self.errors@.take(old_errors.len() as int) =~= old_errors);
                    assert(self.children_counts() == old(self).children_counts());
                }
                return None;
            },
        };
        proof {
            assert(styles.font_styles.contents().contains_key(style_key@));
        }
        let ghost t = self.layouts_stack@.last().0 as int;
        self.component_base.push(GuiComponentBase { callbacks_index, style_index });
        self.add_child_to_open_layout();
        self.item_index = self.item_index + 1;
        self.parents = Ghost(self.parents@.push(t));
        proof {
            lemma_children_add(*old(self), *self, false);
            let stack = self.layouts_stack@;
            assert forall|i: int| 0 <= i < stack.len() implies (#[trigger] stack[i]).1.ty
                == self.layouts@[stack[i].0 as int].ty by {
                assert(stack[i].0 == old(self).layouts_stack@[i].0);
                assert(stack[i].1.ty == old(self).layouts_stack@[i].1.ty);
            }
            if self.clean@ {
                lemma_consistent_add(*old(self), *self, false);
            }
        }
        Some(style_index)
    }

    /// Adds a frame of style `style_key`: its layout item, which holds a
    /// layout, is recorded in any case; if the style is known, the frame
    /// becomes a component and a child of the innermost open layout, a new
    /// layout of the next layout type is opened inside it, and its style
    /// index is returned. Its children are added next, then
    /// `end_frame` closes its layout. If the style is not known the error
    /// is recorded and nothing is opened.
    pub fn frame<F: Copy, R: Copy>(&mut self, styles: &GuiStyleBuilder<F, R>, style_key: &str) -> (r: Option<u32>)
        requires
            old(self).wf(),
            styles.wf(),
            old(self).item_index < u32::MAX,
            old(self).layouts_stack@.last().1.children_count < u32::MAX,
        ensures
            final(self).wf(),
            final(self).item_has_layout@ == old(self).item_has_layout@.push(true),
            final(self).last_callbacks == old(self).last_callbacks,
            final(self).callbacks@ == old(self).callbacks@,
            final(self).next_layout == old(self).next_layout,
            keeps_layout_types(old(self).layouts@, final(self).layouts@),
            styles.frame_styles.contents().contains_key(style_key@) ==> {
                let si = styles.frame_styles.contents()[style_key@];
                let opened = empty_layout(old(self).next_layout);
                &&& r == Some(si)
                &&& si < styles.styles@.len() && styles.styles@[si as int] is Frame
                &&& final(self).component_base@ == old(self).component_base@.push(
                    GuiComponentBase { callbacks_index: u32::MAX, style_index: si },
                )
                &&& final(self).layouts@ == old(self).layouts@.push(opened)
                &&& final(self).layouts_stack@ == add_child(old(self).layouts_stack@).push(
                    (old(self).layouts@.len() as usize, opened),
                )
                &&& components_added_to(final(self).parents@, old(self).layouts@.len() as int) == 0
                &&& final(self).item_index == old(self).item_index + 1
                &&& final(self).errors@ == old(self).errors@
                &&& final(self).parents@ == old(self).parents@.push(old(self).layouts_stack@.last().0 as int)
                &&& final(self).clean == old(self).clean
            },
            !styles.frame_styles.contents().contains_key(style_key@) ==> {
                &&& r is None
                &&& final(self).component_base@ == old(self).component_base@
                &&& final(self).layouts@ == old(self).layouts@
                &&& final(self).layouts_stack@ == old(self).layouts_stack@
                &&& final(self).item_index == old(self).item_index
                &&& final(self).errors@.len() == old(self).errors@.len() + 1
                &&& final(self).errors@.take(old(self).errors@.len() as int) == old(self).errors@
                &&& final(self).errors@.last() matches GuiBuildError::MissingFrameStyle(key) && key@ == style_key@
                &&& final(self).parents == old(self).parents
                &&& !final(self).clean@
            },
    {
        self.item_has_layout.push(true);
        let style_index = match styles.frame_styles.get(style_key) {
            Some(index) => index,
            None => {
                let ghost old_errors = self.errors@;
                self.errors.push(GuiBuildError::MissingFrameStyle(style_key.to_owned()));
                self.clean = Ghost(false);
                proof {
                    assert(self.errors@.take(old_errors.len() as int) =~= old_errors);
                    assert(self.children_counts() == old(self).children_counts());
                }
                return None;
            },
        };
        proof {
            assert(styles.frame_styles.contents().contains_key(style_key@));
        }
        self.component_base.push(GuiComponentBase { callbacks_index: u32::MAX, style_index });
        let ghost stack0 = self.layouts_stack@;
        let ghost len0 = self.layouts@.len();
        assert(len0 == self.layouts.len());
        let ghost t = self.layouts_stack@.last().0 as int;
        self.add_child_to_open_layout();
        self.open_next_layout();
        let layouts_count = self.layouts.len();
        assert(layouts_count == len0 + 1);
        self.item_index = self.item_index + 1;
        self.parents = Ghost(self.parents@.push(t));
        proof {
            let stack = self.layouts_stack@;
            assert forall|i: int| 0 <= i < stack.len() - 1 implies (#[trigger] stack[i]).0 == stack0[i].0 by {}
            assert forall|i: int| 0 <= i < stack.len() implies (#[trigger] stack[i]).0 < self.layouts@.len() by {
                if i < stack.len() - 1 {
                    assert(stack0[i].0 < len0);
                }
            }
            assert forall|i: int, j: int| 0 <= i < j < stack.len() implies (#[trigger] stack[i]).0 < (
            #[trigger] stack[j]).0 by {
                assert(stack[i].0 == stack0[i].0);
                assert(stack0[i].0 < len0);
                if j < stack.len() - 1 {
                    assert(stack[j].0 == stack0[j].0);
                    assert(stack0[i].0 < stack0[j].0);
                } else {
                    assert(stack[j].0 == len0);
                }
            }
            assert forall|i: int| 0 <= i < stack.len() implies (#[trigger] stack[i]).1.ty
                == self.layouts@[stack[i].0 as int].ty by {
                if i < stack.len() - 1 {
                    assert(stack[i].1.ty == stack0[i].1.ty);
                    assert(stack0[i].0 < len0);
                    assert(self.layouts@[stack[i].0 as int] == old(self).layouts@[stack0[i].0 as int]);
                }
            }
            lemma_children_add(*old(self), *self, true);
            lemma_components_added_push(old(self).parents@, t, len0 as int);
            assert forall|i: int| 0 <= i < old(self).parents@.len() implies (#[trigger] old(self).parents@[i])
                != len0 as int by {}
            lemma_components_added_none(old(self).parents@, len0 as int);
            if self.clean@ {
                lemma_consistent_add(*old(self), *self, true);
            }
        }
        Some(style_index)
    }

    /// Closes the layout of the innermost open frame: it is stored with
    /// its number of children, which is the number of components added to
    /// it while it was open.
    pub fn end_frame(&mut self)
        requires
            old(self).wf(),
            old(self).layouts_stack@.len() >= 2,
        ensures
            final(self).wf(),
            final(self).layouts_stack@ == old(self).layouts_stack@.drop_last(),
            final(self).layouts@ == old(self).layouts@.update(
                old(self).layouts_stack@.last().0 as int,
                old(self).layouts_stack@.last().1,
            ),
            final(self).item_has_layout@ == old(self).item_has_layout@,
            final(self).component_base@ == old(self).component_base@,
            final(self).callbacks@ == old(self).callbacks@,
            final(self).last_callbacks == old(self).last_callbacks,
            final(self).errors@ == old(self).errors@,
            final(self).next_layout == old(self).next_layout,
            final(self).item_index == old(self).item_index,
            final(self).parents == old(self).parents,
            final(self).clean == old(self).clean,
            final(self).children_counts() == old(self).children_counts(),
            keeps_layout_types(old(self).layouts@, final(self).layouts@),
            final(self).layouts@[old(self).layouts_stack@.last().0 as int].children_count == components_added_to(
                final(self).parents@,
                old(self).layouts_stack@.last().0 as int,
            ),
    {
        let (layout_index, layout) = self.layouts_stack.pop().unwrap();
        proof {
            assert(layout_index < self.layouts@.len());
        }
        self.layouts.set(layout_index, layout);
        proof {
            let s = old(self).layouts_stack@;
            let s0 = s.drop_last();
            let counts = node_counts(old(self).layouts@);
            assert(node_counts(self.layouts@) =~= counts.update(layout_index as int, layout.children_count));
            assert forall|k: int| 0 <= k < s0.len() implies (#[trigger] s0[k]).0 != layout_index as int by {
                assert(s[k].0 < s[s.len() - 1].0);
            }
            lemma_apply_update_closed(counts, layout_index as int, layout.children_count, s0);
            assert(self.layouts_stack@ =~= s0);
            assert(self.children_counts() == old(self).children_counts());
            assert forall|i: int| 0 <= i < s0.len() implies (#[trigger] s0[i]).1.ty
                == self.layouts@[s0[i].0 as int].ty by {
                assert(s0[i] == s[i]);
                assert(s[i].0 < s[s.len() - 1].0);
            }
            if self.clean@ {
                let w = full_walk(self.children_counts(), self.item_has_layout@);
                assert forall|k: int| 0 <= k < self.layouts_stack@.len() implies (#[trigger] w.stack[k]).0
                    == self.layouts_stack@[k].0 as int by {
                    assert(self.layouts_stack@[k] == s[k]);
                }
            }
            assert(self.wf());
            lemma_closed_layout_children(*self, layout_index as int);
        }
    }

    /// Ends the build: the recorded errors, which are handed out and
    /// forgotten, or, if there is none, the root layout is stored with its
    /// children.
    pub fn finish(&mut self) -> (r: Result<(), Vec<GuiBuildError>>)
        requires
            old(self).wf(),
        ensures
            final(self).wf(),
            final(self).layouts_stack@ == old(self).layouts_stack@,
            final(self).item_has_layout@ == old(self).item_has_layout@,
            final(self).component_base@ == old(self).component_base@,
            final(self).callbacks@ == old(self).callbacks@,
            final(self).parents == old(self).parents,
            keeps_layout_types(old(self).layouts@, final(self).layouts@),
            old(self).errors@.len() == 0 ==> {
                &&& r is Ok
                &&& final(self).layouts@ == old(self).layouts@.update(0, old(self).layouts_stack@[0].1)
                &&& final(self).errors@.len() == 0
                &&& final(self).clean == old(self).clean
                &&& final(self).children_counts() == old(self).children_counts()
                &&& old(self).layouts_stack@.len() == 1 ==> node_counts(final(self).layouts@)
                    == old(self).children_counts()
            },
            old(self).errors@.len() > 0 ==> {
                &&& r matches Err(errors) && errors@ == old(self).errors@
                &&& final(self).layouts@ == old(self).layouts@
                &&& final(self).errors@.len() == 0
                &&& !final(self).clean@
            },
    {
        if self.errors.len() > 0 {
            let mut errors: Vec<GuiBuildError> = Vec::new();
            std::mem::swap(&mut errors, &mut self.errors);
            self.clean = Ghost(false);
            proof {
                assert(self.children_counts() == old(self).children_counts());
            }
            return Err(errors);
        }
        let root = self.layouts_stack[0].1;
        self.layouts.set(0, root);
        proof {
            let s = self.layouts_stack@;
            let counts = node_counts(old(self).layouts@);
            assert(node_counts(self.layouts@) =~= counts.update(0, root.children_count));
            assert(s[0].0 == 0);
            lemma_apply_update_open(counts, 0, root.children_count, s);
            assert(self.children_counts() == old(self).children_counts());
            assert forall|i: int| 0 <= i < s.len() implies (#[trigger] s[i]).1.ty
                == self.layouts@[s[i].0 as int].ty by {
                if s[i].0 != 0 {
                    assert(self.layouts@[s[i].0 as int] == old(self).layouts@[s[i].0 as int]);
                }
            }
            if s.len() == 1 {
                assert(s.drop_last() =~= Seq::<(usize, GuiLayoutNode)>::empty());
                assert(apply_stack(counts, s.drop_last()) == counts);
                assert(node_counts(self.layouts@) == old(self).children_counts());
            }
        }
        Ok(())
    }

    /// One more child in the innermost open layout.
    fn add_child_to_open_layout(&mut self)
        requires
            old(self).layouts_stack@.len() >= 1,
            old(self).layouts_stack@.last().1.children_count < u32::MAX,
        ensures
            final(self).layouts_stack@ == add_child(old(self).layouts_stack@),
            final(self).layouts@ == old(self).layouts@,
            final(self).item_has_layout@ == old(self).item_has_layout@,
            final(self).component_base@ == old(self).component_base@,
            final(self).callbacks@ == old(self).callbacks@,
            final(self).last_callbacks == old(self).last_callbacks,
            final(self).errors@ == old(self).errors@,
            final(self).next_layout == old(self).next_layout,
            final(self).item_index == old(self).item_index,
            final(self).parents == old(self).parents,
            final(self).clean == old(self).clean,
    {
        let last = self.layouts_stack.len() - 1;
        let (index, node) = self.layouts_stack[last];
        self.layouts_stack.set(last, (index, GuiLayoutNode { ty: node.ty, children_count: node.children_count + 1 }));
    }

    /// Opens a new layout of the next layout type, without children.
    fn open_next_layout(&mut self)
        ensures
            final(self).layouts@ == old(self).layouts@.push(empty_layout(old(self).next_layout)),
            final(self).layouts_stack@ == old(self).layouts_stack@.push(
                (old(self).layouts@.len() as usize, empty_layout(old(self).next_layout)),
            ),
            final(self).item_has_layout@ == old(self).item_has_layout@,
            final(self).component_base@ == old(self).component_base@,
            final(self).callbacks@ == old(self).callbacks@,
            final(self).last_callbacks == old(self).last_callbacks,
            final(self).errors@ == old(self).errors@,
            final(self).next_layout == old(self).next_layout,
            final(self).item_index == old(self).item_index,
            final(self).parents == old(self).parents,
            final(self).clean == old(self).clean,
    {
        let index = self.layouts.len();
        let layout = GuiLayoutNode { ty: self.next_layout, children_count: 0 };
        self.layouts.push(layout);
        self.layouts_stack.push((index, layout));
    }
}

/// Adding an item to the innermost open layout gives that layout one more
/// child, and, if the item holds a layout, adds that layout without
/// children.
proof fn lemma_counts_add(b0: GuiBuilder, b1: GuiBuilder, has_layout: bool)
    requires
        b0.layouts_stack@.len() >= 1,
        stack_in(b0.layouts_stack@, b0.layouts@.len() as int),
        b0.layouts_stack@.last().1.children_count < u32::MAX,
        has_layout ==> b0.layouts@.len() < usize::MAX,
        has_layout ==> b1.layouts@ == b0.layouts@.push(empty_layout(b0.next_layout)),
        has_layout ==> b1.layouts_stack@ == add_child(b0.layouts_stack@).push(
            (b0.layouts@.len() as usize, empty_layout(b0.next_layout)),
        ),
        !has_layout ==> b1.layouts@ == b0.layouts@,
        !has_layout ==> b1.layouts_stack@ == add_child(b0.layouts_stack@),
    ensures
        ({
            let c = b0.children_counts();
            let t = b0.layouts_stack@.last().0 as int;
            let c1 = c.update(t, (c[t] + 1) as u32);
            &&& c.len() == b0.layouts@.len()
            &&& c[t] == b0.layouts_stack@.last().1.children_count
            &&& b1.children_counts() == if has_layout {
                c1.push(0)
            } else {
                c1
            }
        }),
{
    let s0 = b0.layouts_stack@;
    let counts = node_counts(b0.layouts@);
    let c = b0.children_counts();
    let t = s0.last().0 as int;
    lemma_apply_stack_len(counts, s0);
    lemma_apply_add_child(counts, s0);
    let c1 = c.update(t, (c[t] + 1) as u32);
    if has_layout {
        let opened = empty_layout(b0.next_layout);
        assert(node_counts(b1.layouts@) =~= counts.push(0));
        let added = add_child(s0);
        assert(stack_in(added, counts.len() as int)) by {
            assert forall|k: int| 0 <= k < added.len() implies (#[trigger] added[k]).0 < counts.len() by {
                assert(added[k].0 == s0[k].0);
            }
        }
        lemma_apply_push(counts, 0, added);
        lemma_apply_stack_len(counts, added);
        assert(b1.layouts_stack@.drop_last() =~= added);
        assert(b1.layouts_stack@.last() == (b0.layouts@.len() as usize, opened));
        assert(apply_stack(counts.push(0), added) == c1.push(0));
        let x = node_counts(b1.layouts@);
        assert(x == counts.push(0));
        assert(apply_stack(x, b1.layouts_stack@) == apply_stack(x, b1.layouts_stack@.drop_last()).update(
            b1.layouts_stack@.last().0 as int,
            b1.layouts_stack@.last().1.children_count,
        ));
        assert(b1.children_counts() == apply_stack(counts.push(0), added).update(b0.layouts@.len() as int, 0));
        assert(c1.push(0).update(b0.layouts@.len() as int, 0) =~= c1.push(0));
    } else {
        assert(b1.children_counts() == c1);
    }
}

/// Adding a component to the innermost open layout keeps each layout
/// holding as many children as components were added to it.
proof fn lemma_children_add(b0: GuiBuilder, b1: GuiBuilder, has_layout: bool)
    requires
        b0.wf(),
        b0.layouts_stack@.last().1.children_count < u32::MAX,
        b1.parents@ == b0.parents@.push(b0.layouts_stack@.last().0 as int),
        has_layout ==> b0.layouts@.len() < usize::MAX,
        has_layout ==> b1.layouts@ == b0.layouts@.push(empty_layout(b0.next_layout)),
        has_layout ==> b1.layouts_stack@ == add_child(b0.layouts_stack@).push(
            (b0.layouts@.len() as usize, empty_layout(b0.next_layout)),
        ),
        !has_layout ==> b1.layouts@ == b0.layouts@,
        !has_layout ==> b1.layouts_stack@ == add_child(b0.layouts_stack@),
    ensures
        forall|i: int| 0 <= i < b1.parents@.len() ==> 0 <= #[trigger] b1.parents@[i] < b1.layouts@.len(),
        forall|l: int|
            0 <= l < b1.layouts@.len() ==> #[trigger] b1.children_counts()[l] == components_added_to(b1.parents@, l),
{
    let s0 = b0.layouts_stack@;
    let t = s0.last().0 as int;
    assert(stack_in(s0, b0.layouts@.len() as int));
    lemma_counts_add(b0, b1, has_layout);
    let c = b0.children_counts();
    assert forall|i: int| 0 <= i < b1.parents@.len() implies 0 <= #[trigger] b1.parents@[i] < b1.layouts@.len() by {
        if i < b0.parents@.len() {
            assert(b1.parents@[i] == b0.parents@[i]);
        }
    }
    assert forall|l: int| 0 <= l < b1.layouts@.len() implies #[trigger] b1.children_counts()[l]
        == components_added_to(b1.parents@, l) by {
        lemma_components_added_push(b0.parents@, t, l);
        if l < b0.layouts@.len() {
            assert(c[l] == components_added_to(b0.parents@, l));
        } else {
            assert forall|i: int| 0 <= i < b0.parents@.len() implies (#[trigger] b0.parents@[i]) != l by {}
            lemma_components_added_none(b0.parents@, l);
        }
    }
}

/// Adding an item, which holds a layout or not, to the innermost open
/// layout of a consistent builder keeps it consistent.
proof fn lemma_consistent_add(b0: GuiBuilder, b1: GuiBuilder, has_layout: bool)
    requires
        b0.wf(),
        b0.clean@,
        b0.layouts_stack@.last().1.children_count < u32::MAX,
        b1.item_has_layout@ == b0.item_has_layout@.push(has_layout),
        b1.parents@ == b0.parents@.push(b0.layouts_stack@.last().0 as int),
        has_layout ==> b0.layouts@.len() < usize::MAX,
        has_layout ==> b1.layouts@ == b0.layouts@.push(empty_layout(b0.next_layout)),
        has_layout ==> b1.layouts_stack@ == add_child(b0.layouts_stack@).push(
            (b0.layouts@.len() as usize, empty_layout(b0.next_layout)),
        ),
        !has_layout ==> b1.layouts@ == b0.layouts@,
        !has_layout ==> b1.layouts_stack@ == add_child(b0.layouts_stack@),
    ensures
        b1.plan_consistent(),
{
    let s0 = b0.layouts_stack@;
    let c = b0.children_counts();
    let h = b0.item_has_layout@;
    let d = s0.len() as int;
    let t = s0.last().0 as int;
    assert(stack_in(s0, b0.layouts@.len() as int));
    lemma_counts_add(b0, b1, has_layout);
    let c1 = c.update(t, (c[t] + 1) as u32);
    let w = full_walk(c, h);
    assert(w.stack[d - 1].0 == t);
    lemma_walk_add_item(c, h, t, d, has_layout);
    let c2 = if has_layout { c1.push(0) } else { c1 };
    assert(b1.children_counts() == c2);
    let w2 = full_walk(c2, b1.item_has_layout@);
    let s1 = b1.layouts_stack@;
    assert forall|k: int| 0 <= k < w2.stack.len() implies (#[trigger] w2.stack[k]).1 == 0 by {
        if k < d {
            assert(w2.stack[k] == w.stack[k]);
        }
    }
    assert forall|k: int| 0 <= k < s1.len() implies (#[trigger] w2.stack[k]).0 == s1[k].0 as int by {
        if k < d {
            assert(w2.stack[k] == w.stack[k]);
            assert(w.stack[k].0 == s0[k].0 as int);
            assert(add_child(s0)[k].0 == s0[k].0);
            assert(s1[k] == add_child(s0)[k]);
            assert(s1[k].0 == s0[k].0);
        } else {
            assert(has_layout);
            assert(k == d);
            assert(w2.stack[k] == (c.len() as int, 0int));
            assert(s1[k].0 == b0.layouts@.len() as usize);
        }
    }
}

/// A gui built without errors, once every frame is closed, is walked back
/// as it was built: the walk through its items, with the number of
/// children of each layout, places every item in the layout it was added
/// to.
pub proof fn lemma_built_layout_plan(b: GuiBuilder)
    requires
        b.wf(),
        b.clean@,
        b.layouts_stack@.len() == 1,
    ensures
        layout_plan_of(b.children_counts(), b.item_has_layout@) == Some(b.parents@),
{
    let w = full_walk(b.children_counts(), b.item_has_layout@);
    lemma_pop_done(w.stack);
    if pop_done(w.stack).len() > 0 {
        let k = pop_done(w.stack).len() - 1;
        assert(pop_done(w.stack)[k] == w.stack[k]);
    }
}

/// A layout that is not open, as a frame's is once `end_frame` closed it,
/// holds as its number of children the number of components added to it:
/// the labels and frames with known styles added while it was the
/// innermost open layout. A frame opens its layout with the type set last
/// by `layout`, and no later call changes the type of a layout.
pub proof fn lemma_closed_layout_children(b: GuiBuilder, n: int)
    requires
        b.wf(),
        0 <= n < b.layouts@.len(),
        forall|k: int| 0 <= k < b.layouts_stack@.len() ==> (#[trigger] b.layouts_stack@[k]).0 != n,
    ensures
        b.layouts@[n].children_count == components_added_to(b.parents@, n),
{
    let counts = node_counts(b.layouts@);
    assert(stack_in(b.layouts_stack@, counts.len() as int));
    lemma_apply_stack_other(counts, b.layouts_stack@, n);
    assert(b.children_counts()[n] == components_added_to(b.parents@, n));
}

/// A frame opened and closed with nothing in it leaves the open layouts
/// as they were but for one more child in the innermost one, and adds its
/// own layout, without children, to the gui.
pub proof fn lemma_empty_frame(stack: Seq<(usize, GuiLayoutNode)>, layouts: Seq<GuiLayoutNode>, next: GuiLayoutType)
    requires
        stack.len() >= 1,
        layouts.len() <= usize::MAX,
    ensures
        ({
            let opened = add_child(stack).push((layouts.len() as usize, empty_layout(next)));
            let grown = layouts.push(empty_layout(next));
            &&& opened.drop_last() == add_child(stack)
            &&& grown.update(opened.last().0 as int, opened.last().1) == grown
        }),
{
    let opened = add_child(stack).push((layouts.len() as usize, empty_layout(next)));
    let grown = layouts.push(empty_layout(next));
    assert(opened.drop_last() =~= add_child(stack));
    assert(grown.update(opened.last().0 as int, opened.last().1) =~= grown);
}

/// A label added right after its callback was set sends that callback's
/// value when it is clicked; a label added without one sends nothing.
pub proof fn lemma_label_click(
    bases: Seq<GuiComponentBase>,
    callbacks: Seq<GuiComponentCallbacksValue>,
    last: GuiComponentCallbacksValue,
    style_index: u32,
)
    requires
        callbacks.len() < u32::MAX,
    ensures
        ({
            let bases2 = bases.push(
                GuiComponentBase { callbacks_index: taken_callbacks_index(last, callbacks.len()), style_index },
            );
            let callbacks2 = callbacks_after_take(callbacks, last);
            click_output(bases2, callbacks2, bases.len() as int) == match last {
                GuiComponentCallbacksValue::Label(values) => Some(values.click),
                GuiComponentCallbacksValue::Empty => None::<u64>,
            }
        }),
{
    let bases2 = bases.push(
        GuiComponentBase { callbacks_index: taken_callbacks_index(last, callbacks.len()), style_index },
    );
    assert(bases2[bases.len() as int].callbacks_index == taken_callbacks_index(last, callbacks.len()));
}

} // verus!
