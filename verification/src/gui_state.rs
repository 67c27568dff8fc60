//! Interaction state of the client guis: which component is hovered or
//! selected, which components change style when that changes, and the
//! callbacks a click sends.
//!
//! Components are numbered in the order they were built; `u32::MAX` stands
//! for "no component".

use vstd::prelude::*;
use unicode_segmentation::UnicodeSegmentation;
use crate::cache::NameIndex;

verus! {

/// The style a component is drawn with.
#[derive(Copy, Clone, PartialEq, Eq, Structural, Debug)]
pub enum GuiStyleState {
    Base,
    Hovered,
    Active,
}

/// Where a layout places its children.
#[derive(Copy, Clone, PartialEq, Eq, Structural, Debug)]
pub enum GuiLayoutPosition {
    TopLeft,
    Center,
}

/// How a layout places its children: in a column or in a row.
#[derive(Copy, Clone, PartialEq, Eq, Structural, Debug)]
pub enum GuiLayoutType {
    VBox,
    HBox,
}

/// A style value for each state of a component.
#[derive(Copy, Clone, PartialEq, Eq, Structural, Debug)]
pub struct GuiComponentStyleBase<T> {
    pub base: T,
    pub hovered: T,
    pub active: T,
}

/// Sets the value of `style` for `state`.
pub fn update_style<T: Copy>(state: GuiStyleState, style: &mut GuiComponentStyleBase<T>, value: T)
    ensures
        *final(style) == match state {
            GuiStyleState::Base => GuiComponentStyleBase { base: value, ..*old(style) },
            GuiStyleState::Hovered => GuiComponentStyleBase { hovered: value, ..*old(style) },
            GuiStyleState::Active => GuiComponentStyleBase { active: value, ..*old(style) },
        },
{
    match state {
        GuiStyleState::Base => {
            style.base = value;
        },
        GuiStyleState::Hovered => {
            style.hovered = value;
        },
        GuiStyleState::Active => {
            style.active = value;
        },
    }
}

/// Converts gui callback values from and to the raw `u64` the gui stores.
pub trait IntoGuiCallback: Sized {
    fn into_u64(self) -> u64;

    fn from_u64(value: u64) -> Self;
}

impl IntoGuiCallback for u64 {
    fn into_u64(self) -> (r: u64)
        ensures
            r == self,
    {
        self
    }

    fn from_u64(value: u64) -> (r: u64)
        ensures
            r == value,
    {
        value
    }
}

/// What the callbacks of a label send.
#[derive(Copy, Clone, PartialEq, Eq, Structural, Debug)]
pub struct GuiLabelCallbackValues {
    pub click: u64,
}

/// The callbacks of a component.
#[derive(Copy, Clone, PartialEq, Eq, Structural, Debug)]
pub enum GuiComponentCallbacksValue {
    Empty,
    Label(GuiLabelCallbackValues),
}

impl GuiComponentCallbacksValue {
    /// Takes the value out, leaving no callbacks behind.
    pub fn take(&mut self) -> (r: Self)
        ensures
            r == *old(self),
            *final(self) == GuiComponentCallbacksValue::Empty,
    {
        let mut other = GuiComponentCallbacksValue::Empty;
        std::mem::swap(self, &mut other);
        other
    }
}

/// Which component is hovered and which is selected.
#[derive(Copy, Clone, PartialEq, Eq, Structural, Debug)]
pub struct GuiComponentState {
    pub hovered_index: u32,
    pub selected_index: u32,
}

impl GuiComponentState {
    /// Nothing hovered nor selected.
    pub fn default() -> (s: Self)
        ensures
            s.hovered_index == u32::MAX,
            s.selected_index == u32::MAX,
    {
        GuiComponentState { hovered_index: u32::MAX, selected_index: u32::MAX }
    }
}

/// The style changes when the state goes from `old` to `new` with `count`
/// components: a newly selected component becomes active; when the
/// selection is dropped the previously selected component goes back to its
/// base style and the hovered one is hovered; without selection, the
/// previously hovered component goes back to its base style and the newly
/// hovered one is hovered. Indices that name no component are left out.
pub open spec fn style_changes(old: GuiComponentState, new: GuiComponentState, count: u32) -> Seq<(u32, GuiStyleState)> {
    let selection = if old.selected_index != new.selected_index {
        if new.selected_index < count {
            seq![(new.selected_index, GuiStyleState::Active)]
        } else {
            (if old.selected_index < count {
                seq![(old.selected_index, GuiStyleState::Base)]
            } else {
                Seq::empty()
            }) + (if new.hovered_index < count {
                seq![(new.hovered_index, GuiStyleState::Hovered)]
            } else {
                Seq::empty()
            })
        }
    } else {
        Seq::empty()
    };
    let hover = if new.selected_index == u32::MAX && old.hovered_index != new.hovered_index {
        (if old.hovered_index < count {
            seq![(old.hovered_index, GuiStyleState::Base)]
        } else {
            Seq::empty()
        }) + (if new.hovered_index < count {
            seq![(new.hovered_index, GuiStyleState::Hovered)]
        } else {
            Seq::empty()
        })
    } else {
        Seq::empty()
    };
    selection + hover
}

/// The style component `i` is shown with in `state`: the selected
/// component is active; without a selection the hovered component is
/// hovered; every other component shows its base style.
pub open spec fn shown_style(state: GuiComponentState, i: int) -> GuiStyleState {
    if i == state.selected_index {
        GuiStyleState::Active
    } else if state.selected_index == u32::MAX && i == state.hovered_index {
        GuiStyleState::Hovered
    } else {
        GuiStyleState::Base
    }
}

/// The styles of the components are those `state` shows.
pub open spec fn styles_shown(styles: Seq<GuiStyleState>, state: GuiComponentState) -> bool {
    forall|i: int| 0 <= i < styles.len() ==> #[trigger] styles[i] == shown_style(state, i)
}

/// The styles after one change: the component it names, if there is one,
/// takes its style.
pub open spec fn apply_style_change(styles: Seq<GuiStyleState>, change: (u32, GuiStyleState)) -> Seq<GuiStyleState> {
    if change.0 < styles.len() {
        styles.update(change.0 as int, change.1)
    } else {
        styles
    }
}

/// The styles after the changes, applied in order.
pub open spec fn apply_style_changes(styles: Seq<GuiStyleState>, changes: Seq<(u32, GuiStyleState)>) -> Seq<
    GuiStyleState,
>
    decreases changes.len(),
{
    if changes.len() == 0 {
        styles
    } else {
        apply_style_change(apply_style_changes(styles, changes.drop_last()), changes.last())
    }
}

/// The state moves by one input: the cursor moves and the selection stays,
/// the button is pressed with nothing selected and the hovered component
/// gets selected, or the button is released and the selection is dropped.
pub open spec fn input_step(old: GuiComponentState, new: GuiComponentState) -> bool {
    ||| new.selected_index == old.selected_index
    ||| old.selected_index == u32::MAX && new.selected_index == old.hovered_index && new.hovered_index
        == old.hovered_index
    ||| new.selected_index == u32::MAX && new.hovered_index == old.hovered_index
}

proof fn lemma_apply_style_changes_push(
    styles: Seq<GuiStyleState>,
    changes: Seq<(u32, GuiStyleState)>,
    c: (u32, GuiStyleState),
)
    ensures
        apply_style_changes(styles, changes.push(c)) == apply_style_change(apply_style_changes(styles, changes), c),
{
    assert(changes.push(c).drop_last() =~= changes);
}

/// The style changes of an input keep the components shown as the state
/// says: if, before the input, each component had the style the old state
/// shows, after the changes each has the style the new state shows. So the
/// previously hovered component loses its hover, and at most one component
/// is hovered and at most one is active.
pub proof fn lemma_style_changes_show_state(
    styles: Seq<GuiStyleState>,
    old: GuiComponentState,
    new: GuiComponentState,
    count: u32,
)
    requires
        styles.len() == count,
        styles_shown(styles, old),
        input_step(old, new),
    ensures
        styles_shown(apply_style_changes(styles, style_changes(old, new, count)), new),
        forall|i: int, j: int|
            0 <= i < count && 0 <= j < count && #[trigger] apply_style_changes(
                styles,
                style_changes(old, new, count),
            )[i] == GuiStyleState::Hovered && #[trigger] apply_style_changes(
                styles,
                style_changes(old, new, count),
            )[j] == GuiStyleState::Hovered ==> i == j,
{
    let ch = style_changes(old, new, count);
    let e = Seq::<(u32, GuiStyleState)>::empty();
    let sel_changed = old.selected_index != new.selected_index;
    let hover_changed = new.selected_index == u32::MAX && old.hovered_index != new.hovered_index;
    // The changes as a list of at most two, in order.
    let (first, second): (Option<(u32, GuiStyleState)>, Option<(u32, GuiStyleState)>) = if sel_changed {
        if new.selected_index < count {
            (Some((new.selected_index, GuiStyleState::Active)), None)
        } else if old.selected_index < count {
            (
                Some((old.selected_index, GuiStyleState::Base)),
                if new.hovered_index < count {
                    Some((new.hovered_index, GuiStyleState::Hovered))
                } else {
                    None
                },
            )
        } else {
            (
                if new.hovered_index < count {
                    Some((new.hovered_index, GuiStyleState::Hovered))
                } else {
                    None
                },
                None,
            )
        }
    } else if hover_changed {
        if old.hovered_index < count {
            (
                Some((old.hovered_index, GuiStyleState::Base)),
                if new.hovered_index < count {
                    Some((new.hovered_index, GuiStyleState::Hovered))
                } else {
                    None
                },
            )
        } else {
            (
                if new.hovered_index < count {
                    Some((new.hovered_index, GuiStyleState::Hovered))
                } else {
                    None
                },
                None,
            )
        }
    } else {
        (None, None)
    };
    // No input changes both the selection and, without selection, the hover.
    assert(!(sel_changed && hover_changed));
    let s1 = match first {
        Some(c) => apply_style_change(styles, c),
        None => styles,
    };
    let s2 = match second {
        Some(c) => apply_style_change(s1, c),
        None => s1,
    };
    assert(apply_style_changes(styles, e) == styles);
    match first {
        Some(c1) => {
            lemma_apply_style_changes_push(styles, e, c1);
            match second {
                Some(c2) => {
                    lemma_apply_style_changes_push(styles, seq![c1], c2);
                    assert(ch =~= seq![c1].push(c2));
                },
                None => {
                    assert(ch =~= e.push(c1));
                },
            }
        },
        None => {
            assert(second is None);
            assert(ch =~= e);
        },
    }
    assert(apply_style_changes(styles, ch) == s2);
    assert forall|i: int| 0 <= i < s2.len() implies #[trigger] s2[i] == shown_style(new, i) by {
        assert(styles[i] == shown_style(old, i));
    }
}

/// The style changes, in order, when the state goes from `old` to `new`
/// with `count` components.
pub fn on_style_update(old: GuiComponentState, new: GuiComponentState, count: u32) -> (r: Vec<(u32, GuiStyleState)>)
    ensures
        r@ == style_changes(old, new, count),
{
    let mut updates: Vec<(u32, GuiStyleState)> = Vec::new();
    if old.selected_index != new.selected_index {
        if new.selected_index < count {
            updates.push((new.selected_index, GuiStyleState::Active));
        } else {
            if old.selected_index < count {
                updates.push((old.selected_index, GuiStyleState::Base));
            }
            if new.hovered_index < count {
                updates.push((new.hovered_index, GuiStyleState::Hovered));
            }
        }
    }
    let ghost mid = updates@;
    if new.selected_index == u32::MAX && old.hovered_index != new.hovered_index {
        if old.hovered_index < count {
            updates.push((old.hovered_index, GuiStyleState::Base));
        }
        if new.hovered_index < count {
            updates.push((new.hovered_index, GuiStyleState::Hovered));
        }
    }
    proof {
        assert(updates@ =~= style_changes(old, new, count));
    }
    updates
}

/// The value of `style` for `state`.
pub open spec fn style_of_state<T>(style: GuiComponentStyleBase<T>, state: GuiStyleState) -> T {
    match state {
        GuiStyleState::Base => style.base,
        GuiStyleState::Hovered => style.hovered,
        GuiStyleState::Active => style.active,
    }
}

/// The value of `style` for `state`: what a component shows once a style
/// change puts it in that state.
pub fn style_value<T: Copy>(style: &GuiComponentStyleBase<T>, state: GuiStyleState) -> (r: T)
    ensures
        r == style_of_state(*style, state),
{
    match state {
        GuiStyleState::Base => style.base,
        GuiStyleState::Hovered => style.hovered,
        GuiStyleState::Active => style.active,
    }
}

/// The font style a label takes for `state`, from its style at
/// `style_index`; the label's colour comes from it. A label's style is
/// always a font style.
pub fn label_state_style<F: Copy, R: Copy>(styles: &[GuiComponentStyle<F, R>], style_index: u32, state: GuiStyleState) -> (r: F)
    requires
        style_index < styles@.len(),
        styles@[style_index as int] is Font,
    ensures
        match styles@[style_index as int] {
            GuiComponentStyle::Font(style) => r == style_of_state(style, state),
            GuiComponentStyle::Frame(_) => false,
        },
{
    match &styles[style_index as usize] {
        GuiComponentStyle::Font(style) => style_value(style, state),
        GuiComponentStyle::Frame(_) => vstd::pervasive::unreached(),
    }
}

/// The frame style a frame takes for `state`, from its style at
/// `style_index`; the frame's texture, region and colour come from it. A
/// frame's style is always a frame style.
pub fn frame_state_style<F: Copy, R: Copy>(styles: &[GuiComponentStyle<F, R>], style_index: u32, state: GuiStyleState) -> (r: R)
    requires
        style_index < styles@.len(),
        styles@[style_index as int] is Frame,
    ensures
        match styles@[style_index as int] {
            GuiComponentStyle::Frame(style) => r == style_of_state(style, state),
            GuiComponentStyle::Font(_) => false,
        },
{
    match &styles[style_index as usize] {
        GuiComponentStyle::Frame(style) => style_value(style, state),
        GuiComponentStyle::Font(_) => vstd::pervasive::unreached(),
    }
}

/// The component under the cursor: the last one whose area holds it, given
/// for each component whether it does; `u32::MAX` when none does.
pub open spec fn hovered_component(inside: Seq<bool>) -> u32
    decreases inside.len(),
{
    if inside.len() == 0 {
        u32::MAX
    } else if inside.last() {
        (inside.len() - 1) as u32
    } else {
        hovered_component(inside.drop_last())
    }
}

/// The state after the left button is pressed or released: pressing
/// selects the hovered component, releasing drops the selection.
pub open spec fn mouse_state(state: GuiComponentState, pressed: bool) -> GuiComponentState {
    GuiComponentState { selected_index: if pressed { state.hovered_index } else { u32::MAX }, ..state }
}

/// The component clicked when the left button is pressed or released:
/// releasing over the selected component clicks it.
pub open spec fn mouse_click(state: GuiComponentState, pressed: bool) -> Option<u32> {
    if !pressed && state.selected_index != u32::MAX && state.selected_index == state.hovered_index {
        Some(state.selected_index)
    } else {
        None
    }
}

/// The result of an input on a gui: the new state, the style changes, and
/// whether the gui must be sent to the engine again.
pub struct GuiInputOutcome {
    pub state: GuiComponentState,
    pub style_updates: Vec<(u32, GuiStyleState)>,
    pub need_sync: bool,
}

/// The cursor moved; `inside` says for each component whether its area
/// holds the cursor. When the hovered component changes, the styles change
/// and the gui must be synced.
pub fn update_cursor_position(state: GuiComponentState, inside: &[bool], count: u32) -> (r: GuiInputOutcome)
    requires
        inside@.len() < u32::MAX,
    ensures
        ({
            let hovered = hovered_component(inside@);
            if state.hovered_index != hovered {
                let new = GuiComponentState { hovered_index: hovered, ..state };
                &&& r.state == new
                &&& r.style_updates@ == style_changes(state, new, count)
                &&& r.need_sync
            } else {
                &&& r.state == state
                &&& r.style_updates@.len() == 0
                &&& !r.need_sync
            }
        }),
{
    let mut new_hovered_index: u32 = u32::MAX;
    let mut index: usize = 0;
    while index < inside.len()
        invariant
            index <= inside@.len(),
            inside@.len() < u32::MAX,
            new_hovered_index == hovered_component(inside@.take(index as int)),
        decreases inside@.len() - index,
    {
        proof {
            assert(inside@.take(index + 1).drop_last() =~= inside@.take(index as int));
        }
        if inside[index] {
            new_hovered_index = index as u32;
        }
        index = index + 1;
    }
    proof {
        assert(inside@.take(inside@.len() as int) =~= inside@);
    }
    if state.hovered_index != new_hovered_index {
        let new = GuiComponentState { hovered_index: new_hovered_index, ..state };
        let style_updates = on_style_update(state, new, count);
        GuiInputOutcome { state: new, style_updates, need_sync: true }
    } else {
        GuiInputOutcome { state, style_updates: Vec::new(), need_sync: false }
    }
}

/// The left mouse button is now pressed or released. Pressing selects the
/// hovered component, releasing drops the selection; a change of selection
/// changes the styles and asks for a sync. Releasing over the selected
/// component clicks it: its index is returned.
pub fn update_mouse_button(state: GuiComponentState, left_button_pressed: bool, count: u32) -> (r: (
    GuiInputOutcome,
    Option<u32>,
))
    ensures
        ({
            let new = mouse_state(state, left_button_pressed);
            if state.selected_index != new.selected_index {
                &&& r.0.state == new
                &&& r.0.style_updates@ == style_changes(state, new, count)
                &&& r.0.need_sync
            } else {
                &&& r.0.state == state
                &&& r.0.style_updates@.len() == 0
                &&& !r.0.need_sync
            }
        }),
        r.1 == mouse_click(state, left_button_pressed),
{
    let mut new_selected_index = u32::MAX;
    if left_button_pressed {
        new_selected_index = state.hovered_index;
    }
    let outcome = if state.selected_index != new_selected_index {
        let new = GuiComponentState { selected_index: new_selected_index, ..state };
        let style_updates = on_style_update(state, new, count);
        GuiInputOutcome { state: new, style_updates, need_sync: true }
    } else {
        GuiInputOutcome { state, style_updates: Vec::new(), need_sync: false }
    };
    let click = if !left_button_pressed && state.selected_index != u32::MAX {
        if state.selected_index == state.hovered_index {
            Some(state.selected_index)
        } else {
            None
        }
    } else {
        None
    };
    (outcome, click)
}

/// Where a component finds its callbacks and its style.
#[derive(Copy, Clone, PartialEq, Eq, Structural, Debug)]
pub struct GuiComponentBase {
    pub callbacks_index: u32,
    pub style_index: u32,
}

/// The value a click on a component sends, if any: the click value of its
/// label callbacks.
pub open spec fn click_output(
    bases: Seq<GuiComponentBase>,
    callbacks: Seq<GuiComponentCallbacksValue>,
    component: int,
) -> Option<u64> {
    let b = bases[component];
    if b.callbacks_index == u32::MAX {
        None
    } else {
        match callbacks[b.callbacks_index as int] {
            GuiComponentCallbacksValue::Empty => None,
            GuiComponentCallbacksValue::Label(values) => Some(values.click),
        }
    }
}

/// A click on `component`: sends the click value of its callbacks, if it
/// has any, to `output`.
pub fn on_click(
    bases: &[GuiComponentBase],
    callbacks: &[GuiComponentCallbacksValue],
    output: &mut Vec<u64>,
    component: usize,
)
    requires
        component < bases@.len(),
        bases@[component as int].callbacks_index != u32::MAX ==> bases@[component as int].callbacks_index
            < callbacks@.len(),
    ensures
        final(output)@ == match click_output(bases@, callbacks@, component as int) {
            Some(v) => old(output)@.push(v),
            None => old(output)@,
        },
{
    let base = bases[component];
    if base.callbacks_index != u32::MAX {
        match callbacks[base.callbacks_index as usize] {
            GuiComponentCallbacksValue::Empty => {},
            GuiComponentCallbacksValue::Label(values) => {
                output.push(values.click);
            },
        }
    }
}

/// Hands out the callback values sent so far, in order, and forgets them.
pub fn drain_events(output: &mut Vec<u64>) -> (r: Vec<u64>)
    ensures
        r@ == old(output)@,
        final(output)@.len() == 0,
{
    let mut events: Vec<u64> = Vec::new();
    std::mem::swap(output, &mut events);
    events
}

/// Every style change names an existing component.
pub proof fn lemma_style_changes_in_range(old: GuiComponentState, new: GuiComponentState, count: u32)
    ensures
        forall|k: int|
            0 <= k < style_changes(old, new, count).len() ==> (#[trigger] style_changes(old, new, count)[k]).0 < count,
{
}

/// A press then a release over the same component clicks it; when the
/// cursor left for another component in between, nothing is clicked.
pub proof fn lemma_press_release_clicks(h: u32, g: u32)
    requires
        h != u32::MAX,
        g != h,
    ensures
        ({
            let start = GuiComponentState { hovered_index: h, selected_index: u32::MAX };
            let pressed = mouse_state(start, true);
            &&& pressed.selected_index == h
            &&& mouse_click(start, true) is None
            &&& mouse_click(pressed, false) == Some(h)
            &&& mouse_state(pressed, false).selected_index == u32::MAX
            &&& mouse_click(GuiComponentState { hovered_index: g, ..pressed }, false) is None
        }),
{
}


//
// Label text
//

/// The extended grapheme clusters of `text`, in order, as
/// `unicode_segmentation` splits them.
pub uninterp spec fn grapheme_clusters(text: Seq<char>) -> Seq<Seq<char>>;

/// The texts of `parts` one after another.
pub open spec fn concat_texts(parts: Seq<Seq<char>>) -> Seq<char>
    decreases parts.len(),
{
    if parts.len() == 0 {
        Seq::empty()
    } else {
        concat_texts(parts.drop_last()) + parts.last()
    }
}

/// Splits `text` with `UnicodeSegmentation::graphemes(text, true)`. The
/// result is believed to be the named `grapheme_clusters` of the text; as
/// the crate's iterator hands out consecutive non empty slices of the text
/// from its start to its end, the clusters are not empty and give back the
/// text one after another.
#[verifier::external_body]
fn split_graphemes(text: &str) -> (r: Vec<String>)
    ensures
        r@.map_values(|g: String| g@) == grapheme_clusters(text@),
        concat_texts(r@.map_values(|g: String| g@)) == text@,
        forall|i: int| 0 <= i < r@.len() ==> (#[trigger] r@[i])@.len() > 0,
{
    let mut out = Vec::new();
    for g in text.graphemes(true) {
        out.push(g.to_string());
    }
    out
}

/// The graphemes a label draws, one glyph each: the extended grapheme
/// clusters of its text, in order.
pub fn label_graphemes(text: &str) -> (r: Vec<String>)
    ensures
        r@.map_values(|g: String| g@) == grapheme_clusters(text@),
        concat_texts(r@.map_values(|g: String| g@)) == text@,
        forall|i: int| 0 <= i < r@.len() ==> (#[trigger] r@[i])@.len() > 0,
{
    split_graphemes(text)
}


//
// Styles
//

/// The style of a component: a font style for labels, a frame style for
/// frames, each with a value per state.
#[derive(Copy, Clone)]
pub enum GuiComponentStyle<F, R> {
    Font(GuiComponentStyleBase<F>),
    Frame(GuiComponentStyleBase<R>),
}

/// Errors of the style builder.
#[derive(Copy, Clone, PartialEq, Eq, Structural, Debug)]
pub enum GuiStyleError {
    /// The font of a font style is not an asset of the game.
    MissingFont,
    /// The texture of a frame style is not an asset of the game.
    MissingTexture,
}

/// The styles of a gui, found by name: font styles and frame styles have
/// names of their own.
pub struct GuiStyleBuilder<F, R> {
    pub font_styles: NameIndex,
    pub frame_styles: NameIndex,
    pub styles: Vec<GuiComponentStyle<F, R>>,
    pub root_layout_type: GuiLayoutType,
}

/// `style` with the value of `state` set to `value`.
pub open spec fn style_with<T>(style: GuiComponentStyleBase<T>, state: GuiStyleState, value: T) -> GuiComponentStyleBase<T> {
    match state {
        GuiStyleState::Base => GuiComponentStyleBase { base: value, ..style },
        GuiStyleState::Hovered => GuiComponentStyleBase { hovered: value, ..style },
        GuiStyleState::Active => GuiComponentStyleBase { active: value, ..style },
    }
}

impl<F: Copy, R: Copy> GuiStyleBuilder<F, R> {
    /// Every named style exists and is of its kind.
    pub open spec fn wf(&self) -> bool {
        &&& forall|k: Seq<char>|
            #![trigger self.font_styles.contents()[k]]
            self.font_styles.contents().contains_key(k) ==> {
                let i = self.font_styles.contents()[k] as int;
                i < self.styles@.len() && self.styles@[i] is Font
            }
        &&& forall|k: Seq<char>|
            #![trigger self.frame_styles.contents()[k]]
            self.frame_styles.contents().contains_key(k) ==> {
                let i = self.frame_styles.contents()[k] as int;
                i < self.styles@.len() && self.styles@[i] is Frame
            }
    }

    /// A builder with no style.
    pub fn new() -> (b: Self)
        ensures
            b.wf(),
            b.font_styles.contents() == Map::<Seq<char>, u32>::empty(),
            b.frame_styles.contents() == Map::<Seq<char>, u32>::empty(),
            b.styles@.len() == 0,
            b.root_layout_type == GuiLayoutType::VBox,
    {
        GuiStyleBuilder {
            font_styles: NameIndex::new(),
            frame_styles: NameIndex::new(),
            styles: Vec::new(),
            root_layout_type: GuiLayoutType::VBox,
        }
    }

    /// Forgets the style names before the styles of a gui are built again;
    /// the root layout goes back to a column. The styles themselves stay.
    pub fn clear_gui_styles(&mut self)
        ensures
            final(self).wf(),
            final(self).font_styles.contents() == Map::<Seq<char>, u32>::empty(),
            final(self).frame_styles.contents() == Map::<Seq<char>, u32>::empty(),
            final(self).styles@ == old(self).styles@,
            final(self).root_layout_type == GuiLayoutType::VBox,
    {
        self.font_styles.clear();
        self.frame_styles.clear();
        self.root_layout_type = GuiLayoutType::VBox;
    }

    /// Sets the layout of the root elements of the gui.
    pub fn root_layout(&mut self, ty: GuiLayoutType)
        ensures
            final(self).root_layout_type == ty,
            final(self).font_styles == old(self).font_styles,
            final(self).frame_styles == old(self).frame_styles,
            final(self).styles@ == old(self).styles@,
    {
        self.root_layout_type = ty;
    }

    /// Sets the font style `style_key` for `state` to `value`; `None` is a
    /// font that is not an asset, which is an error. A new name gets a new
    /// style with `value` for every state.
    pub fn font(&mut self, style_key: &str, state: GuiStyleState, value: Option<F>) -> (r: Result<(), GuiStyleError>)
        requires
            old(self).wf(),
            old(self).styles@.len() < u32::MAX,
        ensures
            final(self).wf(),
            final(self).frame_styles == old(self).frame_styles,
            final(self).root_layout_type == old(self).root_layout_type,
            match value {
                None => {
                    &&& r == Err::<(), GuiStyleError>(GuiStyleError::MissingFont)
                    &&& final(self).font_styles == old(self).font_styles
                    &&& final(self).styles@ == old(self).styles@
                },
                Some(v) => {
                    &&& r is Ok
                    &&& if old(self).font_styles.contents().contains_key(style_key@) {
                        let i = old(self).font_styles.contents()[style_key@] as int;
                        &&& final(self).font_styles == old(self).font_styles
                        &&& old(self).styles@[i] matches GuiComponentStyle::Font(s)
                            && final(self).styles@ == old(self).styles@.update(i, GuiComponentStyle::Font(style_with(s, state, v)))
                    } else {
                        &&& final(self).font_styles.contents() == old(self).font_styles.contents().insert(
                            style_key@,
                            old(self).styles@.len() as u32,
                        )
                        &&& final(self).styles@ == old(self).styles@.push(
                            GuiComponentStyle::Font(GuiComponentStyleBase { base: v, hovered: v, active: v }),
                        )
                    }
                },
            },
    {
        let v = match value {
            Some(v) => v,
            None => {
                return Err(GuiStyleError::MissingFont);
            },
        };
        match self.font_styles.get(style_key) {
            Some(index) => {
                let i = index as usize;
                proof {
                    assert(self.font_styles.contents().contains_key(style_key@));
                }
                match self.styles[i] {
                    GuiComponentStyle::Font(mut s) => {
                        update_style(state, &mut s, v);
                        self.styles.set(i, GuiComponentStyle::Font(s));
                    },
                    GuiComponentStyle::Frame(_) => {
                        proof {
                            assert(false);
                        }
                    },
                }
                proof {
                    assert forall|k: Seq<char>|
                        #![trigger self.frame_styles.contents()[k]]
                        self.frame_styles.contents().contains_key(k) implies ({
                            let j = self.frame_styles.contents()[k] as int;
                            j < self.styles@.len() && self.styles@[j] is Frame
                        }) by {
                        let j = self.frame_styles.contents()[k] as int;
                        assert(old(self).styles@[j] is Frame);
                    }
                }
            },
            None => {
                let index = self.styles.len() as u32;
                self.font_styles.insert(style_key, index);
                self.styles.push(GuiComponentStyle::Font(GuiComponentStyleBase { base: v, hovered: v, active: v }));
            },
        }
        Ok(())
    }

    /// Sets the frame style `style_key` for `state` to `value`; `None` is a
    /// texture that is not an asset, which is an error. A new name gets a
    /// new style with `value` for every state.
    pub fn frame(&mut self, style_key: &str, state: GuiStyleState, value: Option<R>) -> (r: Result<(), GuiStyleError>)
        requires
            old(self).wf(),
            old(self).styles@.len() < u32::MAX,
        ensures
            final(self).wf(),
            final(self).font_styles == old(self).font_styles,
            final(self).root_layout_type == old(self).root_layout_type,
            match value {
                None => {
                    &&& r == Err::<(), GuiStyleError>(GuiStyleError::MissingTexture)
                    &&& final(self).frame_styles == old(self).frame_styles
                    &&& final(self).styles@ == old(self).styles@
                },
                Some(v) => {
                    &&& r is Ok
                    &&& if old(self).frame_styles.contents().contains_key(style_key@) {
                        let i = old(self).frame_styles.contents()[style_key@] as int;
                        &&& final(self).frame_styles == old(self).frame_styles
                        &&& old(self).styles@[i] matches GuiComponentStyle::Frame(s)
                            && final(self).styles@ == old(self).styles@.update(i, GuiComponentStyle::Frame(style_with(s, state, v)))
                    } else {
                        &&& final(self).frame_styles.contents() == old(self).frame_styles.contents().insert(
                            style_key@,
                            old(self).styles@.len() as u32,
                        )
                        &&& final(self).styles@ == old(self).styles@.push(
                            GuiComponentStyle::Frame(GuiComponentStyleBase { base: v, hovered: v, active: v }),
                        )
                    }
                },
            },
    {
        let v = match value {
            Some(v) => v,
            None => {
                return Err(GuiStyleError::MissingTexture);
            },
        };
        match self.frame_styles.get(style_key) {
            Some(index) => {
                let i = index as usize;
                proof {
                    assert(self.frame_styles.contents().contains_key(style_key@));
                }
                match self.styles[i] {
                    GuiComponentStyle::Frame(mut s) => {
                        update_style(state, &mut s, v);
                        self.styles.set(i, GuiComponentStyle::Frame(s));
                    },
                    GuiComponentStyle::Font(_) => {
                        proof {
                            assert(false);
                        }
                    },
                }
                proof {
                    assert forall|k: Seq<char>|
                        #![trigger self.font_styles.contents()[k]]
                        self.font_styles.contents().contains_key(k) implies ({
                            let j = self.font_styles.contents()[k] as int;
                            j < self.styles@.len() && self.styles@[j] is Font
                        }) by {
                        let j = self.font_styles.contents()[k] as int;
                        assert(old(self).styles@[j] is Font);
                    }
                }
            },
            None => {
                let index = self.styles.len() as u32;
                self.frame_styles.insert(style_key, index);
                self.styles.push(GuiComponentStyle::Frame(GuiComponentStyleBase { base: v, hovered: v, active: v }));
            },
        }
        Ok(())
    }
}

} // verus!
