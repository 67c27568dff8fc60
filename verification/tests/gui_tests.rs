use loomz::gui_batch::{
    build, build_batches, find_first_sprite_type, generate_indices, groups, GuiBatch, GuiError, GuiGroup,
    GuiSpriteType, GuiView, GuiViewSprite, GuiViews,
};
use loomz::gui_state::{
    drain_events, label_graphemes, on_click, on_style_update, update_cursor_position, update_mouse_button,
    update_style, style_value, label_state_style, frame_state_style, GuiComponentStyle, GuiComponentBase, GuiComponentCallbacksValue, GuiComponentState, GuiComponentStyleBase,
    GuiLabelCallbackValues, GuiLayoutPosition, GuiLayoutType, GuiStyleState, IntoGuiCallback,
};

fn font(id: u64, view: u64) -> GuiViewSprite {
    GuiViewSprite { image_view: view, ty: GuiSpriteType::Font(id) }
}

fn image(id: u64, view: u64) -> GuiViewSprite {
    GuiViewSprite { image_view: view, ty: GuiSpriteType::Image(id) }
}

fn view(id: u32, visible: bool, sprites: Vec<GuiViewSprite>) -> GuiView {
    GuiView { sprites, id, visible }
}

#[test]
fn first_sprite_type_skips_hidden_and_empty() {
    let guis = vec![view(1, false, vec![font(1, 10)]), view(2, true, vec![]), view(3, true, vec![image(4, 40)])];
    assert_eq!(find_first_sprite_type(&guis), (Some(GuiSpriteType::Image(4)), 2));
    let none = vec![view(1, false, vec![font(1, 10)])];
    assert_eq!(find_first_sprite_type(&none), (None, 1));
}

#[test]
fn groups_insert_empty_group_on_kind_change() {
    let guis = vec![
        view(1, true, vec![image(1, 10), image(1, 10), font(2, 20)]),
        view(2, false, vec![image(9, 90)]),
        view(3, true, vec![font(2, 20), image(1, 10)]),
    ];
    let g = groups(&guis);
    let expected = vec![
        GuiGroup { ty: GuiSpriteType::Image(1), set: 10, gui: 0, start: 0, stop: 2 },
        GuiGroup { ty: GuiSpriteType::Font(2), set: 20, gui: 0, start: 2, stop: 2 },
        GuiGroup { ty: GuiSpriteType::Font(2), set: 20, gui: 0, start: 2, stop: 3 },
        GuiGroup { ty: GuiSpriteType::Font(2), set: 20, gui: 2, start: 0, stop: 1 },
        GuiGroup { ty: GuiSpriteType::Image(1), set: 10, gui: 2, start: 1, stop: 1 },
        GuiGroup { ty: GuiSpriteType::Image(1), set: 10, gui: 2, start: 1, stop: 2 },
    ];
    assert_eq!(g, expected);
}

#[test]
fn batches_follow_groups() {
    let g = vec![
        GuiGroup { ty: GuiSpriteType::Image(1), set: 10, gui: 0, start: 0, stop: 2 },
        GuiGroup { ty: GuiSpriteType::Font(2), set: 20, gui: 0, start: 2, stop: 2 },
        GuiGroup { ty: GuiSpriteType::Font(2), set: 20, gui: 0, start: 2, stop: 3 },
    ];
    let b = build_batches(&g, 111, 222);
    assert_eq!(
        b,
        vec![
            GuiBatch { pipeline: 222, set: 10, index_count: 12, first_index: 0 },
            GuiBatch { pipeline: 111, set: 20, index_count: 0, first_index: 12 },
            GuiBatch { pipeline: 111, set: 20, index_count: 6, first_index: 12 },
        ]
    );
}

#[test]
fn indices_of_quads() {
    let mut indices = vec![0u32; 20];
    generate_indices(&mut indices, 1, 8, 2);
    assert_eq!(&indices[0..14], &[0, 8, 9, 10, 10, 11, 9, 12, 13, 14, 14, 15, 13, 0]);
}

#[test]
fn build_writes_all_indices() {
    let guis = vec![view(1, true, vec![image(1, 10), font(2, 20)])];
    let mut indices = vec![u32::MAX; 20];
    let (g, b, index_count, vertex_count) = build(&guis, 1, 2, &mut indices);
    assert_eq!(g.len(), 3);
    assert_eq!(b.len(), 3);
    assert_eq!(index_count, 12);
    assert_eq!(vertex_count, 8);
    assert_eq!(&indices[0..13], &[0, 1, 2, 2, 3, 1, 4, 5, 6, 6, 7, 5, u32::MAX]);
}

#[test]
fn gui_views_updates() {
    let mut views = GuiViews::new();
    let a = views.gui_index_or_create(42);
    let b = views.gui_index_or_create(7);
    assert_eq!((a, b), (0, 1));
    assert_eq!(views.gui_index_or_create(42), 0);
    assert!(views.gui[0].visible);
    assert!(!views.update_batches);
    assert_eq!(views.toggle_gui_visibility(1, false), Ok(()));
    assert!(!views.gui[1].visible);
    assert!(views.update_batches);
    assert_eq!(views.set_gui_sprites(0, vec![font(1, 2)]), Ok(()));
    assert_eq!(views.gui[0].sprites, vec![font(1, 2)]);
    assert_eq!(views.toggle_gui_visibility(5, true), Err(GuiError::MissingGui(5)));
    assert_eq!(views.set_gui_sprites(5, vec![]), Err(GuiError::MissingGui(5)));
}

#[test]
fn style_values_per_state() {
    let mut style = GuiComponentStyleBase { base: 1u32, hovered: 1, active: 1 };
    update_style(GuiStyleState::Hovered, &mut style, 5);
    update_style(GuiStyleState::Active, &mut style, 9);
    assert_eq!(style, GuiComponentStyleBase { base: 1, hovered: 5, active: 9 });
    update_style(GuiStyleState::Base, &mut style, 2);
    assert_eq!(style.base, 2);
}

#[test]
fn callbacks_take_leaves_nothing() {
    let mut value = GuiComponentCallbacksValue::Label(GuiLabelCallbackValues { click: 1000 });
    let taken = value.take();
    assert_eq!(taken, GuiComponentCallbacksValue::Label(GuiLabelCallbackValues { click: 1000 }));
    assert_eq!(value, GuiComponentCallbacksValue::Empty);
    assert_eq!(1001u64.into_u64(), 1001);
    assert_eq!(<u64 as IntoGuiCallback>::from_u64(1001), 1001);
}

#[test]
fn hover_and_click() {
    let state = GuiComponentState::default();
    assert_eq!((state.hovered_index, state.selected_index), (u32::MAX, u32::MAX));

    // cursor over components 1 and 2: the last one wins
    let moved = update_cursor_position(state, &[false, true, true], 3);
    assert_eq!(moved.state.hovered_index, 2);
    assert_eq!(moved.style_updates, vec![(2, GuiStyleState::Hovered)]);
    assert!(moved.need_sync);

    let same = update_cursor_position(moved.state, &[false, false, true], 3);
    assert!(!same.need_sync);
    assert!(same.style_updates.is_empty());

    let (pressed, click) = update_mouse_button(moved.state, true, 3);
    assert_eq!(pressed.state.selected_index, 2);
    assert_eq!(pressed.style_updates, vec![(2, GuiStyleState::Active)]);
    assert_eq!(click, None);

    let (released, click) = update_mouse_button(pressed.state, false, 3);
    assert_eq!(released.state.selected_index, u32::MAX);
    assert_eq!(released.style_updates, vec![(2, GuiStyleState::Base), (2, GuiStyleState::Hovered)]);
    assert_eq!(click, Some(2));
}

#[test]
fn release_elsewhere_does_not_click() {
    let state = GuiComponentState { hovered_index: 0, selected_index: 1 };
    let (released, click) = update_mouse_button(state, false, 3);
    assert_eq!(click, None);
    assert_eq!(released.style_updates, vec![(1, GuiStyleState::Base), (0, GuiStyleState::Hovered)]);
}

#[test]
fn style_changes_skip_missing_components() {
    let old = GuiComponentState { hovered_index: 7, selected_index: u32::MAX };
    let new = GuiComponentState { hovered_index: 1, selected_index: u32::MAX };
    assert_eq!(on_style_update(old, new, 3), vec![(1, GuiStyleState::Hovered)]);
}

#[test]
fn click_sends_label_callback() {
    let bases = vec![
        GuiComponentBase { callbacks_index: u32::MAX, style_index: 0 },
        GuiComponentBase { callbacks_index: 0, style_index: 1 },
    ];
    let callbacks = vec![GuiComponentCallbacksValue::Label(GuiLabelCallbackValues { click: 1001 })];
    let mut output = Vec::new();
    on_click(&bases, &callbacks, &mut output, 0);
    assert!(output.is_empty());
    on_click(&bases, &callbacks, &mut output, 1);
    on_click(&bases, &callbacks, &mut output, 1);
    assert_eq!(drain_events(&mut output), vec![1001, 1001]);
    assert!(output.is_empty());
}

#[test]
fn graphemes_of_label() {
    let g = label_graphemes("a\r\nb\u{1F1F7}\u{1F1FA}e\u{301}");
    assert_eq!(g, vec!["a".to_string(), "\r\n".to_string(), "b".to_string(), "\u{1F1F7}\u{1F1FA}".to_string(), "e\u{301}".to_string()]);
    assert_eq!(g.concat(), "a\r\nb\u{1F1F7}\u{1F1FA}e\u{301}");
    assert!(label_graphemes("").is_empty());
}

#[test]
fn layout_enums() {
    assert_ne!(GuiLayoutType::VBox, GuiLayoutType::HBox);
    assert_ne!(GuiLayoutPosition::TopLeft, GuiLayoutPosition::Center);
}

#[test]
fn every_visible_sprite_gets_a_quad() {
    let guis = vec![
        view(1, true, vec![image(1, 10), image(1, 10), font(2, 20)]),
        view(2, false, vec![image(9, 90), image(9, 90)]),
        view(3, true, vec![font(2, 20), image(1, 10)]),
    ];
    let mut indices = vec![0u32; 64];
    let (_, batches, index_count, vertex_count) = build(&guis, 1, 2, &mut indices);
    // Five visible sprites: the hidden gui draws nothing.
    assert_eq!(index_count, 30);
    assert_eq!(vertex_count, 20);
    let drawn: u32 = batches.iter().map(|b| b.index_count).sum();
    assert_eq!(drawn, 30);
}

#[test]
fn component_takes_the_style_of_its_state() {
    let label = GuiComponentStyleBase { base: [71u8, 43, 26, 255], hovered: [71, 26, 26, 255], active: [110, 34, 34, 255] };
    assert_eq!(style_value(&label, GuiStyleState::Base), [71, 43, 26, 255]);
    assert_eq!(style_value(&label, GuiStyleState::Hovered), [71, 26, 26, 255]);
    assert_eq!(style_value(&label, GuiStyleState::Active), [110, 34, 34, 255]);
    let frame = GuiComponentStyleBase { base: 7u64, hovered: 8, active: 9 };
    let styles: Vec<GuiComponentStyle<[u8; 4], u64>> = vec![GuiComponentStyle::Frame(frame), GuiComponentStyle::Font(label)];
    assert_eq!(label_state_style(&styles, 1, GuiStyleState::Hovered), [71, 26, 26, 255]);
    assert_eq!(frame_state_style(&styles, 0, GuiStyleState::Active), 9);
}
