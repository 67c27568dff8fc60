use loomz::client::{
    debug_flags_from_u32,
    animation_last_frame, animation_sheet_entries, debug_gui_event_exits, editor_inputs, editor_menu_action,
    main_menu_action, menu_events_action, parse_u32, select_animation_entries, load_animation_sheet, AnimationLoadError,
    toggle_debug_flags, AnimationEntryDoc, AnimationSheet, AnimationSheetDoc, EditorStep, GameInputFlags, GameState, MenuAction,
    PawnAnimation, PawnAnimationType, SelectedAnimation, WarriorAnimation, DRAGGING_VIEW, EXIT_EDITOR, EXIT_GAME,
    EXIT_GAMEPLAY, RETURN_EDITOR, RETURN_GAMEPLAY, SHOW_MAIN_GRID, SHOW_MAIN_GRID_TYPES, SHOW_SUB_GRID,
    START_GAME, START_SANDBOX,
};

#[test]
fn game_state_codes() {
    let states = [GameState::Uninitialized, GameState::MainMenu, GameState::Game, GameState::Editor];
    for (code, state) in states.iter().enumerate() {
        assert_eq!(u32::from(*state), code as u32);
        assert_eq!(GameState::from(code as u32), *state);
    }
    assert_eq!(GameState::from(17u32), GameState::Uninitialized);
}

#[test]
fn pawn_animation_codes() {
    let all = [
        PawnAnimationType::Idle,
        PawnAnimationType::Walk,
        PawnAnimationType::Hammer,
        PawnAnimationType::Axe,
        PawnAnimationType::IdleHold,
        PawnAnimationType::IdleWalk,
    ];
    for (code, a) in all.iter().enumerate() {
        assert_eq!(u32::from(*a), code as u32);
        assert_eq!(PawnAnimationType::from(code as u32), *a);
    }
    assert_eq!(PawnAnimationType::from(6u32), PawnAnimationType::Idle);
    assert_eq!(PawnAnimationType::default(), PawnAnimationType::Idle);
}

#[test]
fn input_flag_codes() {
    assert_eq!(GameInputFlags::from_u32(1).bits, DRAGGING_VIEW);
    assert_eq!(GameInputFlags::from_u32(0).bits, 0);
    // unknown bits read as no flag
    assert_eq!(GameInputFlags::from_u32(3).bits, 0);
    // only the low byte is read
    assert_eq!(GameInputFlags::from_u32(0x101).bits, 1);
    assert_eq!(GameInputFlags::from_u32(1).to_u32(), 1);
    assert_eq!(GameInputFlags::empty().to_u32(), 0);
}

#[test]
fn debug_keys_toggle_flags() {
    assert_eq!(toggle_debug_flags(0, true, false, true), (SHOW_MAIN_GRID | SHOW_MAIN_GRID_TYPES, true));
    assert_eq!(toggle_debug_flags(SHOW_MAIN_GRID, true, true, false), (SHOW_SUB_GRID, true));
    assert_eq!(toggle_debug_flags(5, false, false, false), (5, false));
    let (once, _) = toggle_debug_flags(2, true, true, true);
    assert_eq!(toggle_debug_flags(once, true, true, true).0, 2);
    assert!(debug_gui_event_exits(1001));
    assert!(!debug_gui_event_exits(1000));
}

fn pawn() -> PawnAnimation {
    PawnAnimation { idle: 1, walk: 2, hammer: 3, axe: 4, idle_hold: 5, idle_walk: 6 }
}

fn warrior() -> WarriorAnimation {
    WarriorAnimation { idle: 11, walk: 12, strike_h1: 13, strike_h2: 14, strike_b1: 15, strike_b2: 16, strike_t1: 17, strike_t2: 18 }
}

#[test]
fn animation_names() {
    let p = pawn();
    assert_eq!(p.map_id(&"hammer".to_string()), Some(3));
    assert_eq!(p.map_id(&"idle_walk".to_string()), Some(6));
    assert_eq!(p.map_id(&"strike-top-1".to_string()), None);
    let w = warrior();
    assert_eq!(w.map_id(&"strike-top-1".to_string()), Some(17));
    assert_eq!(w.map_id(&"walk".to_string()), Some(12));
    assert_eq!(w.map_id(&"axe".to_string()), None);
}

#[test]
fn last_frames() {
    assert_eq!(animation_last_frame(Some(6)), Some(5));
    assert_eq!(animation_last_frame(Some(0)), None);
    assert_eq!(animation_last_frame(None), None);
    // the count is truncated to 32 bits, then the last frame to 8 bits
    assert_eq!(animation_last_frame(Some(0x1_0000_0000)), None);
    assert_eq!(animation_last_frame(Some(300)), Some(43));
}

#[test]
fn entries_selection() {
    let names = vec![Some("idle".to_string()), Some("nope".to_string()), None, Some("walk".to_string()), Some("axe".to_string())];
    let counts = vec![Some(4), Some(4), Some(4), None, Some(2)];
    let selected = select_animation_entries(&AnimationSheet::Pawn(pawn()), &names, &counts);
    assert_eq!(
        selected,
        vec![
            SelectedAnimation { entry: 0, id: 1, last_frame: 3 },
            SelectedAnimation { entry: 4, id: 4, last_frame: 1 },
        ]
    );
}

fn entry(name: Option<&str>, count: Option<u64>) -> AnimationEntryDoc {
    AnimationEntryDoc { name: name.map(|n| n.to_string()), count }
}

#[test]
fn animation_sheet_json() {
    // {"asset": "warrior_sheet", "animations": [{"name": "idle", "count": 6}, {"name": "strike-horz-2",
    // "count": 4}, {"name": "dance", "count": 3}, {"name": "walk", "count": -2}, {"count": 5}]}
    let doc = AnimationSheetDoc {
        asset: Some("warrior_sheet".to_string()),
        animations: Some(vec![
            entry(Some("idle"), Some(6)),
            entry(Some("strike-horz-2"), Some(4)),
            entry(Some("dance"), Some(3)),
            entry(Some("walk"), None),
            entry(None, Some(5)),
        ]),
    };
    let (asset, selected) = animation_sheet_entries(&AnimationSheet::Warrior(warrior()), &doc);
    assert_eq!(asset, "warrior_sheet".to_string());
    assert_eq!(
        selected,
        Some(vec![
            SelectedAnimation { entry: 0, id: 11, last_frame: 5 },
            SelectedAnimation { entry: 1, id: 14, last_frame: 3 },
        ])
    );
}

#[test]
fn animation_sheet_errors() {
    // {"animations": 3}: no texture name and no array of animations.
    let doc = AnimationSheetDoc { asset: None, animations: None };
    let (asset, selected) = animation_sheet_entries(&AnimationSheet::Pawn(pawn()), &doc);
    assert_eq!(asset, "".to_string());
    assert_eq!(selected, None);
    assert_eq!(parse_u32(Some(4294967297)), 1);
    assert_eq!(parse_u32(None), 0);
}

#[test]
fn menu_actions() {
    assert_eq!(main_menu_action(START_GAME), MenuAction::StartGame);
    assert_eq!(main_menu_action(START_SANDBOX), MenuAction::StartEditor);
    assert_eq!(main_menu_action(EXIT_GAME), MenuAction::Exit);
    assert_eq!(main_menu_action(5), MenuAction::Nothing);
    assert_eq!(editor_menu_action(RETURN_EDITOR), MenuAction::Resume);
    assert_eq!(editor_menu_action(EXIT_EDITOR), MenuAction::MainMenu);
    assert_eq!(editor_menu_action(START_GAME), MenuAction::Nothing);
    assert_eq!(menu_events_action(&[EXIT_GAMEPLAY, RETURN_GAMEPLAY], RETURN_GAMEPLAY, EXIT_GAMEPLAY), MenuAction::Resume);
    assert_eq!(menu_events_action(&[7, EXIT_GAMEPLAY], RETURN_GAMEPLAY, EXIT_GAMEPLAY), MenuAction::MainMenu);
    assert_eq!(menu_events_action(&[], RETURN_GAMEPLAY, EXIT_GAMEPLAY), MenuAction::Nothing);
}

#[test]
fn editor_frame_inputs() {
    let step = editor_inputs(0, Some(true), false, false, false);
    assert_eq!(step, EditorStep { input_flags: DRAGGING_VIEW, menu_visible: false, rebuild_menu: false, drag_view: true });
    let step = editor_inputs(DRAGGING_VIEW, None, true, false, true);
    assert_eq!(step, EditorStep { input_flags: DRAGGING_VIEW, menu_visible: true, rebuild_menu: true, drag_view: false });
    let step = editor_inputs(DRAGGING_VIEW, Some(false), false, false, false);
    assert_eq!(step.input_flags, 0);
    assert!(!step.drag_view);
}

#[test]
fn debug_flags_codes() {
    assert_eq!(debug_flags_from_u32(0b101), SHOW_MAIN_GRID | SHOW_MAIN_GRID_TYPES);
    assert_eq!(debug_flags_from_u32(0b1000), 0);
    assert_eq!(debug_flags_from_u32(0x103), SHOW_MAIN_GRID | SHOW_SUB_GRID);
}

#[test]
fn animation_sheet_load_outcomes() {
    let sheet = AnimationSheet::Warrior(warrior());
    let doc = AnimationSheetDoc {
        asset: Some("warrior_sheet".to_string()),
        animations: Some(vec![entry(Some("idle"), Some(6)), entry(Some("dance"), Some(3))]),
    };
    assert_eq!(load_animation_sheet(&sheet, &None, Some(7)), Err(AnimationLoadError::MissingJson));
    assert_eq!(load_animation_sheet(&sheet, &Some(None), Some(7)), Err(AnimationLoadError::BadJson));
    assert_eq!(
        load_animation_sheet(&sheet, &Some(Some(doc.clone())), None),
        Err(AnimationLoadError::MissingTexture("warrior_sheet".to_string()))
    );
    let no_array = AnimationSheetDoc { asset: Some("warrior_sheet".to_string()), animations: None };
    assert_eq!(load_animation_sheet(&sheet, &Some(Some(no_array.clone())), None), Err(AnimationLoadError::MissingTexture("warrior_sheet".to_string())));
    assert_eq!(load_animation_sheet(&sheet, &Some(Some(no_array)), Some(7)), Err(AnimationLoadError::MissingAnimations));
    assert_eq!(
        load_animation_sheet(&sheet, &Some(Some(doc)), Some(7)),
        Ok((7, vec![SelectedAnimation { entry: 0, id: 11, last_frame: 5 }]))
    );
}
