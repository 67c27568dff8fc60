use loomz::cache::NameIndex;
use loomz::gui_batch::GuiBatch;
use loomz::gui_state::{GuiComponentStyle, GuiComponentStyleBase, GuiLayoutType, GuiStyleBuilder, GuiStyleError, GuiStyleState};
use loomz::render::{gui_draw_commands, render_actors, render_debug_info, render_world, DrawCommand, PipelineCompiler};
use loomz::world::{take_updates, WorldBatch, WorldFlags, SHOW_WORLD, UPDATE_ACTORS, UPDATE_TERRAIN};

#[test]
fn pipelines_by_label() {
    let mut compiler = PipelineCompiler::new();
    assert_eq!(compiler.add_pipeline_info("gui_component"), 0);
    assert_eq!(compiler.add_pipeline_info("gui_text"), 1);
    compiler.set_compiled(vec![70, 71]);
    assert_eq!(compiler.get_pipeline("gui_text"), 71);
    assert_eq!(compiler.get_pipeline("gui_component"), 70);
    // A label added twice names its last position.
    assert_eq!(compiler.add_pipeline_info("gui_component"), 2);
    compiler.set_compiled(vec![80, 81, 82]);
    assert_eq!(compiler.get_pipeline("gui_component"), 82);
}

#[test]
fn name_index() {
    let mut names = NameIndex::new();
    assert_eq!(names.get("menu_item"), None);
    names.insert("menu_item", 3);
    assert_eq!(names.get("menu_item"), Some(3));
    assert_eq!(names.get("menu"), None);
    names.clear();
    assert_eq!(names.get("menu_item"), None);
}

#[test]
fn gui_commands_bind_pipeline_on_change() {
    let batches = [
        GuiBatch { pipeline: 5, set: 1, index_count: 6, first_index: 0 },
        GuiBatch { pipeline: 5, set: 2, index_count: 12, first_index: 6 },
        GuiBatch { pipeline: 9, set: 3, index_count: 6, first_index: 18 },
    ];
    let commands = gui_draw_commands(&batches);
    assert_eq!(
        commands,
        vec![
            DrawCommand::BindPipeline(5),
            DrawCommand::BindSet(1),
            DrawCommand::DrawIndexed { index_count: 6, instance_count: 1, first_index: 0, first_instance: 0 },
            DrawCommand::BindSet(2),
            DrawCommand::DrawIndexed { index_count: 12, instance_count: 1, first_index: 6, first_instance: 0 },
            DrawCommand::BindPipeline(9),
            DrawCommand::BindSet(3),
            DrawCommand::DrawIndexed { index_count: 6, instance_count: 1, first_index: 18, first_instance: 0 },
        ]
    );
    // A null pipeline is never bound.
    let null = [GuiBatch { pipeline: 0, set: 4, index_count: 6, first_index: 0 }];
    assert_eq!(gui_draw_commands(&null)[0], DrawCommand::BindSet(4));
}

#[test]
fn actor_and_world_commands() {
    let batches = [
        WorldBatch { set: 5, instances_count: 2, instances_offset: 0 },
        WorldBatch { set: 7, instances_count: 3, instances_offset: 2 },
    ];
    let actors = render_actors(40, 41, &batches);
    assert_eq!(
        actors,
        vec![
            DrawCommand::BindPipeline(40),
            DrawCommand::BindSet(41),
            DrawCommand::BindSet(5),
            DrawCommand::DrawIndexed { index_count: 6, instance_count: 2, first_index: 0, first_instance: 0 },
            DrawCommand::BindSet(7),
            DrawCommand::DrawIndexed { index_count: 6, instance_count: 3, first_index: 0, first_instance: 2 },
        ]
    );
    assert!(render_debug_info(50, 0).is_empty());
    assert_eq!(render_debug_info(50, 12).len(), 2);

    let hidden = render_world(WorldFlags::from_bits(0), 1, 40, 41, &batches, 50, 12);
    assert!(hidden.is_empty());
    let shown = render_world(WorldFlags::from_bits(SHOW_WORLD), 0, 40, 41, &batches, 50, 12);
    assert_eq!(shown, actors);
    let debug = render_world(WorldFlags::from_bits(SHOW_WORLD), 1, 40, 41, &batches, 50, 12);
    assert_eq!(debug.len(), actors.len() + 2);
    assert_eq!(debug[actors.len()], DrawCommand::BindPipeline(50));
}

#[test]
fn world_updates_taken_once() {
    let mut flags = WorldFlags::from_bits(SHOW_WORLD | UPDATE_ACTORS | UPDATE_TERRAIN);
    assert_eq!(take_updates(&mut flags), (true, true));
    assert_eq!(flags.bits, SHOW_WORLD);
    assert_eq!(take_updates(&mut flags), (false, false));
    let mut only_terrain = WorldFlags::from_bits(UPDATE_TERRAIN);
    assert_eq!(take_updates(&mut only_terrain), (false, true));
}

#[test]
fn style_builder() {
    let mut styles: GuiStyleBuilder<u32, u64> = GuiStyleBuilder::new();
    assert_eq!(styles.font("menu_item", GuiStyleState::Base, Some(1)), Ok(()));
    assert_eq!(styles.font("menu_item", GuiStyleState::Hovered, Some(2)), Ok(()));
    assert_eq!(styles.frame("panel", GuiStyleState::Base, Some(10)), Ok(()));
    assert_eq!(styles.font("menu_item", GuiStyleState::Active, None), Err(GuiStyleError::MissingFont));
    assert_eq!(styles.frame("panel", GuiStyleState::Active, None), Err(GuiStyleError::MissingTexture));
    assert_eq!(styles.styles.len(), 2);
    match styles.styles[0] {
        GuiComponentStyle::Font(s) => assert_eq!(s, GuiComponentStyleBase { base: 1, hovered: 2, active: 1 }),
        GuiComponentStyle::Frame(_) => panic!("expected a font style"),
    }
    match styles.styles[1] {
        GuiComponentStyle::Frame(s) => assert_eq!(s, GuiComponentStyleBase { base: 10, hovered: 10, active: 10 }),
        GuiComponentStyle::Font(_) => panic!("expected a frame style"),
    }
    assert_eq!(styles.font_styles.get("menu_item"), Some(0));
    assert_eq!(styles.frame_styles.get("panel"), Some(1));
    styles.root_layout(GuiLayoutType::HBox);
    assert_eq!(styles.root_layout_type, GuiLayoutType::HBox);
    styles.clear_gui_styles();
    assert_eq!(styles.root_layout_type, GuiLayoutType::VBox);
    assert_eq!(styles.font_styles.get("menu_item"), None);
    // The styles stay; a name used again gets a new style.
    assert_eq!(styles.font("menu_item", GuiStyleState::Base, Some(3)), Ok(()));
    assert_eq!(styles.styles.len(), 3);
}

#[test]
fn output_image_transitions() {
    let before = loomz::render::prepare_attachments(7);
    let after = loomz::render::finalize_attachments(7);
    assert_eq!(before.image, 7);
    assert_eq!(before.old_layout, 0);
    assert_eq!(before.new_layout, loomz::render::LAYOUT_COLOR_ATTACHMENT_OPTIMAL);
    assert_eq!(after.old_layout, before.new_layout);
    assert_eq!(after.new_layout, loomz::render::LAYOUT_PRESENT_SRC);
    assert_eq!(after.src_access, before.dst_access);
    assert_eq!(after.dst_stage, loomz::render::STAGE_HOST);
}
