//! The draw commands of the engine: which pipelines are compiled under
//! which label, and which commands draw the gui batches, the actor batches
//! and the debug grid.

use vstd::prelude::*;
use crate::cache::NameIndex;
use crate::gui_batch::GuiBatch;
use crate::memory::{final_barrier, prepare_barrier, ImageBarrier, ACCESS_NONE, LAYOUT_UNDEFINED, STAGE_NONE};
use crate::world::{WorldBatch, WorldFlags, SHOW_WORLD};

verus! {

/// The pipelines of the engine, by label. Create infos are added one by
/// one, then compiled together; the handles follow the order of the infos.
pub struct PipelineCompiler {
    pub labels: NameIndex,
    pub info_count: u32,
    pub pipelines: Vec<u64>,
}

impl PipelineCompiler {
    /// No pipeline yet.
    pub fn new() -> (c: Self)
        ensures
            c.labels.contents() == Map::<Seq<char>, u32>::empty(),
            c.info_count == 0,
            c.pipelines@.len() == 0,
    {
        PipelineCompiler { labels: NameIndex::new(), info_count: 0, pipelines: Vec::new() }
    }

    /// Adds the create info of the pipeline `label`: it is compiled at the
    /// next position, which the label now names.
    pub fn add_pipeline_info(&mut self, label: &str) -> (index: u32)
        requires
            old(self).info_count < u32::MAX,
        ensures
            index == old(self).info_count,
            final(self).info_count == old(self).info_count + 1,
            final(self).labels.contents() == old(self).labels.contents().insert(label@, index),
            final(self).pipelines@ == old(self).pipelines@,
    {
        let index = self.info_count;
        self.labels.insert(label, index);
        self.info_count = index + 1;
        index
    }

    /// Takes the handles of the compiled pipelines, one per create info.
    pub fn set_compiled(&mut self, pipelines: Vec<u64>)
        requires
            pipelines@.len() == old(self).info_count,
        ensures
            final(self).pipelines@ == pipelines@,
            final(self).labels == old(self).labels,
            final(self).info_count == old(self).info_count,
    {
        self.pipelines = pipelines;
    }

    /// The compiled pipeline of `label`.
    pub fn get_pipeline(&self, label: &str) -> (p: u64)
        requires
            self.labels.contents().contains_key(label@),
            self.labels.contents()[label@] < self.pipelines@.len(),
        ensures
            p == self.pipelines@[self.labels.contents()[label@] as int],
    {
        let index = match self.labels.get(label) {
            Some(i) => i,
            None => 0,
        };
        self.pipelines[index as usize]
    }
}

/// A command recorded in a command buffer.
#[derive(Copy, Clone, PartialEq, Eq, Structural, Debug)]
pub enum DrawCommand {
    BindPipeline(u64),
    BindSet(u64),
    DrawIndexed { index_count: u32, instance_count: u32, first_index: u32, first_instance: u32 },
}

/// The commands that draw the gui batches: a batch binds its pipeline when
/// it differs from the one bound before it (none at first, the null
/// handle), then its set, then draws its indices.
pub open spec fn gui_commands(batches: Seq<GuiBatch>) -> Seq<DrawCommand>
    decreases batches.len(),
{
    if batches.len() == 0 {
        Seq::empty()
    } else {
        let b = batches.last();
        let last_pipeline = if batches.len() == 1 {
            0u64
        } else {
            batches[batches.len() - 2].pipeline
        };
        let bind = if b.pipeline != last_pipeline {
            seq![DrawCommand::BindPipeline(b.pipeline)]
        } else {
            Seq::empty()
        };
        gui_commands(batches.drop_last()) + bind + seq![
            DrawCommand::BindSet(b.set),
            DrawCommand::DrawIndexed {
                index_count: b.index_count,
                instance_count: 1,
                first_index: b.first_index,
                first_instance: 0,
            },
        ]
    }
}

/// A draw as a command buffer runs it: the pipeline and the set bound when
/// it is recorded, and its arguments.
#[derive(Copy, Clone, PartialEq, Eq, Structural, Debug)]
pub struct ExecutedDraw {
    pub pipeline: u64,
    pub set: u64,
    pub index_count: u32,
    pub instance_count: u32,
    pub first_index: u32,
    pub first_instance: u32,
}

/// The pipeline bound after running `cmds`: the last one they bind, the
/// null handle when they bind none.
pub open spec fn bound_pipeline(cmds: Seq<DrawCommand>) -> u64
    decreases cmds.len(),
{
    if cmds.len() == 0 {
        0
    } else {
        match cmds.last() {
            DrawCommand::BindPipeline(p) => p,
            _ => bound_pipeline(cmds.drop_last()),
        }
    }
}

/// The set bound after running `cmds`: the last one they bind, the null
/// handle when they bind none.
pub open spec fn bound_set(cmds: Seq<DrawCommand>) -> u64
    decreases cmds.len(),
{
    if cmds.len() == 0 {
        0
    } else {
        match cmds.last() {
            DrawCommand::BindSet(s) => s,
            _ => bound_set(cmds.drop_last()),
        }
    }
}

/// The draws made by running `cmds`, in order, each with the pipeline and
/// the set bound when it runs.
pub open spec fn executed_draws(cmds: Seq<DrawCommand>) -> Seq<ExecutedDraw>
    decreases cmds.len(),
{
    if cmds.len() == 0 {
        Seq::empty()
    } else {
        let before = cmds.drop_last();
        match cmds.last() {
            DrawCommand::DrawIndexed { index_count, instance_count, first_index, first_instance } => executed_draws(
                before,
            ).push(
                ExecutedDraw {
                    pipeline: bound_pipeline(before),
                    set: bound_set(before),
                    index_count,
                    instance_count,
                    first_index,
                    first_instance,
                },
            ),
            _ => executed_draws(before),
        }
    }
}

/// The draw a gui batch asks for: its indices, once, with its pipeline and
/// its set bound.
pub open spec fn gui_batch_draw(b: GuiBatch) -> ExecutedDraw {
    ExecutedDraw {
        pipeline: b.pipeline,
        set: b.set,
        index_count: b.index_count,
        instance_count: 1,
        first_index: b.first_index,
        first_instance: 0,
    }
}

/// Running the gui commands draws each batch once, in order, with its own
/// pipeline and its own set bound, and leaves bound the pipeline of the
/// last batch.
pub proof fn lemma_gui_commands_draw_batches(batches: Seq<GuiBatch>)
    ensures
        executed_draws(gui_commands(batches)) == batches.map_values(|b: GuiBatch| gui_batch_draw(b)),
        bound_pipeline(gui_commands(batches)) == if batches.len() == 0 {
            0u64
        } else {
            batches.last().pipeline
        },
    decreases batches.len(),
{
    if batches.len() > 0 {
        let rest = batches.drop_last();
        lemma_gui_commands_draw_batches(rest);
        let b = batches.last();
        let c0 = gui_commands(rest);
        let last_pipeline = if batches.len() == 1 {
            0u64
        } else {
            batches[batches.len() - 2].pipeline
        };
        if batches.len() > 1 {
            assert(rest.last() == batches[batches.len() - 2]);
        }
        assert(bound_pipeline(c0) == last_pipeline);
        let c1 = if b.pipeline != last_pipeline {
            c0.push(DrawCommand::BindPipeline(b.pipeline))
        } else {
            c0
        };
        if b.pipeline != last_pipeline {
            assert(c1.drop_last() =~= c0);
        }
        assert(bound_pipeline(c1) == b.pipeline);
        assert(executed_draws(c1) == executed_draws(c0));
        let c2 = c1.push(DrawCommand::BindSet(b.set));
        assert(c2.drop_last() =~= c1);
        let draw = DrawCommand::DrawIndexed {
            index_count: b.index_count,
            instance_count: 1,
            first_index: b.first_index,
            first_instance: 0,
        };
        let c3 = c2.push(draw);
        assert(c3.drop_last() =~= c2);
        assert(gui_commands(batches) =~= c3);
        assert(bound_set(c2) == b.set);
        assert(bound_pipeline(c2) == b.pipeline);
        assert(executed_draws(c2) == executed_draws(c1));
        assert(executed_draws(c3) == executed_draws(c2).push(gui_batch_draw(b)));
        assert(bound_pipeline(c3) == bound_pipeline(c2));
        assert(rest.map_values(|x: GuiBatch| gui_batch_draw(x)).push(gui_batch_draw(b)) =~= batches.map_values(
            |x: GuiBatch| gui_batch_draw(x),
        ));
    } else {
        assert(gui_commands(batches) =~= Seq::<DrawCommand>::empty());
        assert(batches.map_values(|x: GuiBatch| gui_batch_draw(x)) =~= Seq::<ExecutedDraw>::empty());
    }
}

/// The commands that draw the gui batches.
pub fn gui_draw_commands(batches: &[GuiBatch]) -> (r: Vec<DrawCommand>)
    ensures
        r@ == gui_commands(batches@),
        executed_draws(r@) == batches@.map_values(|b: GuiBatch| gui_batch_draw(b)),
{
    let mut commands: Vec<DrawCommand> = Vec::new();
    let mut last_pipeline: u64 = 0;
    let mut i: usize = 0;
    while i < batches.len()
        invariant
            i <= batches@.len(),
            commands@ == gui_commands(batches@.take(i as int)),
            last_pipeline == if i == 0 {
                0u64
            } else {
                batches@[i - 1].pipeline
            },
        decreases batches@.len() - i,
    {
        let batch = batches[i];
        proof {
            let t = batches@.take(i + 1);
            assert(t.drop_last() =~= batches@.take(i as int));
            assert(t.last() == batch);
            if i > 0 {
                assert(t[t.len() - 2] == batches@[i - 1]);
            }
        }
        if last_pipeline != batch.pipeline {
            commands.push(DrawCommand::BindPipeline(batch.pipeline));
            last_pipeline = batch.pipeline;
        }
        commands.push(DrawCommand::BindSet(batch.set));
        commands.push(
            DrawCommand::DrawIndexed {
                index_count: batch.index_count,
                instance_count: 1,
                first_index: batch.first_index,
                first_instance: 0,
            },
        );
        proof {
            assert(commands@ =~= gui_commands(batches@.take(i + 1)));
        }
        i = i + 1;
    }
    proof {
        assert(batches@.take(batches@.len() as int) =~= batches@);
        lemma_gui_commands_draw_batches(batches@);
    }
    commands
}

/// The commands of one actor batch: its set, then six indices for each of
/// its actors.
pub open spec fn actor_batch_commands(b: WorldBatch) -> Seq<DrawCommand> {
    seq![
        DrawCommand::BindSet(b.set),
        DrawCommand::DrawIndexed {
            index_count: 6,
            instance_count: b.instances_count,
            first_index: 0,
            first_instance: b.instances_offset,
        },
    ]
}

/// The commands that draw the actors: the actor pipeline and the sprites
/// set, then each batch.
pub open spec fn actor_commands(pipeline: u64, sprites_set: u64, batches: Seq<WorldBatch>) -> Seq<DrawCommand>
    decreases batches.len(),
{
    if batches.len() == 0 {
        seq![DrawCommand::BindPipeline(pipeline), DrawCommand::BindSet(sprites_set)]
    } else {
        actor_commands(pipeline, sprites_set, batches.drop_last()) + actor_batch_commands(batches.last())
    }
}

/// The commands that draw the actors.
pub fn render_actors(pipeline: u64, sprites_set: u64, batches: &[WorldBatch]) -> (r: Vec<DrawCommand>)
    ensures
        r@ == actor_commands(pipeline, sprites_set, batches@),
{
    let mut commands: Vec<DrawCommand> = Vec::new();
    commands.push(DrawCommand::BindPipeline(pipeline));
    commands.push(DrawCommand::BindSet(sprites_set));
    proof {
        assert(commands@ =~= actor_commands(pipeline, sprites_set, batches@.take(0)));
    }
    let mut i: usize = 0;
    while i < batches.len()
        invariant
            i <= batches@.len(),
            commands@ == actor_commands(pipeline, sprites_set, batches@.take(i as int)),
        decreases batches@.len() - i,
    {
        let batch = batches[i];
        proof {
            let t = batches@.take(i + 1);
            assert(t.drop_last() =~= batches@.take(i as int));
            assert(t.last() == batch);
        }
        commands.push(DrawCommand::BindSet(batch.set));
        commands.push(
            DrawCommand::DrawIndexed {
                index_count: 6,
                instance_count: batch.instances_count,
                first_index: 0,
                first_instance: batch.instances_offset,
            },
        );
        proof {
            assert(commands@ =~= actor_commands(pipeline, sprites_set, batches@.take(i + 1)));
        }
        i = i + 1;
    }
    proof {
        assert(batches@.take(batches@.len() as int) =~= batches@);
    }
    commands
}

/// The commands that draw the debug grid: nothing without indices.
pub fn render_debug_info(pipeline: u64, index_count: u32) -> (r: Vec<DrawCommand>)
    ensures
        index_count == 0 ==> r@.len() == 0,
        index_count != 0 ==> r@ == seq![
            DrawCommand::BindPipeline(pipeline),
            DrawCommand::DrawIndexed { index_count, instance_count: 1, first_index: 0, first_instance: 0 },
        ],
{
    let mut commands: Vec<DrawCommand> = Vec::new();
    if index_count == 0 {
        return commands;
    }
    commands.push(DrawCommand::BindPipeline(pipeline));
    commands.push(DrawCommand::DrawIndexed { index_count, instance_count: 1, first_index: 0, first_instance: 0 });
    proof {
        assert(commands@ =~= seq![
            DrawCommand::BindPipeline(pipeline),
            DrawCommand::DrawIndexed { index_count, instance_count: 1, first_index: 0, first_instance: 0 },
        ]);
    }
    commands
}

/// The commands that draw the world: nothing while it is hidden, else the
/// actors, then the debug grid when a debug flag is set. The terrain draws
/// nothing.
pub fn render_world(
    flags: WorldFlags,
    debug_flags: u8,
    actor_pipeline: u64,
    sprites_set: u64,
    batches: &[WorldBatch],
    debug_pipeline: u64,
    debug_index_count: u32,
) -> (r: Vec<DrawCommand>)
    ensures
        flags.bits & SHOW_WORLD != SHOW_WORLD ==> r@.len() == 0,
        flags.bits & SHOW_WORLD == SHOW_WORLD ==> r@ == actor_commands(actor_pipeline, sprites_set, batches@) + if debug_flags
            == 0 {
            Seq::<DrawCommand>::empty()
        } else if debug_index_count == 0 {
            Seq::<DrawCommand>::empty()
        } else {
            seq![
                DrawCommand::BindPipeline(debug_pipeline),
                DrawCommand::DrawIndexed {
                    index_count: debug_index_count,
                    instance_count: 1,
                    first_index: 0,
                    first_instance: 0,
                },
            ]
        },
{
    if !flags.contains(SHOW_WORLD) {
        return Vec::new();
    }
    let mut commands = render_actors(actor_pipeline, sprites_set, batches);
    if debug_flags != 0 {
        let mut debug = render_debug_info(debug_pipeline, debug_index_count);
        commands.append(&mut debug);
    }
    commands
}

/// Image layout: color attachment.
pub const LAYOUT_COLOR_ATTACHMENT_OPTIMAL: i32 = 2;
/// Image layout: ready to be presented.
pub const LAYOUT_PRESENT_SRC: i32 = 1000001002;
/// Access: color attachment writes.
pub const ACCESS_COLOR_ATTACHMENT_WRITE: u64 = 0x100;
/// Access: host reads.
pub const ACCESS_HOST_READ: u64 = 0x2000;
/// Pipeline stage: color attachment output.
pub const STAGE_COLOR_ATTACHMENT_OUTPUT: u64 = 0x400;
/// Pipeline stage: host.
pub const STAGE_HOST: u64 = 0x4000;

/// The transition of the output image before it is drawn to.
pub open spec fn attachment_prepare_barrier(image: u64) -> ImageBarrier {
    ImageBarrier {
        image,
        old_layout: LAYOUT_UNDEFINED,
        new_layout: LAYOUT_COLOR_ATTACHMENT_OPTIMAL,
        src_access: ACCESS_NONE,
        src_stage: STAGE_NONE,
        dst_access: ACCESS_COLOR_ATTACHMENT_WRITE,
        dst_stage: STAGE_COLOR_ATTACHMENT_OUTPUT,
    }
}

/// The transition of the output image once drawn, for presentation.
pub open spec fn attachment_present_barrier(image: u64) -> ImageBarrier {
    ImageBarrier {
        image,
        old_layout: LAYOUT_COLOR_ATTACHMENT_OPTIMAL,
        new_layout: LAYOUT_PRESENT_SRC,
        src_access: ACCESS_COLOR_ATTACHMENT_WRITE,
        src_stage: STAGE_COLOR_ATTACHMENT_OUTPUT,
        dst_access: ACCESS_HOST_READ,
        dst_stage: STAGE_HOST,
    }
}

/// The barrier recorded before drawing to the output image: from any
/// content to a color attachment written by the draws.
pub fn prepare_attachments(image: u64) -> (b: ImageBarrier)
    ensures
        b == attachment_prepare_barrier(image),
{
    ImageBarrier {
        image,
        old_layout: LAYOUT_UNDEFINED,
        new_layout: LAYOUT_COLOR_ATTACHMENT_OPTIMAL,
        src_access: ACCESS_NONE,
        src_stage: STAGE_NONE,
        dst_access: ACCESS_COLOR_ATTACHMENT_WRITE,
        dst_stage: STAGE_COLOR_ATTACHMENT_OUTPUT,
    }
}

/// The barrier recorded after drawing to the output image: the color
/// attachment becomes presentable once the draws wrote it.
pub fn finalize_attachments(image: u64) -> (b: ImageBarrier)
    ensures
        b == attachment_present_barrier(image),
{
    ImageBarrier {
        image,
        old_layout: LAYOUT_COLOR_ATTACHMENT_OPTIMAL,
        new_layout: LAYOUT_PRESENT_SRC,
        src_access: ACCESS_COLOR_ATTACHMENT_WRITE,
        src_stage: STAGE_COLOR_ATTACHMENT_OUTPUT,
        dst_access: ACCESS_HOST_READ,
        dst_stage: STAGE_HOST,
    }
}

/// Each pair of transitions of an image chains: the second starts from the
/// layout the first ends in and waits for the accesses the first made
/// available, for the output image as for an uploaded texture.
pub proof fn lemma_barriers_chain(image: u64)
    ensures
        attachment_present_barrier(image).old_layout == attachment_prepare_barrier(image).new_layout,
        attachment_present_barrier(image).src_access == attachment_prepare_barrier(image).dst_access,
        attachment_present_barrier(image).src_stage == attachment_prepare_barrier(image).dst_stage,
        final_barrier(image).old_layout == prepare_barrier(image).new_layout,
        final_barrier(image).src_access == prepare_barrier(image).dst_access,
        final_barrier(image).src_stage == prepare_barrier(image).dst_stage,
{
}

} // verus!
