//! World rendering bookkeeping of the engine: the actors and their batches,
//! the world animations, and the terrain chunks shown on screen.
//!
//! Gpu handles (descriptor sets) are plain `u64` values, `0` being the null
//! handle.

use vstd::prelude::*;
use crate::cache::TextureCache;
use crate::descriptors::{apply_writes, DescriptorError, DescriptorWriteBinding, DescriptorsAllocator, VulkanDescriptorSubmit};
use crate::memory::LAYOUT_SHADER_READ_ONLY_OPTIMAL;
use crate::terrain::{TerrainType, WorldTerrainChunk};

verus! {

/// Flag: the world is drawn.
pub const SHOW_WORLD: u8 = 0b0001;
/// Flag: the actor batches must be rebuilt.
pub const UPDATE_ACTORS: u8 = 0b0010;
/// Flag: the terrain sprites must be rebuilt.
pub const UPDATE_TERRAIN: u8 = 0b0100;

/// The state flags of the world module.
#[derive(Copy, Clone, PartialEq, Eq, Structural)]
pub struct WorldFlags {
    pub bits: u8,
}

impl WorldFlags {
    /// Flags with every bit of `bits` set.
    pub fn from_bits(bits: u8) -> (f: Self)
        ensures
            f.bits == bits,
    {
        WorldFlags { bits }
    }

    /// Every bit of `flag` is set.
    pub fn contains(&self, flag: u8) -> (r: bool)
        ensures
            r == (self.bits & flag == flag),
    {
        self.bits & flag == flag
    }

    /// Sets the bits of `flag`.
    pub fn insert(&mut self, flag: u8)
        ensures
            final(self).bits == old(self).bits | flag,
    {
        self.bits = self.bits | flag;
    }

    /// Clears the bits of `flag`.
    pub fn remove(&mut self, flag: u8)
        ensures
            final(self).bits == old(self).bits & !flag,
    {
        self.bits = self.bits & !flag;
    }

    /// Sets or clears the bits of `flag`.
    pub fn set(&mut self, flag: u8, value: bool)
        ensures
            final(self).bits == if value { old(self).bits | flag } else { old(self).bits & !flag },
    {
        if value {
            self.insert(flag);
        } else {
            self.remove(flag);
        }
    }

    /// No bit is set.
    pub fn is_empty(&self) -> (r: bool)
        ensures
            r == (self.bits == 0),
    {
        self.bits == 0
    }
}

/// Setting a flag and testing it finds it set; removing it finds it clear;
/// the other bits stay as they were.
pub proof fn lemma_flags_insert_remove(bits: u8, flag: u8, other: u8)
    requires
        flag & other == 0,
    ensures
        (bits | flag) & flag == flag,
        flag != 0 ==> (bits & !flag) & flag != flag,
        (bits | flag) & other == bits & other,
        (bits & !flag) & other == bits & other,
{
    assert((bits | flag) & flag == flag) by (bit_vector);
    assert(flag != 0 ==> (bits & !flag) & flag != flag) by (bit_vector);
    assert(flag & other == 0 ==> (bits | flag) & other == bits & other) by (bit_vector);
    assert(flag & other == 0 ==> (bits & !flag) & other == bits & other) by (bit_vector);
}

//
// Actors batching
//

/// One draw of actors: `instances_count` actors sharing the descriptor set
/// `set`, starting at actor `instances_offset`.
#[derive(Copy, Clone, PartialEq, Eq, Structural, Debug)]
pub struct WorldBatch {
    pub set: u64,
    pub instances_count: u32,
    pub instances_offset: u32,
}

/// One scan for the next group of actors, from actor `i` with the group set
/// `last` (`0`: not chosen yet) and `count` actors taken so far. A null
/// `last` takes the set of the actor it meets; the scan stops at the first
/// actor whose set differs. Returns where it stopped, the set of the group,
/// the number of actors in the group and the set of the actor it stopped at
/// (`0` when it reached the end).
pub open spec fn scan_group(s: Seq<u64>, i: int, last: u64, count: nat) -> (int, u64, nat, u64)
    decreases s.len() - i,
{
    if i < 0 || i >= s.len() {
        (i, last, count, 0)
    } else {
        let l2 = if last == 0 { s[i] } else { last };
        if s[i] != l2 {
            (i, l2, count, s[i])
        } else {
            scan_group(s, i + 1, l2, count + 1)
        }
    }
}

/// A scan stops between its start and the end, and counts every actor it
/// passed.
pub proof fn lemma_scan_group(s: Seq<u64>, i: int, last: u64, count: nat)
    requires
        0 <= i <= s.len(),
    ensures
        i <= scan_group(s, i, last, count).0 <= s.len(),
        scan_group(s, i, last, count).2 == count + scan_group(s, i, last, count).0 - i,
    decreases s.len() - i,
{
    if i < s.len() {
        let l2 = if last == 0 { s[i] } else { last };
        if s[i] == l2 {
            lemma_scan_group(s, i + 1, l2, count + 1);
        }
    }
}

/// The groups of actors that are drawn together, from actor `i` on, the
/// previous scan having stopped on an actor of set `last`. Each scan skips
/// the actor it stopped at: the first actor of every group after the first
/// one is never counted, and the groups end at the first empty one.
pub open spec fn actor_groups_from(s: Seq<u64>, i: int, last: u64) -> Seq<(u64, nat)>
    decreases s.len() + 1 - i,
{
    if i < 0 || i >= s.len() {
        Seq::empty()
    } else {
        let r = scan_group(s, i, last, 0);
        proof {
            lemma_scan_group(s, i, last, 0);
        }
        if r.2 == 0 {
            Seq::empty()
        } else {
            seq![(r.1, r.2)] + actor_groups_from(s, r.0 + 1, r.3)
        }
    }
}

/// The groups of actors drawn together, given the descriptor set of each
/// actor in order.
pub open spec fn actor_groups(s: Seq<u64>) -> Seq<(u64, nat)> {
    actor_groups_from(s, 0, 0)
}

/// Number of actors in the first `k` groups.
pub open spec fn count_sum(g: Seq<(u64, nat)>, k: int) -> nat
    decreases k,
{
    if k <= 0 {
        0
    } else {
        count_sum(g, k - 1) + g[k - 1].1
    }
}

proof fn lemma_count_sum_prepend(x: (u64, nat), g: Seq<(u64, nat)>, k: int)
    requires
        0 <= k <= g.len(),
    ensures
        count_sum(seq![x] + g, k + 1) == x.1 + count_sum(g, k),
    decreases k,
{
    let h = seq![x] + g;
    if k > 0 {
        lemma_count_sum_prepend(x, g, k - 1);
        assert(h[k] == g[k - 1]);
        assert(count_sum(h, k + 1) == count_sum(h, k) + h[k].1);
        assert(count_sum(g, k) == count_sum(g, k - 1) + g[k - 1].1);
    } else {
        assert(h[0] == x);
        assert(count_sum(h, 1) == count_sum(h, 0) + h[0].1);
    }
}

proof fn lemma_count_sum_monotonic(g: Seq<(u64, nat)>, j: int, k: int)
    requires
        0 <= j <= k,
    ensures
        count_sum(g, j) <= count_sum(g, k),
    decreases k - j,
{
    if j < k {
        lemma_count_sum_monotonic(g, j, k - 1);
    }
}

proof fn lemma_groups_total(s: Seq<u64>, i: int, last: u64)
    requires
        0 <= i <= s.len(),
    ensures
        count_sum(actor_groups_from(s, i, last), actor_groups_from(s, i, last).len() as int) <= s.len() - i,
    decreases s.len() + 1 - i,
{
    if i < s.len() {
        let r = scan_group(s, i, last, 0);
        lemma_scan_group(s, i, last, 0);
        if r.2 != 0 {
            let rest = actor_groups_from(s, r.0 + 1, r.3);
            if r.0 + 1 <= s.len() {
                lemma_groups_total(s, r.0 + 1, r.3);
            }
            lemma_count_sum_prepend((r.1, r.2), rest, rest.len() as int);
        }
    }
}

/// Groups the actors by descriptor set, as the actor draws do: for each
/// group its set and its number of actors.
pub fn actors_groups(sets: &[u64]) -> (r: Vec<(u64, u32)>)
    requires
        sets@.len() < u32::MAX,
    ensures
        r@.len() == actor_groups(sets@).len(),
        forall|k: int|
            #![trigger r@[k]]
            0 <= k < r@.len() ==> (r@[k].0 == actor_groups(sets@)[k].0 && r@[k].1 == actor_groups(
                sets@,
            )[k].1),
{
    let ghost s = sets@;
    let len = sets.len();
    let mut out: Vec<(u64, u32)> = Vec::new();
    let mut last: u64 = 0;
    let mut idx: usize = 0;
    loop
        invariant
            s == sets@,
            len == s.len(),
            len < u32::MAX,
            idx <= len + 1,
            out@.len() + actor_groups_from(s, idx as int, last).len() == actor_groups(s).len(),
            forall|k: int|
                #![trigger out@[k]]
                0 <= k < out@.len() ==> (out@[k].0 == actor_groups(s)[k].0 && out@[k].1 == actor_groups(
                    s,
                )[k].1),
            forall|k: int|
                0 <= k < actor_groups_from(s, idx as int, last).len() ==> actor_groups(s)[out@.len()
                    + k] == #[trigger] actor_groups_from(s, idx as int, last)[k],
        ensures
            out@.len() == actor_groups(s).len(),
            forall|k: int|
                #![trigger out@[k]]
                0 <= k < out@.len() ==> (out@[k].0 == actor_groups(s)[k].0 && out@[k].1 == actor_groups(
                    s,
                )[k].1),
        decreases len + 1 - idx,
    {
        if idx >= len {
            proof {
                assert(actor_groups_from(s, idx as int, last) =~= Seq::empty());
            }
            break;
        }
        let ghost i0 = idx as int;
        let ghost last0 = last;
        proof {
            lemma_scan_group(s, i0, last0, 0);
        }
        let mut next: u64 = 0;
        let mut count: u32 = 0;
        while idx < len
            invariant_except_break
                scan_group(s, i0, last0, 0) == scan_group(s, idx as int, last, count as nat),
                next == 0,
            invariant
                s == sets@,
                len == s.len(),
                len < u32::MAX,
                0 <= i0 <= idx <= len,
                count == idx - i0,
            ensures
                scan_group(s, i0, last0, 0) == (idx as int, last, count as nat, next),
            decreases len - idx,
        {
            let a = sets[idx];
            if last == 0 {
                last = a;
            }
            if a != last {
                next = a;
                break;
            }
            count = count + 1;
            idx = idx + 1;
        }
        if count == 0 {
            proof {
                assert(actor_groups_from(s, i0, last0) =~= Seq::empty());
            }
            break;
        }
        proof {
            let g = actor_groups_from(s, i0, last0);
            assert(g == seq![(last, count as nat)] + actor_groups_from(s, idx + 1, next));
            assert(actor_groups(s)[out@.len() as int] == g[0]);
            assert forall|k: int|
                0 <= k < actor_groups_from(s, idx + 1, next).len() implies actor_groups(s)[out@.len() + 1
                + k] == #[trigger] actor_groups_from(s, idx + 1, next)[k] by {
                assert(g[k + 1] == actor_groups_from(s, idx + 1, next)[k]);
            }
        }
        out.push((last, count));
        last = next;
        idx = idx + 1;
    }
    out
}

/// The actor draws, given the descriptor set of each actor in order: one per
/// group of actors, each starting where the previous one ended.
pub fn batch_actors(sets: &[u64]) -> (r: Vec<WorldBatch>)
    requires
        sets@.len() < u32::MAX,
    ensures
        r@.len() == actor_groups(sets@).len(),
        forall|k: int|
            0 <= k < r@.len() ==> {
                &&& #[trigger] r@[k].set == actor_groups(sets@)[k].0
                &&& r@[k].instances_count == actor_groups(sets@)[k].1
                &&& r@[k].instances_offset == count_sum(actor_groups(sets@), k)
            },
{
    let groups = actors_groups(sets);
    let ghost g = actor_groups(sets@);
    proof {
        lemma_groups_total(sets@, 0, 0);
    }
    let mut batches: Vec<WorldBatch> = Vec::new();
    let mut global_instance_count: u32 = 0;
    let mut k: usize = 0;
    while k < groups.len()
        invariant
            g == actor_groups(sets@),
            groups@.len() == g.len(),
            forall|j: int|
                #![trigger groups@[j]]
                0 <= j < groups@.len() ==> (groups@[j].0 == g[j].0 && groups@[j].1 == g[j].1),
            count_sum(g, g.len() as int) <= sets@.len() < u32::MAX,
            k <= groups@.len(),
            batches@.len() == k,
            global_instance_count == count_sum(g, k as int),
            forall|j: int|
                #![trigger batches@[j]]
                0 <= j < k ==> {
                    &&& batches@[j].set == g[j].0
                    &&& batches@[j].instances_count == g[j].1
                    &&& batches@[j].instances_offset == count_sum(g, j)
                },
        decreases groups@.len() - k,
    {
        let (set, instances_count) = groups[k];
        proof {
            lemma_count_sum_monotonic(g, k + 1, g.len() as int);
        }
        batches.push(WorldBatch { set, instances_count, instances_offset: global_instance_count });
        global_instance_count = global_instance_count + instances_count;
        k = k + 1;
    }
    batches
}


//
// Animations and actors
//

/// What the world keeps of an animation: the texture it is drawn from and
/// the number of its last frame.
#[derive(Copy, Clone, PartialEq, Eq, Structural, Debug)]
pub struct WorldAnimation {
    pub texture_id: u64,
    pub last_frame: u8,
}

/// An animation registered under `id`.
#[derive(Copy, Clone, PartialEq, Eq, Structural, Debug)]
pub struct WorldAnimationWithId {
    pub id: u32,
    pub animation: WorldAnimation,
}

/// The state of one actor. `position_x` and `position_y` hold the bit
/// patterns of the coordinates of the actor, which only the sprite
/// computation reads.
#[derive(Copy, Clone, PartialEq, Eq, Structural, Debug)]
pub struct WorldActorData {
    pub descriptor_set: u64,
    pub animation: WorldAnimation,
    pub position_x: u32,
    pub position_y: u32,
    pub current_frame: u8,
    pub flipped: bool,
}

/// A change to an actor, as sent by the client.
#[derive(Copy, Clone, PartialEq, Eq, Structural, Debug)]
pub enum WorldActorUpdate {
    Position(u32, u32),
    Flip(bool),
    Animation(u32),
    Destroy,
}

/// Errors of the world updates.
#[derive(Copy, Clone, PartialEq, Eq, Structural, Debug)]
pub enum WorldError {
    /// An animation with this id was already registered.
    AnimationExists(u32),
    /// No animation was registered with this id.
    UnknownAnimation(u32),
    /// The chunk position lies outside of the terrain.
    ChunkOutOfRange,
    /// The chunk sent by the client is not the chunk at that place.
    ChunkMismatch,
}

/// What is left to do after an actor update.
#[derive(Copy, Clone, PartialEq, Eq, Structural, Debug)]
pub enum ActorStep {
    /// The sprite of the actor at this index must be written again.
    WriteSprite(usize),
    /// The actor at `index` gets an animation drawn from another texture:
    /// the descriptor set of that texture must be fetched and handed to
    /// `WorldActors::finish_actor_animation`.
    FetchTexture { index: usize, animation: WorldAnimation },
    /// The actor was removed.
    Destroyed,
}

/// The position of the first animation registered under `id`, if any.
pub open spec fn animation_index(animations: Seq<WorldAnimationWithId>, id: u32) -> Option<int> {
    if exists|i: int| 0 <= i < animations.len() && #[trigger] animations[i].id == id {
        Some(
            choose|i: int|
                0 <= i < animations.len() && #[trigger] animations[i].id == id && forall|j: int|
                    0 <= j < i ==> animations[j].id != id,
        )
    } else {
        None
    }
}

/// Registers `animation` under `id`. An animation can not be replaced: a
/// second registration under the same id is refused.
pub fn update_world_animation(animations: &mut Vec<WorldAnimationWithId>, id: u32, animation: WorldAnimation) -> (r:
    Result<(), WorldError>)
    ensures
        (exists|i: int| 0 <= i < old(animations)@.len() && #[trigger] old(animations)@[i].id == id) ==> {
            &&& r == Err::<(), WorldError>(WorldError::AnimationExists(id))
            &&& final(animations)@ == old(animations)@
        },
        !(exists|i: int| 0 <= i < old(animations)@.len() && #[trigger] old(animations)@[i].id == id) ==> {
            &&& r is Ok
            &&& final(animations)@ == old(animations)@.push(WorldAnimationWithId { id, animation })
        },
{
    let mut i: usize = 0;
    while i < animations.len()
        invariant
            i <= animations@.len(),
            animations@ == old(animations)@,
            forall|j: int| 0 <= j < i ==> #[trigger] animations@[j].id != id,
        decreases animations@.len() - i,
    {
        if animations[i].id == id {
            return Err(WorldError::AnimationExists(id));
        }
        i = i + 1;
    }
    animations.push(WorldAnimationWithId { id, animation });
    Ok(())
}

/// The animation registered under `id`, if any.
pub fn find_animation(animations: &[WorldAnimationWithId], id: u32) -> (r: Option<WorldAnimation>)
    ensures
        match animation_index(animations@, id) {
            Some(i) => r == Some(animations@[i].animation),
            None => r is None,
        },
{
    let mut i: usize = 0;
    while i < animations.len()
        invariant
            i <= animations@.len(),
            forall|j: int| 0 <= j < i ==> #[trigger] animations@[j].id != id,
        decreases animations@.len() - i,
    {
        if animations[i].id == id {
            proof {
                let k = choose|k: int|
                    0 <= k < animations@.len() && #[trigger] animations@[k].id == id && forall|j: int|
                        0 <= j < k ==> animations@[j].id != id;
                assert(k == i);
            }
            return Some(animations[i].animation);
        }
        i = i + 1;
    }
    None
}

/// Registering an animation makes it found, unless one with the same id was
/// there already, in which case the first one stays.
pub proof fn lemma_animation_registered(animations: Seq<WorldAnimationWithId>, id: u32, animation: WorldAnimation)
    ensures
        ({
            let after = if animation_index(animations, id) is Some {
                animations
            } else {
                animations.push(WorldAnimationWithId { id, animation })
            };
            &&& animation_index(after, id) is Some
            &&& animation_index(animations, id) is None ==> after[animation_index(after, id)->0].animation
                == animation
        }),
{
    if animation_index(animations, id) is None {
        let after = animations.push(WorldAnimationWithId { id, animation });
        assert(after[animations.len() as int].id == id);
        assert(forall|j: int| 0 <= j < animations.len() ==> after[j] == animations[j]);
        let k = choose|k: int|
            0 <= k < after.len() && #[trigger] after[k].id == id && forall|j: int| 0 <= j < k ==> after[j].id != id;
        assert(k == animations.len());
    }
}

/// No id occurs twice.
pub open spec fn ids_distinct(ids: Seq<u32>) -> bool {
    forall|i: int, j: int| 0 <= i < j < ids.len() ==> #[trigger] ids[i] != #[trigger] ids[j]
}

/// The ids once the actor `id` was looked up: unchanged if it exists, else
/// with `id` added at the end.
pub open spec fn ids_with(ids: Seq<u32>, id: u32) -> Seq<u32> {
    match actor_index(ids, id) {
        Some(_) => ids,
        None => ids.push(id),
    }
}

/// The position of the actor `id` once it was looked up.
pub open spec fn index_with(ids: Seq<u32>, id: u32) -> int {
    match actor_index(ids, id) {
        Some(i) => i,
        None => ids.len() as int,
    }
}

/// `s` without its item at `index`, the last item taking its place.
pub open spec fn swap_removed<T>(s: Seq<T>, index: int) -> Seq<T> {
    s.update(index, s.last()).drop_last()
}

/// Updates keep the ids of the actors distinct. Looking an actor up finds
/// it, or adds it, at its position; destroying it then removes its id and
/// keeps every other actor.
pub proof fn lemma_actor_ids(ids: Seq<u32>, id: u32)
    requires
        ids_distinct(ids),
    ensures
        ids_distinct(ids_with(ids, id)),
        0 <= index_with(ids, id) < ids_with(ids, id).len(),
        ids_with(ids, id)[index_with(ids, id)] == id,
        ids_distinct(swap_removed(ids_with(ids, id), index_with(ids, id))),
        !swap_removed(ids_with(ids, id), index_with(ids, id)).contains(id),
        forall|k: int|
            0 <= k < ids.len() && ids[k] != id ==> swap_removed(ids_with(ids, id), index_with(ids, id)).contains(
                #[trigger] ids[k],
            ),
{
    let s = ids_with(ids, id);
    let index = index_with(ids, id);
    match actor_index(ids, id) {
        Some(i) => {},
        None => {
            assert forall|i: int, j: int| 0 <= i < j < s.len() implies #[trigger] s[i] != #[trigger] s[j] by {
                if j == ids.len() {
                    assert(ids[i] != id);
                }
            }
        },
    }
    lemma_swap_removed(s, index);
    assert forall|k: int| 0 <= k < ids.len() && ids[k] != id implies swap_removed(s, index).contains(
        #[trigger] ids[k],
    ) by {
        assert(s[k] == ids[k]);
        assert(k != index);
    }
}

/// Removing the item at `index` of a sequence without repeated items, the
/// last one taking its place, leaves a sequence without repeated items that
/// holds every other item and not the removed one.
proof fn lemma_swap_removed(s: Seq<u32>, index: int)
    requires
        ids_distinct(s),
        0 <= index < s.len(),
    ensures
        ids_distinct(swap_removed(s, index)),
        !swap_removed(s, index).contains(s[index]),
        forall|k: int| 0 <= k < s.len() && k != index ==> swap_removed(s, index).contains(#[trigger] s[k]),
{
    let r = swap_removed(s, index);
    let n = s.len() as int;
    // Position in `s` of the item at `i` in `r`.
    assert forall|i: int| 0 <= i < r.len() implies #[trigger] r[i] == s[if i == index { n - 1 } else { i }] by {}
    assert forall|i: int, j: int| 0 <= i < j < r.len() implies #[trigger] r[i] != #[trigger] r[j] by {
        let a = if i == index { n - 1 } else { i };
        let b = if j == index { n - 1 } else { j };
        assert(r[i] == s[a]);
        assert(r[j] == s[b]);
        if a < b {
            assert(s[a] != s[b]);
        } else {
            assert(s[b] != s[a]);
        }
    }
    assert forall|i: int| 0 <= i < r.len() implies r[i] != s[index] by {
        let a = if i == index { n - 1 } else { i };
        assert(r[i] == s[a]);
        if a < index {
            assert(s[a] != s[index]);
        } else {
            assert(s[index] != s[a]);
        }
    }
    assert forall|k: int| 0 <= k < n && k != index implies r.contains(#[trigger] s[k]) by {
        if k == n - 1 {
            assert(r[index] == s[k]);
        } else {
            assert(r[k] == s[k]);
        }
    }
}

/// The actors of the world: their ids and their data, in the same order.
pub struct WorldActors {
    pub ids: Vec<u32>,
    pub data: Vec<WorldActorData>,
    pub default_actor: WorldActorData,
}

/// The position of the first actor with `id`, if any.
pub open spec fn actor_index(ids: Seq<u32>, id: u32) -> Option<int> {
    if exists|i: int| 0 <= i < ids.len() && #[trigger] ids[i] == id {
        Some(choose|i: int| 0 <= i < ids.len() && #[trigger] ids[i] == id && forall|j: int| 0 <= j < i ==> ids[j] != id)
    } else {
        None
    }
}

impl WorldActors {
    /// Ids and data go together.
    pub open spec fn wf(&self) -> bool {
        self.ids@.len() == self.data@.len()
    }

    /// No actor yet; new actors start as `default_actor`.
    pub fn new(default_actor: WorldActorData) -> (a: Self)
        ensures
            a.wf(),
            a.ids@.len() == 0,
            a.default_actor == default_actor,
    {
        WorldActors { ids: Vec::new(), data: Vec::new(), default_actor }
    }

    /// The index of the actor `id`, adding it as a copy of the default actor
    /// at the end when there is none.
    pub fn actor_index_or_create(&mut self, id: u32) -> (index: usize)
        requires
            old(self).wf(),
        ensures
            final(self).wf(),
            final(self).default_actor == old(self).default_actor,
            index < final(self).data@.len(),
            match actor_index(old(self).ids@, id) {
                Some(i) => index == i && final(self).ids@ == old(self).ids@ && final(self).data@ == old(
                    self,
                ).data@,
                None => {
                    &&& index == old(self).ids@.len()
                    &&& final(self).ids@ == old(self).ids@.push(id)
                    &&& final(self).data@ == old(self).data@.push(old(self).default_actor)
                },
            },
    {
        let mut i: usize = 0;
        while i < self.ids.len()
            invariant
                i <= self.ids@.len(),
                old(self).wf(),
                self.ids@ == old(self).ids@,
                self.data@ == old(self).data@,
                self.default_actor == old(self).default_actor,
                forall|j: int| 0 <= j < i ==> #[trigger] self.ids@[j] != id,
            decreases self.ids@.len() - i,
        {
            if self.ids[i] == id {
                proof {
                    let k = choose|k: int|
                        0 <= k < self.ids@.len() && #[trigger] self.ids@[k] == id && forall|j: int|
                            0 <= j < k ==> self.ids@[j] != id;
                    assert(k == i);
                }
                return i;
            }
            i = i + 1;
        }
        let index = self.ids.len();
        self.ids.push(id);
        self.data.push(self.default_actor);
        index
    }

    /// Applies `update` to the actor `id`, creating it first if it does not
    /// exist. A position or a flip is written in place; a destroy removes
    /// the actor by moving the last one in its place and marks the batches
    /// as outdated; a new animation must exist in `animations`, and when
    /// its texture is the one of the current animation it replaces it in
    /// place, else the texture's descriptor set must be fetched first.
    pub fn update_world_actor(
        &mut self,
        flags: &mut WorldFlags,
        animations: &[WorldAnimationWithId],
        id: u32,
        update: WorldActorUpdate,
    ) -> (r: Result<ActorStep, WorldError>)
        requires
            old(self).wf(),
        ensures
            final(self).wf(),
            final(self).default_actor == old(self).default_actor,
            ({
                let ids0 = ids_with(old(self).ids@, id);
                let index = index_with(old(self).ids@, id);
                let data0 = match actor_index(old(self).ids@, id) {
                    Some(i) => old(self).data@,
                    None => old(self).data@.push(old(self).default_actor),
                };
                let actor = data0[index];
                match update {
                    WorldActorUpdate::Position(x, y) => {
                        &&& r == Ok::<ActorStep, WorldError>(ActorStep::WriteSprite(index as usize))
                        &&& final(self).ids@ == ids0
                        &&& final(self).data@ == data0.update(index, WorldActorData { position_x: x, position_y: y, ..actor })
                        &&& *final(flags) == *old(flags)
                    },
                    WorldActorUpdate::Flip(f) => {
                        &&& r == Ok::<ActorStep, WorldError>(ActorStep::WriteSprite(index as usize))
                        &&& final(self).ids@ == ids0
                        &&& final(self).data@ == data0.update(index, WorldActorData { flipped: f, ..actor })
                        &&& *final(flags) == *old(flags)
                    },
                    WorldActorUpdate::Animation(animation_id) => {
                        &&& final(self).ids@ == ids0
                        &&& *final(flags) == *old(flags)
                        &&& match animation_index(animations@, animation_id) {
                            None => {
                                &&& r == Err::<ActorStep, WorldError>(WorldError::UnknownAnimation(animation_id))
                                &&& final(self).data@ == data0
                            },
                            Some(a) => {
                                let animation = animations@[a].animation;
                                if animation.texture_id != actor.animation.texture_id {
                                    &&& r == Ok::<ActorStep, WorldError>(
                                        ActorStep::FetchTexture { index: index as usize, animation },
                                    )
                                    &&& final(self).data@ == data0
                                } else {
                                    &&& r == Ok::<ActorStep, WorldError>(ActorStep::WriteSprite(index as usize))
                                    &&& final(self).data@ == data0.update(
                                        index,
                                        WorldActorData { animation, ..actor },
                                    )
                                }
                            },
                        }
                    },
                    WorldActorUpdate::Destroy => {
                        &&& r == Ok::<ActorStep, WorldError>(ActorStep::Destroyed)
                        &&& final(self).ids@ == swap_removed(ids0, index)
                        &&& final(self).data@ == swap_removed(data0, index)
                        &&& final(flags).bits == old(flags).bits | UPDATE_ACTORS
                    },
                }
            }),
    {
        let index = self.actor_index_or_create(id);
        match update {
            WorldActorUpdate::Position(x, y) => {
                let actor = self.data[index];
                self.data.set(index, WorldActorData { position_x: x, position_y: y, ..actor });
                Ok(ActorStep::WriteSprite(index))
            },
            WorldActorUpdate::Flip(f) => {
                let actor = self.data[index];
                self.data.set(index, WorldActorData { flipped: f, ..actor });
                Ok(ActorStep::WriteSprite(index))
            },
            WorldActorUpdate::Animation(animation_id) => {
                let animation = match find_animation(animations, animation_id) {
                    Some(a) => a,
                    None => {
                        return Err(WorldError::UnknownAnimation(animation_id));
                    },
                };
                let actor = self.data[index];
                if animation.texture_id != actor.animation.texture_id {
                    Ok(ActorStep::FetchTexture { index, animation })
                } else {
                    self.data.set(index, WorldActorData { animation, ..actor });
                    Ok(ActorStep::WriteSprite(index))
                }
            },
            WorldActorUpdate::Destroy => {
                self.destroy_actor(flags, index);
                Ok(ActorStep::Destroyed)
            },
        }
    }

    /// Gives the actor at `index` the animation `animation`, drawn with the
    /// descriptor set `set` of its texture, and marks the batches as outdated.
    pub fn finish_actor_animation(&mut self, flags: &mut WorldFlags, index: usize, animation: WorldAnimation, set: u64)
        requires
            old(self).wf(),
            index < old(self).data@.len(),
        ensures
            final(self).wf(),
            final(self).default_actor == old(self).default_actor,
            final(self).ids@ == old(self).ids@,
            final(self).data@ == old(self).data@.update(
                index as int,
                WorldActorData { descriptor_set: set, animation, ..old(self).data@[index as int] },
            ),
            final(flags).bits == old(flags).bits | UPDATE_ACTORS,
    {
        let actor = self.data[index];
        self.data.set(index, WorldActorData { descriptor_set: set, animation, ..actor });
        flags.insert(UPDATE_ACTORS);
    }

    /// Removes the actor at `index`, moving the last actor in its place, and
    /// marks the batches as outdated.
    pub fn destroy_actor(&mut self, flags: &mut WorldFlags, index: usize)
        requires
            old(self).wf(),
            index < old(self).ids@.len(),
        ensures
            final(self).wf(),
            final(self).default_actor == old(self).default_actor,
            final(self).ids@ == old(self).ids@.update(index as int, old(self).ids@.last()).drop_last(),
            final(self).data@ == old(self).data@.update(index as int, old(self).data@.last()).drop_last(),
            final(flags).bits == old(flags).bits | UPDATE_ACTORS,
    {
        self.ids.swap_remove(index);
        self.data.swap_remove(index);
        proof {
            assert(self.ids@ =~= old(self).ids@.update(index as int, old(self).ids@.last()).drop_last());
            assert(self.data@ =~= old(self).data@.update(index as int, old(self).data@.last()).drop_last());
        }
        flags.insert(UPDATE_ACTORS);
    }

    /// Moves every actor to the next frame of its animation, back to the
    /// first frame after the last one.
    pub fn animation_update(&mut self)
        requires
            old(self).wf(),
            forall|i: int| 0 <= i < old(self).data@.len() ==> #[trigger] old(self).data@[i].current_frame < 255,
        ensures
            final(self).wf(),
            final(self).default_actor == old(self).default_actor,
            final(self).ids@ == old(self).ids@,
            final(self).data@.len() == old(self).data@.len(),
            forall|i: int|
                #![trigger final(self).data@[i]]
                0 <= i < final(self).data@.len() ==> {
                    let a = old(self).data@[i];
                    final(self).data@[i] == WorldActorData {
                        current_frame: if a.current_frame + 1 > a.animation.last_frame {
                            0
                        } else {
                            (a.current_frame + 1) as u8
                        },
                        ..a
                    }
                },
    {
        let mut i: usize = 0;
        while i < self.data.len()
            invariant
                i <= self.data@.len(),
                self.wf(),
                self.data@.len() == old(self).data@.len(),
                self.ids@ == old(self).ids@,
                self.default_actor == old(self).default_actor,
                forall|j: int|
                    #![trigger self.data@[j]]
                    i <= j < self.data@.len() ==> self.data@[j] == old(self).data@[j],
                forall|j: int|
                    #![trigger self.data@[j]]
                    0 <= j < i ==> {
                        let a = old(self).data@[j];
                        self.data@[j] == WorldActorData {
                            current_frame: if a.current_frame + 1 > a.animation.last_frame {
                                0
                            } else {
                                (a.current_frame + 1) as u8
                            },
                            ..a
                        }
                    },
                forall|j: int| 0 <= j < old(self).data@.len() ==> #[trigger] old(self).data@[j].current_frame < 255,
            decreases self.data@.len() - i,
        {
            let actor = self.data[i];
            let mut frame = actor.current_frame + 1;
            if frame > actor.animation.last_frame {
                frame = 0;
            }
            self.data.set(i, WorldActorData { current_frame: frame, ..actor });
            i = i + 1;
        }
    }
}


//
// Terrain
//

/// The sprites of one terrain chunk: its place (`x`, `y`) in the chunk grid
/// and one sprite per cell, row by row.
pub struct WorldTerrainChunkData<T> {
    pub x: usize,
    pub y: usize,
    pub cells: Vec<T>,
}

/// Number of chunks needed to cover `n` cells.
pub open spec fn chunks_across(n: int) -> int {
    (n + 15) / 16
}

/// Every chunk has one sprite per cell.
pub open spec fn chunks_wf<T>(chunks: Seq<WorldTerrainChunkData<T>>) -> bool {
    forall|k: int| 0 <= k < chunks.len() ==> (#[trigger] chunks[k]).cells@.len() == 256
}

/// The chunks of a terrain of `width` x `height` cells, row after row of
/// chunks, every sprite being `empty`.
pub fn set_terrain_size<T: Copy>(width: u32, height: u32, empty: T) -> (r: Vec<WorldTerrainChunkData<T>>)
    requires
        width + 15 <= usize::MAX,
        height + 15 <= usize::MAX,
        chunks_across(width as int) * chunks_across(height as int) <= usize::MAX,
    ensures
        r@.len() == chunks_across(width as int) * chunks_across(height as int),
        chunks_wf(r@),
        forall|cy: int, cx: int|
            #![trigger r@[cy * chunks_across(width as int) + cx]]
            0 <= cy < chunks_across(height as int) && 0 <= cx < chunks_across(width as int) ==> {
                let c = r@[cy * chunks_across(width as int) + cx];
                &&& c.x == cx
                &&& c.y == cy
            },
        forall|k: int, i: int|
            0 <= k < r@.len() && 0 <= i < 256 ==> #[trigger] r@[k].cells@[i] == empty,
{
    let batch_x = ((width as usize) + 15) / 16;
    let batch_y = ((height as usize) + 15) / 16;
    let ghost bx = batch_x as int;
    let mut chunks: Vec<WorldTerrainChunkData<T>> = Vec::new();
    let mut y: usize = 0;
    while y < batch_y
        invariant
            bx == batch_x,
            batch_x == chunks_across(width as int),
            batch_y == chunks_across(height as int),
            batch_x * batch_y <= usize::MAX,
            y <= batch_y,
            chunks@.len() == y * batch_x,
            chunks_wf(chunks@),
            forall|cy: int, cx: int|
                #![trigger chunks@[cy * bx + cx]]
                0 <= cy < y && 0 <= cx < bx ==> chunks@[cy * bx + cx].x == cx && chunks@[cy * bx + cx].y == cy,
            forall|k: int, i: int|
                0 <= k < chunks@.len() && 0 <= i < 256 ==> #[trigger] chunks@[k].cells@[i] == empty,
        decreases batch_y - y,
    {
        proof {
            assert((y + 1) * batch_x <= batch_y * batch_x) by (nonlinear_arith)
                requires
                    y < batch_y,
            ;
            assert((y + 1) * batch_x == y * batch_x + batch_x) by (nonlinear_arith);
        }
        let mut x: usize = 0;
        while x < batch_x
            invariant
                bx == batch_x,
                batch_x == chunks_across(width as int),
                batch_y == chunks_across(height as int),
                y < batch_y,
                (y + 1) * batch_x <= usize::MAX,
                (y + 1) * batch_x == y * batch_x + batch_x,
                x <= batch_x,
                chunks@.len() == y * batch_x + x,
                chunks_wf(chunks@),
                forall|cy: int, cx: int|
                    #![trigger chunks@[cy * bx + cx]]
                    (0 <= cy < y && 0 <= cx < bx) || (cy == y && 0 <= cx < x) ==> chunks@[cy * bx + cx].x == cx
                        && chunks@[cy * bx + cx].y == cy,
                forall|k: int, i: int|
                    0 <= k < chunks@.len() && 0 <= i < 256 ==> #[trigger] chunks@[k].cells@[i] == empty,
            decreases batch_x - x,
        {
            let mut cells: Vec<T> = Vec::new();
            let mut i: usize = 0;
            while i < 256
                invariant
                    i <= 256,
                    cells@.len() == i,
                    forall|j: int| 0 <= j < i ==> #[trigger] cells@[j] == empty,
                decreases 256 - i,
            {
                cells.push(empty);
                i = i + 1;
            }
            let ghost before = chunks@;
            chunks.push(WorldTerrainChunkData { x, y, cells });
            proof {
                assert forall|cy: int, cx: int|
                    #![trigger chunks@[cy * bx + cx]]
                    (0 <= cy < y && 0 <= cx < bx) || (cy == y && 0 <= cx < x + 1) implies chunks@[cy * bx
                        + cx].x == cx && chunks@[cy * bx + cx].y == cy by {
                    if cy < y {
                        assert(cy * bx + cx < y * bx) by (nonlinear_arith)
                            requires
                                0 <= cy < y,
                                0 <= cx < bx,
                        ;
                        assert(chunks@[cy * bx + cx] == before[cy * bx + cx]);
                    } else if cx < x {
                        assert(chunks@[cy * bx + cx] == before[cy * bx + cx]);
                    }
                }
            }
            x = x + 1;
        }
        y = y + 1;
    }
    proof {
        assert(batch_y * batch_x == batch_x * batch_y) by (nonlinear_arith);
    }
    chunks
}

/// Position in the sprite table of the kind of ground `ty`.
pub fn terrain_type_index(ty: TerrainType) -> (i: usize)
    ensures
        i == match ty {
            TerrainType::Grass => 0usize,
            TerrainType::Sand => 1usize,
        },
{
    match ty {
        TerrainType::Grass => 0,
        TerrainType::Sand => 1,
    }
}

/// The sprite of the kind of ground `ty` in `tilemap`.
pub open spec fn tile_of<T>(tilemap: Seq<T>, ty: TerrainType) -> T {
    match ty {
        TerrainType::Grass => tilemap[0],
        TerrainType::Sand => tilemap[1],
    }
}

/// Copies the cells of a chunk sent by the client into the engine chunks,
/// each cell becoming the sprite of its kind of ground. The chunk is looked
/// up at `y * 16 + x`, whatever the width of the terrain; it must exist and
/// be the chunk at the place the client gave.
pub fn copy_terrain_batch<T: Copy>(
    chunks: &mut Vec<WorldTerrainChunkData<T>>,
    tilemap: &[T],
    chunk: &WorldTerrainChunk,
) -> (r: Result<(), WorldError>)
    requires
        chunks_wf(old(chunks)@),
        chunk.cells@.len() == 256,
        tilemap@.len() >= 2,
    ensures
        chunks_wf(final(chunks)@),
        ({
            let index = chunk.y * 16 + chunk.x;
            if index >= old(chunks)@.len() {
                &&& r == Err::<(), WorldError>(WorldError::ChunkOutOfRange)
                &&& final(chunks)@ == old(chunks)@
            } else if old(chunks)@[index].x != chunk.x || old(chunks)@[index].y != chunk.y {
                &&& r == Err::<(), WorldError>(WorldError::ChunkMismatch)
                &&& final(chunks)@ == old(chunks)@
            } else {
                &&& r is Ok
                &&& final(chunks)@.len() == old(chunks)@.len()
                &&& forall|k: int|
                    0 <= k < old(chunks)@.len() && k != index ==> #[trigger] final(chunks)@[k] == old(chunks)@[k]
                &&& final(chunks)@[index].x == old(chunks)@[index].x
                &&& final(chunks)@[index].y == old(chunks)@[index].y
                &&& forall|i: int|
                    0 <= i < 256 ==> #[trigger] final(chunks)@[index].cells@[i] == tile_of(
                        tilemap@,
                        chunk.cells@[i],
                    )
            }
        }),
{
    let index = (chunk.y as u64) * 16 + (chunk.x as u64);
    if index >= chunks.len() as u64 {
        return Err(WorldError::ChunkOutOfRange);
    }
    let index = index as usize;
    if chunks[index].x as u64 != chunk.x as u64 || chunks[index].y as u64 != chunk.y as u64 {
        return Err(WorldError::ChunkMismatch);
    }
    let mut cells: Vec<T> = Vec::new();
    let mut i: usize = 0;
    while i < 256
        invariant
            i <= 256,
            chunk.cells@.len() == 256,
            tilemap@.len() >= 2,
            cells@.len() == i,
            forall|j: int| 0 <= j < i ==> #[trigger] cells@[j] == tile_of(tilemap@, chunk.cells@[j]),
        decreases 256 - i,
    {
        let tile = tilemap[terrain_type_index(chunk.cells[i])];
        cells.push(tile);
        i = i + 1;
    }
    let x = chunks[index].x;
    let y = chunks[index].y;
    chunks.set(index, WorldTerrainChunkData { x, y, cells });
    Ok(())
}

/// The chunks drawn, in order: those marked visible.
pub open spec fn visible_chunks(visible: Seq<bool>) -> Seq<int>
    decreases visible.len(),
{
    if visible.len() == 0 {
        Seq::empty()
    } else {
        let rest = visible_chunks(visible.drop_last());
        if visible.last() {
            rest.push(visible.len() - 1)
        } else {
            rest
        }
    }
}

proof fn lemma_visible_chunks_bound(visible: Seq<bool>)
    ensures
        visible_chunks(visible).len() <= visible.len(),
        forall|b: int|
            0 <= b < visible_chunks(visible).len() ==> 0 <= #[trigger] visible_chunks(visible)[b] < visible.len(),
    decreases visible.len(),
{
    if visible.len() > 0 {
        lemma_visible_chunks_bound(visible.drop_last());
    }
}

/// The visible chunks are exactly the chunks marked visible, each once, in
/// increasing order.
pub proof fn lemma_visible_chunks_exact(visible: Seq<bool>)
    ensures
        forall|k: int| 0 <= k < visible.len() ==> (visible_chunks(visible).contains(k) <==> #[trigger] visible[k]),
        forall|b: int|
            0 <= b < visible_chunks(visible).len() ==> 0 <= #[trigger] visible_chunks(visible)[b] < visible.len()
                && visible[visible_chunks(visible)[b]],
        forall|a: int, b: int|
            0 <= a < b < visible_chunks(visible).len() ==> #[trigger] visible_chunks(visible)[a]
                < #[trigger] visible_chunks(visible)[b],
    decreases visible.len(),
{
    if visible.len() > 0 {
        let rest = visible.drop_last();
        lemma_visible_chunks_exact(rest);
        let vr = visible_chunks(rest);
        let v = visible_chunks(visible);
        let n = visible.len() - 1;
        assert forall|b: int| 0 <= b < vr.len() implies vr[b] < n by {}
        assert forall|k: int| 0 <= k < visible.len() implies (v.contains(k) <==> #[trigger] visible[k]) by {
            if k < n {
                assert(visible[k] == rest[k]);
                if vr.contains(k) {
                    let b = choose|b: int| 0 <= b < vr.len() && vr[b] == k;
                    assert(v[b] == k);
                }
                if v.contains(k) {
                    let b = choose|b: int| 0 <= b < v.len() && v[b] == k;
                    if b < vr.len() {
                        assert(v[b] == vr[b]);
                    }
                }
            } else {
                if visible.last() {
                    assert(v[vr.len() as int] == n);
                }
                if v.contains(k) {
                    let b = choose|b: int| 0 <= b < v.len() && v[b] == k;
                    if b < vr.len() {
                        assert(v[b] == vr[b]);
                    }
                }
            }
        }
        assert forall|b: int| 0 <= b < v.len() implies 0 <= #[trigger] v[b] < visible.len() && visible[v[b]] by {
            if b < vr.len() {
                assert(v[b] == vr[b]);
                assert(rest[vr[b]] == visible[vr[b]]);
            }
        }
    }
}

/// Writes the sprites of the visible chunks one after another in
/// `sprites`, 256 per chunk, and returns the drawn chunks in order.
/// Whether a chunk is visible is decided by its intersection with the view.
pub fn batch_terrain<T: Copy>(chunks: &[WorldTerrainChunkData<T>], visible: &[bool], sprites: &mut Vec<T>) -> (r:
    Vec<usize>)
    requires
        chunks_wf(chunks@),
        visible@.len() == chunks@.len(),
        old(sprites)@.len() >= 256 * visible_chunks(visible@).len(),
    ensures
        r@.len() == visible_chunks(visible@).len(),
        forall|b: int| 0 <= b < r@.len() ==> #[trigger] r@[b] == visible_chunks(visible@)[b],
        final(sprites)@.len() == old(sprites)@.len(),
        forall|b: int, i: int|
            #![trigger final(sprites)@[256 * b + i], r@[b]]
            0 <= b < r@.len() && 0 <= i < 256 ==> final(sprites)@[256 * b + i] == chunks@[r@[b] as int].cells@[i],
        forall|j: int|
            256 * r@.len() <= j < final(sprites)@.len() ==> #[trigger] final(sprites)@[j] == old(sprites)@[j],
        forall|k: int| 0 <= k < visible@.len() ==> (r@.contains(k as usize) <==> #[trigger] visible@[k]),
        forall|a: int, b: int| 0 <= a < b < r@.len() ==> #[trigger] r@[a] < #[trigger] r@[b],
{
    proof {
        lemma_visible_chunks_bound(visible@);
    }
    let mut drawn: Vec<usize> = Vec::new();
    let mut k: usize = 0;
    while k < chunks.len()
        invariant
            chunks_wf(chunks@),
            visible@.len() == chunks@.len(),
            k <= chunks@.len(),
            old(sprites)@.len() >= 256 * visible_chunks(visible@).len(),
            visible_chunks(visible@).len() <= visible@.len(),
            drawn@ == visible_chunks(visible@.take(k as int)).map_values(|c: int| c as usize),
            visible_chunks(visible@.take(k as int)).len() <= visible_chunks(visible@).len(),
            sprites@.len() == old(sprites)@.len(),
            forall|b: int, i: int|
                #![trigger sprites@[256 * b + i], drawn@[b]]
                0 <= b < drawn@.len() && 0 <= i < 256 ==> sprites@[256 * b + i] == chunks@[drawn@[b] as int].cells@[i],
            forall|j: int| 256 * drawn@.len() <= j < sprites@.len() ==> #[trigger] sprites@[j] == old(sprites)@[j],
        decreases chunks@.len() - k,
    {
        proof {
            assert(visible@.take(k + 1).drop_last() =~= visible@.take(k as int));
            lemma_visible_prefix_len(visible@, k as int + 1);
            lemma_visible_chunks_bound(visible@.take(k as int));
        }
        if visible[k] {
            proof {
                let t = visible@.take(k + 1);
                assert(t.last() == visible@[k as int]);
                assert(visible_chunks(t) == visible_chunks(visible@.take(k as int)).push(k as int));
                assert(drawn@.len() + 1 <= visible_chunks(visible@).len());
            }
            let slen = sprites.len();
            assert(256 * drawn@.len() + 256 <= slen);
            let base = 256 * drawn.len();
            let mut i: usize = 0;
            while i < 256
                invariant
                    i <= 256,
                    k < chunks@.len(),
                    chunks_wf(chunks@),
                    base == 256 * drawn@.len(),
                    base + 256 <= sprites@.len(),
                    sprites@.len() == old(sprites)@.len(),
                    forall|b: int, i2: int|
                        #![trigger sprites@[256 * b + i2], drawn@[b]]
                        0 <= b < drawn@.len() && 0 <= i2 < 256 ==> sprites@[256 * b + i2] == chunks@[drawn@[b] as int].cells@[i2],
                    forall|j: int| 0 <= j < i ==> #[trigger] sprites@[base + j] == chunks@[k as int].cells@[j],
                    forall|j: int| base + i <= j < sprites@.len() ==> #[trigger] sprites@[j] == old(sprites)@[j],
                decreases 256 - i,
            {
                let v = chunks[k].cells[i];
                sprites.set(base + i, v);
                i = i + 1;
            }
            let ghost before = drawn@;
            drawn.push(k);
            proof {
                assert forall|b: int, i2: int|
                    #![trigger sprites@[256 * b + i2], drawn@[b]]
                    0 <= b < drawn@.len() && 0 <= i2 < 256 implies sprites@[256 * b + i2] == chunks@[drawn@[b] as int].cells@[i2] by {
                    if b < before.len() {
                        assert(drawn@[b] == before[b]);
                    } else {
                        assert(sprites@[base + i2] == chunks@[k as int].cells@[i2]);
                    }
                }
                assert(drawn@ =~= visible_chunks(visible@.take(k + 1)).map_values(|c: int| c as usize));
            }
        } else {
            proof {
                assert(drawn@ =~= visible_chunks(visible@.take(k + 1)).map_values(|c: int| c as usize));
            }
        }
        k = k + 1;
    }
    proof {
        assert(visible@.take(chunks@.len() as int) =~= visible@);
        assert forall|b: int| 0 <= b < drawn@.len() implies #[trigger] drawn@[b] == visible_chunks(visible@)[b] by {
            lemma_visible_chunks_bound(visible@);
        }
        lemma_visible_chunks_exact(visible@);
        let v = visible_chunks(visible@);
        assert forall|k: int| 0 <= k < visible@.len() implies (drawn@.contains(k as usize) <==> #[trigger] visible@[k]) by {
            if visible@[k] {
                assert(v.contains(k));
                let b = choose|b: int| 0 <= b < v.len() && v[b] == k;
                assert(drawn@[b] == k);
            }
            if drawn@.contains(k as usize) {
                let b = choose|b: int| 0 <= b < drawn@.len() && drawn@[b] == k as usize;
                assert(v[b] == k);
            }
        }
        assert forall|a: int, b: int| 0 <= a < b < drawn@.len() implies #[trigger] drawn@[a] < #[trigger] drawn@[b] by {
            assert(v[a] < v[b]);
        }
    }
    drawn
}

proof fn lemma_visible_prefix_len(visible: Seq<bool>, k: int)
    requires
        0 <= k <= visible.len(),
    ensures
        visible_chunks(visible.take(k)).len() <= visible_chunks(visible).len(),
        visible_chunks(visible.take(k)) =~= visible_chunks(visible).take(
            visible_chunks(visible.take(k)).len() as int,
        ),
    decreases visible.len() - k,
{
    if k < visible.len() {
        lemma_visible_prefix_len(visible, k + 1);
        assert(visible.take(k + 1).drop_last() =~= visible.take(k));
    } else {
        assert(visible.take(k) =~= visible);
    }
}

/// Whether some chunk enters or leaves the view: `now` and `before` say for
/// each chunk whether it intersects the new and the old view.
pub fn terrain_view_changed(now: &[bool], before: &[bool]) -> (r: bool)
    requires
        now@.len() == before@.len(),
    ensures
        r == exists|k: int| 0 <= k < now@.len() && #[trigger] now@[k] != before@[k],
{
    let mut k: usize = 0;
    while k < now.len()
        invariant
            now@.len() == before@.len(),
            k <= now@.len(),
            forall|j: int| 0 <= j < k ==> #[trigger] now@[j] == before@[j],
        decreases now@.len() - k,
    {
        if now[k] != before[k] {
            return true;
        }
        k = k + 1;
    }
    false
}


//
// Debug grid
//

/// Appends the six indices of the quad whose first vertex is `i`: its two
/// triangles, as for the gui sprites.
pub fn write_indices(index: &mut Vec<u32>, i: u32)
    requires
        i + 3 <= u32::MAX,
    ensures
        final(index)@ == old(index)@ + Seq::new(6, |j: int| (i + crate::gui_batch::quad_corner(j)) as u32),
{
    index.push(i);
    index.push(i + 1);
    index.push(i + 2);
    index.push(i + 2);
    index.push(i + 3);
    index.push(i + 1);
    proof {
        assert(index@ =~= old(index)@ + Seq::new(6, |j: int| (i + crate::gui_batch::quad_corner(j)) as u32));
    }
}


/// What the world must rebuild after the updates of a frame: the actor
/// batches when `UPDATE_ACTORS` is set, the terrain sprites when
/// `UPDATE_TERRAIN` is set. Both flags are cleared.
pub fn take_updates(flags: &mut WorldFlags) -> (r: (bool, bool))
    ensures
        r.0 == (old(flags).bits & UPDATE_ACTORS == UPDATE_ACTORS),
        r.1 == (old(flags).bits & UPDATE_TERRAIN == UPDATE_TERRAIN),
        final(flags).bits == old(flags).bits & !UPDATE_ACTORS & !UPDATE_TERRAIN,
{
    let actors = flags.contains(UPDATE_ACTORS);
    if actors {
        flags.remove(UPDATE_ACTORS);
    }
    let terrain = flags.contains(UPDATE_TERRAIN);
    if terrain {
        flags.remove(UPDATE_TERRAIN);
    }
    proof {
        let b = old(flags).bits;
        assert((b & !UPDATE_ACTORS) & UPDATE_TERRAIN == b & UPDATE_TERRAIN) by (bit_vector);
        assert(b & UPDATE_ACTORS != UPDATE_ACTORS ==> b & !UPDATE_ACTORS == b) by (bit_vector);
        assert(b & UPDATE_TERRAIN != UPDATE_TERRAIN ==> (b & !UPDATE_ACTORS) & !UPDATE_TERRAIN == b & !UPDATE_ACTORS) by (bit_vector);
    }
    (actors, terrain)
}

/// The descriptor set layout of the textures of actor batches, by its
/// position among the layouts the world module preallocates.
pub const ACTOR_BATCH_LAYOUT_ID: usize = 2;

/// The one binding of a texture set of the actor batches: the image view,
/// ready to be read by shaders, with its sampler.
pub open spec fn texture_binding(view: u64, sampler: u64) -> DescriptorWriteBinding {
    DescriptorWriteBinding::Image { image_view: view, sampler, image_layout: LAYOUT_SHADER_READ_ONLY_OPTIMAL }
}

/// Gives the texture of asset `id`, just created with the image view
/// `view`, the next descriptor set of the actor batch layout, whose image
/// binding is written with the view and `sampler`, and remembers the view
/// and the set in `cache`. When every set of the layout is in use, the
/// cache, the allocator and the writes stay as they were and the error is
/// returned.
pub fn store_actor_texture(
    cache: &mut TextureCache,
    allocator: &mut DescriptorsAllocator,
    updates: &mut VulkanDescriptorSubmit,
    id: u64,
    view: u64,
    sampler: u64,
) -> (r: Result<u64, DescriptorError>)
    requires
        old(allocator).wf(),
        ACTOR_BATCH_LAYOUT_ID < old(allocator).collections@.len(),
        old(allocator).collections@[ACTOR_BATCH_LAYOUT_ID as int].binding_types@.len() >= 1,
    ensures
        final(allocator).wf(),
        final(allocator).pool == old(allocator).pool,
        final(allocator).collections@.len() == old(allocator).collections@.len(),
        forall|c: int|
            0 <= c < old(allocator).collections@.len() && c != ACTOR_BATCH_LAYOUT_ID
                ==> #[trigger] final(allocator).collections@[c] == old(allocator).collections@[c],
        ({
            let col = old(allocator).collections@[ACTOR_BATCH_LAYOUT_ID as int];
            if col.next == col.sets@.len() {
                &&& r == Err::<u64, DescriptorError>(DescriptorError::NoMoreSets(ACTOR_BATCH_LAYOUT_ID))
                &&& final(allocator).collections@[ACTOR_BATCH_LAYOUT_ID as int].next == col.next
                &&& final(cache).contents() == old(cache).contents()
                &&& final(updates).view() == old(updates).view()
            } else {
                let set = col.sets@[col.next as int];
                &&& r == Ok::<u64, DescriptorError>(set)
                &&& final(allocator).collections@[ACTOR_BATCH_LAYOUT_ID as int].next == col.next + 1
                &&& final(cache).contents() == old(cache).contents().insert(id, (view, set))
                &&& final(updates).view() == apply_writes(
                    old(updates).view(),
                    set,
                    seq![texture_binding(view, sampler)],
                    col.binding_types@,
                )
            }
        }),
{
    let writes = [DescriptorWriteBinding::Image { image_view: view, sampler, image_layout: LAYOUT_SHADER_READ_ONLY_OPTIMAL }];
    proof {
        assert(writes@ =~= seq![texture_binding(view, sampler)]);
    }
    let set = allocator.write_set(ACTOR_BATCH_LAYOUT_ID, &writes, updates)?;
    cache.store(id, view, set);
    Ok(set)
}

} // verus!
