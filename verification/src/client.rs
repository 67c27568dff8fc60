//! The state of the game client that is saved between sessions, as numbers:
//! the game state, the input flags, the pawn animations, and the names of
//! the animations in the animation sheets.

use vstd::prelude::*;

verus! {

/// The screen the client shows.
#[derive(Copy, Clone, PartialEq, Eq, Structural, Debug)]
pub enum GameState {
    Uninitialized,
    MainMenu,
    Game,
    Editor,
}

/// The game state saved as `v`; an unknown number reads as uninitialized.
pub open spec fn game_state_of(v: u32) -> GameState {
    if v == 1 {
        GameState::MainMenu
    } else if v == 2 {
        GameState::Game
    } else if v == 3 {
        GameState::Editor
    } else {
        GameState::Uninitialized
    }
}

/// The number a game state is saved as.
pub open spec fn game_state_code(s: GameState) -> u32 {
    match s {
        GameState::Uninitialized => 0,
        GameState::MainMenu => 1,
        GameState::Game => 2,
        GameState::Editor => 3,
    }
}

impl From<u32> for GameState {
    fn from(value: u32) -> (r: Self) {
        if value == 1 {
            GameState::MainMenu
        } else if value == 2 {
            GameState::Game
        } else if value == 3 {
            GameState::Editor
        } else {
            GameState::Uninitialized
        }
    }
}

impl vstd::std_specs::convert::FromSpecImpl<u32> for GameState {
    open spec fn obeys_from_spec() -> bool {
        true
    }

    open spec fn from_spec(v: u32) -> GameState {
        game_state_of(v)
    }
}

impl From<GameState> for u32 {
    fn from(value: GameState) -> (r: u32) {
        match value {
            GameState::Uninitialized => 0,
            GameState::MainMenu => 1,
            GameState::Game => 2,
            GameState::Editor => 3,
        }
    }
}

impl vstd::std_specs::convert::FromSpecImpl<GameState> for u32 {
    open spec fn obeys_from_spec() -> bool {
        true
    }

    open spec fn from_spec(v: GameState) -> u32 {
        game_state_code(v)
    }
}

/// A saved game state reads back as itself; a number reads back as itself
/// when it names a game state, else as the code of the uninitialized state.
pub proof fn lemma_game_state_round_trip(s: GameState, v: u32)
    ensures
        game_state_of(game_state_code(s)) == s,
        game_state_code(game_state_of(v)) == if v <= 3 { v } else { 0 },
{
}

/// What the pawn of the player is doing.
#[derive(Copy, Clone, PartialEq, Eq, Structural, Debug)]
pub enum PawnAnimationType {
    Idle,
    Walk,
    Hammer,
    Axe,
    IdleHold,
    IdleWalk,
}

/// The pawn animation saved as `v`; an unknown number reads as idle.
pub open spec fn pawn_animation_of(v: u32) -> PawnAnimationType {
    if v == 1 {
        PawnAnimationType::Walk
    } else if v == 2 {
        PawnAnimationType::Hammer
    } else if v == 3 {
        PawnAnimationType::Axe
    } else if v == 4 {
        PawnAnimationType::IdleHold
    } else if v == 5 {
        PawnAnimationType::IdleWalk
    } else {
        PawnAnimationType::Idle
    }
}

/// The number a pawn animation is saved as.
pub open spec fn pawn_animation_code(a: PawnAnimationType) -> u32 {
    match a {
        PawnAnimationType::Idle => 0,
        PawnAnimationType::Walk => 1,
        PawnAnimationType::Hammer => 2,
        PawnAnimationType::Axe => 3,
        PawnAnimationType::IdleHold => 4,
        PawnAnimationType::IdleWalk => 5,
    }
}

impl PawnAnimationType {
    /// The pawn animation of a new pawn.
    pub fn default() -> (r: Self)
        ensures
            r == PawnAnimationType::Idle,
    {
        PawnAnimationType::Idle
    }
}

impl From<u32> for PawnAnimationType {
    fn from(value: u32) -> (r: Self) {
        if value == 1 {
            PawnAnimationType::Walk
        } else if value == 2 {
            PawnAnimationType::Hammer
        } else if value == 3 {
            PawnAnimationType::Axe
        } else if value == 4 {
            PawnAnimationType::IdleHold
        } else if value == 5 {
            PawnAnimationType::IdleWalk
        } else {
            PawnAnimationType::Idle
        }
    }
}

impl vstd::std_specs::convert::FromSpecImpl<u32> for PawnAnimationType {
    open spec fn obeys_from_spec() -> bool {
        true
    }

    open spec fn from_spec(v: u32) -> PawnAnimationType {
        pawn_animation_of(v)
    }
}

impl From<PawnAnimationType> for u32 {
    fn from(value: PawnAnimationType) -> (r: u32) {
        match value {
            PawnAnimationType::Idle => 0,
            PawnAnimationType::Walk => 1,
            PawnAnimationType::Hammer => 2,
            PawnAnimationType::Axe => 3,
            PawnAnimationType::IdleHold => 4,
            PawnAnimationType::IdleWalk => 5,
        }
    }
}

impl vstd::std_specs::convert::FromSpecImpl<PawnAnimationType> for u32 {
    open spec fn obeys_from_spec() -> bool {
        true
    }

    open spec fn from_spec(v: PawnAnimationType) -> u32 {
        pawn_animation_code(v)
    }
}

/// A saved pawn animation reads back as itself; a number reads back as
/// itself when it names an animation, else as the code of idle.
pub proof fn lemma_pawn_animation_round_trip(a: PawnAnimationType, v: u32)
    ensures
        pawn_animation_of(pawn_animation_code(a)) == a,
        pawn_animation_code(pawn_animation_of(v)) == if v <= 5 { v } else { 0 },
{
}

/// Input flag: the player drags the view.
pub const DRAGGING_VIEW: u8 = 0b0001;

/// The input flags of the client.
#[derive(Copy, Clone, PartialEq, Eq, Structural, Debug)]
pub struct GameInputFlags {
    pub bits: u8,
}

/// The input flags saved as `v`: its low byte, unless that byte has a bit
/// that names no flag, in which case no flag is set.
pub open spec fn input_flags_of(v: u32) -> u8 {
    let b = (v % 256) as u8;
    if b & !DRAGGING_VIEW == 0 {
        b
    } else {
        0
    }
}

impl GameInputFlags {
    /// No flag set.
    pub fn empty() -> (f: Self)
        ensures
            f.bits == 0,
    {
        GameInputFlags { bits: 0 }
    }

    /// The flags saved as `value`.
    pub fn from_u32(value: u32) -> (f: Self)
        ensures
            f.bits == input_flags_of(value),
    {
        let b = (value % 256) as u8;
        if b & !DRAGGING_VIEW == 0 {
            GameInputFlags { bits: b }
        } else {
            GameInputFlags { bits: 0 }
        }
    }

    /// The number the flags are saved as.
    pub fn to_u32(&self) -> (v: u32)
        ensures
            v == self.bits as u32,
    {
        self.bits as u32
    }
}

/// Saved input flags that name only known flags read back as themselves.
pub proof fn lemma_input_flags_round_trip(bits: u8)
    requires
        bits & !DRAGGING_VIEW == 0,
    ensures
        input_flags_of(bits as u32) == bits,
{
    assert((bits as u32) % 256 == bits as u32);
}

/// Debug flag: draw the main grid of the world.
pub const SHOW_MAIN_GRID: u8 = 0b0001;
/// Debug flag: draw the sub grid of the world.
pub const SHOW_SUB_GRID: u8 = 0b0010;
/// Debug flag: draw the kind of each cell of the main grid.
pub const SHOW_MAIN_GRID_TYPES: u8 = 0b0100;

/// The world debug flags after the keys 1, 2 and 3 were pressed or not:
/// each pressed key toggles its flag. Returns the new flags and whether
/// any changed.
pub fn toggle_debug_flags(flags: u8, key1: bool, key2: bool, key3: bool) -> (r: (u8, bool))
    ensures
        r.0 == flags ^ ((if key1 { SHOW_MAIN_GRID } else { 0u8 }) | (if key2 { SHOW_SUB_GRID } else { 0u8 }) | (
        if key3 { SHOW_MAIN_GRID_TYPES } else { 0u8 })),
        r.1 == (key1 || key2 || key3),
{
    let mut f = flags;
    let mut update = false;
    if key1 {
        f = f ^ SHOW_MAIN_GRID;
        update = true;
    }
    if key2 {
        f = f ^ SHOW_SUB_GRID;
        update = true;
    }
    if key3 {
        f = f ^ SHOW_MAIN_GRID_TYPES;
        update = true;
    }
    proof {
        let a: u8 = if key1 { SHOW_MAIN_GRID } else { 0u8 };
        let b: u8 = if key2 { SHOW_SUB_GRID } else { 0u8 };
        let c: u8 = if key3 { SHOW_MAIN_GRID_TYPES } else { 0u8 };
        assert(((flags ^ a) ^ b) ^ c == flags ^ (a | b | c)) by (bit_vector)
            requires
                a == 0 || a == 1,
                b == 0 || b == 2,
                c == 0 || c == 4,
        ;
        assert(flags ^ 0u8 == flags) by (bit_vector);
        assert(f == ((flags ^ a) ^ b) ^ c) by {
            assert(forall|x: u8| #[trigger] (x ^ 0u8) == x) by (bit_vector);
        }
    }
    (f, update)
}

/// Pressing the same debug keys twice gives back the flags of before.
pub proof fn lemma_debug_toggle_twice(flags: u8, mask: u8)
    ensures
        (flags ^ mask) ^ mask == flags,
{
    assert((flags ^ mask) ^ mask == flags) by (bit_vector);
}

/// The world debug flags saved as `v`: its low byte, unless that byte has
/// a bit that names no flag, in which case no flag is set.
pub open spec fn debug_flags_of(v: u32) -> u8 {
    let b = (v % 256) as u8;
    if b & !(SHOW_MAIN_GRID | SHOW_SUB_GRID | SHOW_MAIN_GRID_TYPES) == 0 {
        b
    } else {
        0
    }
}

/// The world debug flags saved as `value`.
pub fn debug_flags_from_u32(value: u32) -> (f: u8)
    ensures
        f == debug_flags_of(value),
{
    let b = (value % 256) as u8;
    if b & !(SHOW_MAIN_GRID | SHOW_SUB_GRID | SHOW_MAIN_GRID_TYPES) == 0 {
        b
    } else {
        0
    }
}

/// Saved debug flags that name only known flags read back as themselves.
pub proof fn lemma_debug_flags_round_trip(bits: u8)
    requires
        bits & !(SHOW_MAIN_GRID | SHOW_SUB_GRID | SHOW_MAIN_GRID_TYPES) == 0,
    ensures
        debug_flags_of(bits as u32) == bits,
{
    assert((bits as u32) % 256 == bits as u32);
}

/// Event of the debug menu bar: exit the game.
pub const DEBUG_EXIT_EVENT: u64 = 1001;

/// Whether an event of the debug menu bar asks to exit the game.
pub fn debug_gui_event_exits(event: u64) -> (r: bool)
    ensures
        r == (event == DEBUG_EXIT_EVENT),
{
    event == DEBUG_EXIT_EVENT
}

/// The slot of a pawn animation in the pawn animation sheet, by name:
/// idle, walk, hammer, axe, idle_hold and idle_walk in that order.
pub open spec fn pawn_slot(name: Seq<char>) -> Option<int> {
    if name == "idle"@ {
        Some(0)
    } else if name == "walk"@ {
        Some(1)
    } else if name == "hammer"@ {
        Some(2)
    } else if name == "axe"@ {
        Some(3)
    } else if name == "idle_hold"@ {
        Some(4)
    } else if name == "idle_walk"@ {
        Some(5)
    } else {
        None
    }
}

/// The slot of a warrior animation in the warrior animation sheet, by name.
pub open spec fn warrior_slot(name: Seq<char>) -> Option<int> {
    if name == "idle"@ {
        Some(0)
    } else if name == "walk"@ {
        Some(1)
    } else if name == "strike-horz-1"@ {
        Some(2)
    } else if name == "strike-horz-2"@ {
        Some(3)
    } else if name == "strike-bottom-1"@ {
        Some(4)
    } else if name == "strike-bottom-2"@ {
        Some(5)
    } else if name == "strike-top-1"@ {
        Some(6)
    } else if name == "strike-top-2"@ {
        Some(7)
    } else {
        None
    }
}

fn names_match(name: &String, literal: &str) -> (r: bool)
    ensures
        r == (name@ == literal@),
{
    let other = String::from_str(literal);
    *name == other
}

/// The ids of the pawn animations.
#[derive(Copy, Clone, PartialEq, Eq, Structural, Debug)]
pub struct PawnAnimation {
    pub idle: u32,
    pub walk: u32,
    pub hammer: u32,
    pub axe: u32,
    pub idle_hold: u32,
    pub idle_walk: u32,
}

/// The id at `slot` of the pawn animations.
pub open spec fn pawn_id_at(p: PawnAnimation, slot: int) -> u32 {
    if slot == 0 {
        p.idle
    } else if slot == 1 {
        p.walk
    } else if slot == 2 {
        p.hammer
    } else if slot == 3 {
        p.axe
    } else if slot == 4 {
        p.idle_hold
    } else {
        p.idle_walk
    }
}

impl PawnAnimation {
    /// The id of the pawn animation named `name`, if the sheet has one.
    pub fn map_id(&self, name: &String) -> (r: Option<u32>)
        ensures
            match pawn_slot(name@) {
                Some(slot) => r == Some(pawn_id_at(*self, slot)),
                None => r is None,
            },
    {
        if names_match(name, "idle") {
            Some(self.idle)
        } else if names_match(name, "walk") {
            Some(self.walk)
        } else if names_match(name, "hammer") {
            Some(self.hammer)
        } else if names_match(name, "axe") {
            Some(self.axe)
        } else if names_match(name, "idle_hold") {
            Some(self.idle_hold)
        } else if names_match(name, "idle_walk") {
            Some(self.idle_walk)
        } else {
            None
        }
    }
}

/// The ids of the warrior animations.
#[derive(Copy, Clone, PartialEq, Eq, Structural, Debug)]
pub struct WarriorAnimation {
    pub idle: u32,
    pub walk: u32,
    pub strike_h1: u32,
    pub strike_h2: u32,
    pub strike_b1: u32,
    pub strike_b2: u32,
    pub strike_t1: u32,
    pub strike_t2: u32,
}

/// The id at `slot` of the warrior animations.
pub open spec fn warrior_id_at(w: WarriorAnimation, slot: int) -> u32 {
    if slot == 0 {
        w.idle
    } else if slot == 1 {
        w.walk
    } else if slot == 2 {
        w.strike_h1
    } else if slot == 3 {
        w.strike_h2
    } else if slot == 4 {
        w.strike_b1
    } else if slot == 5 {
        w.strike_b2
    } else if slot == 6 {
        w.strike_t1
    } else {
        w.strike_t2
    }
}

impl WarriorAnimation {
    /// The id of the warrior animation named `name`, if the sheet has one.
    pub fn map_id(&self, name: &String) -> (r: Option<u32>)
        ensures
            match warrior_slot(name@) {
                Some(slot) => r == Some(warrior_id_at(*self, slot)),
                None => r is None,
            },
    {
        if names_match(name, "idle") {
            Some(self.idle)
        } else if names_match(name, "walk") {
            Some(self.walk)
        } else if names_match(name, "strike-horz-1") {
            Some(self.strike_h1)
        } else if names_match(name, "strike-horz-2") {
            Some(self.strike_h2)
        } else if names_match(name, "strike-bottom-1") {
            Some(self.strike_b1)
        } else if names_match(name, "strike-bottom-2") {
            Some(self.strike_b2)
        } else if names_match(name, "strike-top-1") {
            Some(self.strike_t1)
        } else if names_match(name, "strike-top-2") {
            Some(self.strike_t2)
        } else {
            None
        }
    }
}

/// Each warrior animation name gives the id of its own animation, and no
/// two names give the same animation.
pub proof fn lemma_warrior_names(w: WarriorAnimation)
    ensures
        sheet_id(AnimationSheet::Warrior(w), "idle"@) == Some(w.idle),
        sheet_id(AnimationSheet::Warrior(w), "walk"@) == Some(w.walk),
        sheet_id(AnimationSheet::Warrior(w), "strike-horz-1"@) == Some(w.strike_h1),
        sheet_id(AnimationSheet::Warrior(w), "strike-horz-2"@) == Some(w.strike_h2),
        sheet_id(AnimationSheet::Warrior(w), "strike-bottom-1"@) == Some(w.strike_b1),
        sheet_id(AnimationSheet::Warrior(w), "strike-bottom-2"@) == Some(w.strike_b2),
        sheet_id(AnimationSheet::Warrior(w), "strike-top-1"@) == Some(w.strike_t1),
        sheet_id(AnimationSheet::Warrior(w), "strike-top-2"@) == Some(w.strike_t2),
        forall|n1: Seq<char>, n2: Seq<char>|
            #[trigger] warrior_slot(n1) is Some && #[trigger] warrior_slot(n2) is Some && n1 != n2 ==> warrior_slot(n1)
                != warrior_slot(n2),
{
    reveal_strlit("idle");
    reveal_strlit("walk");
    reveal_strlit("strike-horz-1");
    reveal_strlit("strike-horz-2");
    reveal_strlit("strike-bottom-1");
    reveal_strlit("strike-bottom-2");
    reveal_strlit("strike-top-1");
    reveal_strlit("strike-top-2");
    assert("walk"@[0] != "idle"@[0]);
    assert("strike-horz-1"@.len() != "idle"@.len() && "strike-horz-1"@.len() != "walk"@.len());
    assert("strike-horz-2"@[12] != "strike-horz-1"@[12]);
    assert("strike-bottom-1"@.len() != "strike-horz-1"@.len());
    assert("strike-bottom-2"@[14] != "strike-bottom-1"@[14]);
    assert("strike-top-1"@[7] != "strike-horz-1"@[7] && "strike-top-1"@[7] != "strike-horz-2"@[7]);
    assert("strike-top-1"@.len() != "strike-bottom-1"@.len());
    assert("strike-top-2"@[11] != "strike-top-1"@[11]);
    assert("strike-top-2"@[7] != "strike-horz-1"@[7] && "strike-top-2"@[7] != "strike-horz-2"@[7]);
}

/// Each pawn animation name gives the id of its own animation, and no two
/// names give the same animation.
pub proof fn lemma_pawn_names(p: PawnAnimation)
    ensures
        sheet_id(AnimationSheet::Pawn(p), "idle"@) == Some(p.idle),
        sheet_id(AnimationSheet::Pawn(p), "walk"@) == Some(p.walk),
        sheet_id(AnimationSheet::Pawn(p), "hammer"@) == Some(p.hammer),
        sheet_id(AnimationSheet::Pawn(p), "axe"@) == Some(p.axe),
        sheet_id(AnimationSheet::Pawn(p), "idle_hold"@) == Some(p.idle_hold),
        sheet_id(AnimationSheet::Pawn(p), "idle_walk"@) == Some(p.idle_walk),
        forall|n1: Seq<char>, n2: Seq<char>|
            #[trigger] pawn_slot(n1) is Some && #[trigger] pawn_slot(n2) is Some && n1 != n2 ==> pawn_slot(n1)
                != pawn_slot(n2),
{
    reveal_strlit("idle");
    reveal_strlit("walk");
    reveal_strlit("hammer");
    reveal_strlit("axe");
    reveal_strlit("idle_hold");
    reveal_strlit("idle_walk");
    assert("walk"@[0] != "idle"@[0]);
    assert("hammer"@.len() != "idle"@.len() && "hammer"@.len() != "walk"@.len());
    assert("axe"@.len() != "idle"@.len() && "axe"@.len() != "walk"@.len() && "axe"@.len() != "hammer"@.len());
    assert("idle_hold"@.len() != "idle"@.len() && "idle_hold"@.len() != "hammer"@.len());
    assert("idle_walk"@[5] != "idle_hold"@[5]);
}

/// The sprite count an animation entry gives: its count field read as an
/// unsigned integer truncated to 32 bits, `0` when it is not one.
pub open spec fn sprite_count_of(count: Option<u64>) -> u32 {
    match count {
        Some(v) => (v % 0x1_0000_0000) as u32,
        None => 0,
    }
}

/// The last frame of an animation entry whose count field reads as
/// `count`: the sprite count minus one, truncated to 8 bits; `None` when
/// the entry has no sprite and is skipped.
pub fn animation_last_frame(count: Option<u64>) -> (r: Option<u8>)
    ensures
        sprite_count_of(count) == 0 ==> r is None,
        sprite_count_of(count) != 0 ==> r == Some(((sprite_count_of(count) - 1) % 256) as u8),
{
    let sprite_count: u32 = match count {
        Some(v) => (v % 0x1_0000_0000) as u32,
        None => 0,
    };
    if sprite_count == 0 {
        return None;
    }
    Some(((sprite_count - 1) % 256) as u8)
}


/// An animation sheet and the ids of its animations.
#[derive(Copy, Clone, PartialEq, Eq, Structural, Debug)]
pub enum AnimationSheet {
    Pawn(PawnAnimation),
    Warrior(WarriorAnimation),
}

/// The id of the animation named `name` in `sheet`, if it has one.
pub open spec fn sheet_id(sheet: AnimationSheet, name: Seq<char>) -> Option<u32> {
    match sheet {
        AnimationSheet::Pawn(p) => match pawn_slot(name) {
            Some(slot) => Some(pawn_id_at(p, slot)),
            None => None,
        },
        AnimationSheet::Warrior(w) => match warrior_slot(name) {
            Some(slot) => Some(warrior_id_at(w, slot)),
            None => None,
        },
    }
}

/// An entry of an animation sheet that becomes an animation: its position
/// in the sheet, the id it is created under and its last frame.
#[derive(Copy, Clone, PartialEq, Eq, Structural, Debug)]
pub struct SelectedAnimation {
    pub entry: usize,
    pub id: u32,
    pub last_frame: u8,
}

/// The entries, from the first `n`, that become animations: those whose
/// name is known to the sheet and that have sprites.
pub open spec fn selected_entries(
    sheet: AnimationSheet,
    names: Seq<Option<String>>,
    counts: Seq<Option<u64>>,
    n: int,
) -> Seq<SelectedAnimation>
    decreases n,
{
    if n <= 0 {
        Seq::empty()
    } else {
        let rest = selected_entries(sheet, names, counts, n - 1);
        let i = n - 1;
        match names[i] {
            None => rest,
            Some(name) => match sheet_id(sheet, name@) {
                None => rest,
                Some(id) => if sprite_count_of(counts[i]) == 0 {
                    rest
                } else {
                    rest.push(
                        SelectedAnimation {
                            entry: i as usize,
                            id,
                            last_frame: ((sprite_count_of(counts[i]) - 1) % 256) as u8,
                        },
                    )
                },
            },
        }
    }
}

/// The entries of an animation sheet that become animations, given the
/// name (if it is a string) and the count (if it is an unsigned integer) of
/// each entry: entries with an unknown name or no sprite are skipped.
pub fn select_animation_entries(sheet: &AnimationSheet, names: &[Option<String>], counts: &[Option<u64>]) -> (r: Vec<SelectedAnimation>)
    requires
        names@.len() == counts@.len(),
    ensures
        r@ == selected_entries(*sheet, names@, counts@, names@.len() as int),
{
    let mut out: Vec<SelectedAnimation> = Vec::new();
    let mut i: usize = 0;
    while i < names.len()
        invariant
            names@.len() == counts@.len(),
            i <= names@.len(),
            out@ == selected_entries(*sheet, names@, counts@, i as int),
        decreases names@.len() - i,
    {
        match &names[i] {
            None => {},
            Some(name) => {
                let id = match sheet {
                    AnimationSheet::Pawn(p) => p.map_id(name),
                    AnimationSheet::Warrior(w) => w.map_id(name),
                };
                match id {
                    None => {},
                    Some(id) => {
                        match animation_last_frame(counts[i]) {
                            None => {},
                            Some(last_frame) => {
                                out.push(SelectedAnimation { entry: i, id, last_frame });
                            },
                        }
                    },
                }
            },
        }
        i = i + 1;
    }
    out
}


//
// Animation sheets
//

/// An entry of the `animations` array of an animation sheet as the
/// selection reads it: its `name` member if it is a string, its `count`
/// member if it is an unsigned integer.
#[derive(Clone, Debug, PartialEq, Eq)]
pub struct AnimationEntryDoc {
    pub name: Option<String>,
    pub count: Option<u64>,
}

/// An animation sheet as the selection reads it: its `asset` member if it
/// is a string, its `animations` member if it is an array.
#[derive(Clone, Debug, PartialEq, Eq)]
pub struct AnimationSheetDoc {
    pub asset: Option<String>,
    pub animations: Option<Vec<AnimationEntryDoc>>,
}

/// The names of the entries.
pub open spec fn entry_names(entries: Seq<AnimationEntryDoc>) -> Seq<Option<String>> {
    entries.map_values(|e: AnimationEntryDoc| e.name)
}

/// The counts of the entries.
pub open spec fn entry_counts(entries: Seq<AnimationEntryDoc>) -> Seq<Option<u64>> {
    entries.map_values(|e: AnimationEntryDoc| e.count)
}

/// The sprite count of an animation entry: its `count` member truncated to
/// 32 bits, `0` when it is not an unsigned integer.
pub fn parse_u32(count: Option<u64>) -> (r: u32)
    ensures
        r == sprite_count_of(count),
{
    match count {
        Some(v) => (v % 0x1_0000_0000) as u32,
        None => 0,
    }
}

/// Reads an animation sheet: the name of its texture (empty when it has
/// none), and the entries that become animations, by position in its
/// `animations` array, as `select_animation_entries` selects them; `None`
/// when the sheet has no such array.
pub fn animation_sheet_entries(sheet: &AnimationSheet, doc: &AnimationSheetDoc) -> (r: (String, Option<Vec<SelectedAnimation>>))
    ensures
        r.0@ == match doc.asset {
            Some(asset) => asset@,
            None => Seq::<char>::empty(),
        },
        match doc.animations {
            None => r.1 is None,
            Some(entries) => r.1 matches Some(selected) && selected@ == selected_entries(
                *sheet,
                entry_names(entries@),
                entry_counts(entries@),
                entries@.len() as int,
            ),
        },
{
    let asset = match &doc.asset {
        Some(name) => name.clone(),
        None => String::new(),
    };
    let entries = match &doc.animations {
        Some(entries) => entries,
        None => {
            return (asset, None);
        },
    };
    let mut names: Vec<Option<String>> = Vec::new();
    let mut counts: Vec<Option<u64>> = Vec::new();
    let mut i: usize = 0;
    while i < entries.len()
        invariant
            i <= entries@.len(),
            names@ == entry_names(entries@).take(i as int),
            counts@ == entry_counts(entries@).take(i as int),
        decreases entries@.len() - i,
    {
        let name = match &entries[i].name {
            Some(n) => Some(n.clone()),
            None => None,
        };
        names.push(name);
        counts.push(entries[i].count);
        proof {
            assert(names@ =~= entry_names(entries@).take(i + 1));
            assert(counts@ =~= entry_counts(entries@).take(i + 1));
        }
        i = i + 1;
    }
    proof {
        assert(names@ =~= entry_names(entries@));
        assert(counts@ =~= entry_counts(entries@));
    }
    let selected = select_animation_entries(sheet, &names, &counts);
    (asset, Some(selected))
}


/// The name of the texture of an animation sheet: its `asset` member, empty
/// when it has none.
pub open spec fn sheet_asset(doc: AnimationSheetDoc) -> Seq<char> {
    match doc.asset {
        Some(asset) => asset@,
        None => Seq::<char>::empty(),
    }
}

/// Why an animation sheet could not be loaded.
#[derive(Clone, Debug, PartialEq, Eq)]
pub enum AnimationLoadError {
    /// The game has no json asset for the sheet.
    MissingJson,
    /// The json text of the sheet does not parse.
    BadJson,
    /// The game has no texture of the name the sheet gives.
    MissingTexture(String),
    /// The sheet has no `animations` array.
    MissingAnimations,
}

/// Loads an animation sheet, in the order its parts are looked at: `json`
/// is none when the game has no json asset for the sheet and holds none
/// when its text does not parse; `texture` is the texture the game has
/// under the sheet's asset name. Returns that texture and the entries that
/// become animations, as `animation_sheet_entries` selects them.
pub fn load_animation_sheet(
    sheet: &AnimationSheet,
    json: &Option<Option<AnimationSheetDoc>>,
    texture: Option<u64>,
) -> (r: Result<(u64, Vec<SelectedAnimation>), AnimationLoadError>)
    ensures
        match *json {
            None => r == Err::<(u64, Vec<SelectedAnimation>), AnimationLoadError>(AnimationLoadError::MissingJson),
            Some(None) => r == Err::<(u64, Vec<SelectedAnimation>), AnimationLoadError>(AnimationLoadError::BadJson),
            Some(Some(doc)) => match texture {
                None => r matches Err(AnimationLoadError::MissingTexture(name)) && name@ == sheet_asset(doc),
                Some(t) => match doc.animations {
                    None => r == Err::<(u64, Vec<SelectedAnimation>), AnimationLoadError>(
                        AnimationLoadError::MissingAnimations,
                    ),
                    Some(entries) => r matches Ok((tex, selected)) && tex == t && selected@ == selected_entries(
                        *sheet,
                        entry_names(entries@),
                        entry_counts(entries@),
                        entries@.len() as int,
                    ),
                },
            },
        },
{
    let doc = match json {
        None => {
            return Err(AnimationLoadError::MissingJson);
        },
        Some(None) => {
            return Err(AnimationLoadError::BadJson);
        },
        Some(Some(doc)) => doc,
    };
    let (asset, selected) = animation_sheet_entries(sheet, doc);
    let texture_id = match texture {
        None => {
            return Err(AnimationLoadError::MissingTexture(asset));
        },
        Some(t) => t,
    };
    match selected {
        None => Err(AnimationLoadError::MissingAnimations),
        Some(selected) => Ok((texture_id, selected)),
    }
}


//
// Menus
//

/// Main menu event: start a game.
pub const START_GAME: u64 = 100;
/// Main menu event: open the editor.
pub const START_SANDBOX: u64 = 101;
/// Main menu event: quit.
pub const EXIT_GAME: u64 = 102;
/// Editor menu event: back to the editor.
pub const RETURN_EDITOR: u64 = 200;
/// Editor menu event: back to the main menu.
pub const EXIT_EDITOR: u64 = 201;
/// Game menu event: back to the game.
pub const RETURN_GAMEPLAY: u64 = 300;
/// Game menu event: back to the main menu.
pub const EXIT_GAMEPLAY: u64 = 301;

/// What the client does in answer to a menu event.
#[derive(Copy, Clone, PartialEq, Eq, Structural, Debug)]
pub enum MenuAction {
    /// Start a game.
    StartGame,
    /// Open the editor.
    StartEditor,
    /// Quit the game.
    Exit,
    /// Hide the menu and go on.
    Resume,
    /// Go back to the main menu.
    MainMenu,
    /// Nothing.
    Nothing,
}

/// The answer of the main menu to an event.
pub fn main_menu_action(event: u64) -> (r: MenuAction)
    ensures
        r == if event == START_GAME {
            MenuAction::StartGame
        } else if event == START_SANDBOX {
            MenuAction::StartEditor
        } else if event == EXIT_GAME {
            MenuAction::Exit
        } else {
            MenuAction::Nothing
        },
{
    if event == START_GAME {
        MenuAction::StartGame
    } else if event == START_SANDBOX {
        MenuAction::StartEditor
    } else if event == EXIT_GAME {
        MenuAction::Exit
    } else {
        MenuAction::Nothing
    }
}

/// The answer of the editor menu to an event.
pub fn editor_menu_action(event: u64) -> (r: MenuAction)
    ensures
        r == if event == RETURN_EDITOR {
            MenuAction::Resume
        } else if event == EXIT_EDITOR {
            MenuAction::MainMenu
        } else {
            MenuAction::Nothing
        },
{
    if event == RETURN_EDITOR {
        MenuAction::Resume
    } else if event == EXIT_EDITOR {
        MenuAction::MainMenu
    } else {
        MenuAction::Nothing
    }
}

/// The answer of an in-game menu to all the events of a frame: going on
/// when any event asks for it, else going back to the main menu when any
/// event asks for that.
pub fn menu_events_action(events: &[u64], return_event: u64, exit_event: u64) -> (r: MenuAction)
    ensures
        r == if events@.contains(return_event) {
            MenuAction::Resume
        } else if events@.contains(exit_event) {
            MenuAction::MainMenu
        } else {
            MenuAction::Nothing
        },
{
    let mut ret = false;
    let mut exit = false;
    let mut i: usize = 0;
    while i < events.len()
        invariant
            i <= events@.len(),
            ret == exists|j: int| 0 <= j < i && events@[j] == return_event,
            exit == exists|j: int| 0 <= j < i && events@[j] == exit_event,
        decreases events@.len() - i,
    {
        if events[i] == return_event {
            ret = true;
        }
        if events[i] == exit_event {
            exit = true;
        }
        i = i + 1;
    }
    proof {
        if ret {
            let j = choose|j: int| 0 <= j < events@.len() && events@[j] == return_event;
            assert(events@.contains(return_event));
        }
        if exit {
            let j = choose|j: int| 0 <= j < events@.len() && events@[j] == exit_event;
            assert(events@.contains(exit_event));
        }
    }
    if ret {
        MenuAction::Resume
    } else if exit {
        MenuAction::MainMenu
    } else {
        MenuAction::Nothing
    }
}

/// What the editor does with the inputs of a frame.
#[derive(Copy, Clone, PartialEq, Eq, Structural, Debug)]
pub struct EditorStep {
    /// The input flags after the frame.
    pub input_flags: u8,
    /// Whether the editor menu is shown after the frame.
    pub menu_visible: bool,
    /// Whether the menu must be built again for a new screen size.
    pub rebuild_menu: bool,
    /// Whether the view must follow the cursor.
    pub drag_view: bool,
}

/// The editor's answer to the inputs of a frame: the right button drags the
/// view while it is down, escape shows or hides the menu, a new screen size
/// rebuilds the menu; the view follows the cursor only while dragging and
/// with the menu hidden.
pub fn editor_inputs(
    input_flags: u8,
    right_button: Option<bool>,
    escape_pressed: bool,
    menu_visible: bool,
    resized: bool,
) -> (r: EditorStep)
    ensures
        r.input_flags == match right_button {
            Some(true) => input_flags | DRAGGING_VIEW,
            Some(false) => input_flags & !DRAGGING_VIEW,
            None => input_flags,
        },
        r.menu_visible == (menu_visible != escape_pressed),
        r.rebuild_menu == resized,
        r.drag_view == (!r.menu_visible && r.input_flags & DRAGGING_VIEW == DRAGGING_VIEW),
{
    let flags = match right_button {
        Some(true) => input_flags | DRAGGING_VIEW,
        Some(false) => input_flags & !DRAGGING_VIEW,
        None => input_flags,
    };
    let visible = if escape_pressed { !menu_visible } else { menu_visible };
    let drag = !visible && flags & DRAGGING_VIEW == DRAGGING_VIEW;
    EditorStep { input_flags: flags, menu_visible: visible, rebuild_menu: resized, drag_view: drag }
}

} // verus!
