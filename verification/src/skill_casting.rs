//! The decisions behind casting a skill: which mouse buttons confirm or
//! cancel targeting, what a pick in the world resolves to for each kind of
//! skill, and who owns a continuous skill while it runs.

use vstd::prelude::*;

use crate::world::{EntityId, HotbarSlot, SkillId, SkillLevel, SkillType, TilePosition};

verus! {

/// A mouse button as the interface reports it.
#[derive(Clone, Copy, Debug, PartialEq, Eq, Structural)]
pub enum MouseButton {
    Left,
    Right,
    DoubleLeft,
    DoubleRight,
}

/// What the mouse points at in the world.
#[derive(Clone, Copy, Debug, PartialEq, Eq, Structural)]
pub enum PickerTarget {
    Nothing,
    Entity(EntityId),
    Tile { x: u16, y: u16 },
}

/// Where a skill is cast.
#[derive(Clone, Copy, Debug, PartialEq, Eq, Structural)]
pub enum SkillCastTarget {
    Entity(EntityId),
    Ground(TilePosition),
}

/// Whether a continuous skill runs while its key is held or until it is
/// toggled off.
#[derive(Clone, Copy, Debug, PartialEq, Eq, Structural)]
pub enum SkillActivation {
    Hold,
    Toggle,
}

/// A skill waiting for its target.
#[derive(Clone, Copy, Debug, PartialEq, Eq, Structural)]
pub struct ArmedSkill {
    pub skill_id: SkillId,
    pub skill_level: SkillLevel,
    pub skill_type: SkillType,
}

/// The continuous skill that is running, and the hotbar slot holding it, if
/// it runs while a key is held.
#[derive(Clone, Copy, Debug, PartialEq, Eq, Structural)]
pub struct ActiveContinuousSkill {
    pub skill_id: SkillId,
    pub held_by: Option<HotbarSlot>,
}

/// Whether a click with `button` confirms the target of an armed skill.
pub open spec fn confirms(button: MouseButton) -> bool {
    button is Left || button is DoubleLeft
}

/// Whether a click with `button` cancels the targeting of an armed skill.
pub open spec fn cancels(button: MouseButton) -> bool {
    button is Right || button is DoubleRight
}

pub fn is_skill_target_confirmation(mouse_button: MouseButton) -> (confirmed: bool)
    ensures
        confirmed == confirms(mouse_button),
{
    match mouse_button {
        MouseButton::Left | MouseButton::DoubleLeft => true,
        _ => false,
    }
}

pub fn is_skill_target_cancellation(mouse_button: MouseButton) -> (cancelled: bool)
    ensures
        cancelled == cancels(mouse_button),
{
    match mouse_button {
        MouseButton::Right | MouseButton::DoubleRight => true,
        _ => false,
    }
}

/// No click both confirms and cancels, and every click does one of them.
pub proof fn lemma_click_confirms_or_cancels(button: MouseButton)
    ensures
        confirms(button) != cancels(button),
{
}

/// The target a skill of `skill_type` resolves to when the mouse points at
/// `picker`. `entity_tile` is where the picked entity stands, and `item_tile`
/// where it lies as an item on the ground; the player is the fallback target
/// of a support skill.
pub open spec fn cast_target(
    skill_type: SkillType,
    picker: PickerTarget,
    player: Option<EntityId>,
    entity_tile: Option<TilePosition>,
    item_tile: Option<TilePosition>,
) -> Option<SkillCastTarget> {
    match skill_type {
        SkillType::Attack => match picker {
            PickerTarget::Entity(id) => if entity_tile is Some {
                Some(SkillCastTarget::Entity(id))
            } else {
                None
            },
            _ => None,
        },
        SkillType::Support => match picker {
            PickerTarget::Entity(id) => if entity_tile is Some {
                Some(SkillCastTarget::Entity(id))
            } else {
                None
            },
            _ => match player {
                Some(p) => Some(SkillCastTarget::Entity(p)),
                None => None,
            },
        },
        SkillType::Ground | SkillType::Trap => match picker {
            PickerTarget::Tile { x, y } => Some(SkillCastTarget::Ground(TilePosition { x, y })),
            PickerTarget::Entity(_) => match entity_tile {
                Some(tile) => Some(SkillCastTarget::Ground(tile)),
                None => match item_tile {
                    Some(tile) => Some(SkillCastTarget::Ground(tile)),
                    None => None,
                },
            },
            PickerTarget::Nothing => None,
        },
        SkillType::Passive | SkillType::SelfCast => None,
    }
}

/// Whether resolving a skill of `skill_type` asks where the picked entity
/// stands.
pub open spec fn looks_up_entity(skill_type: SkillType, picker: PickerTarget) -> bool {
    picker is Entity && !(skill_type is Passive || skill_type is SelfCast)
}

/// Resolves where a skill is cast from what the mouse points at.
/// `entity_position` tells where a live entity stands and
/// `ground_item_position` where an item lies; each is asked about the picked
/// entity only where the skill's kind needs it.
pub fn resolve_skill_cast_target<F, G>(
    skill_type: SkillType,
    picker_target: PickerTarget,
    player_entity_id: Option<EntityId>,
    entity_position: F,
    ground_item_position: G,
) -> (target: Option<SkillCastTarget>) where
    F: Fn(EntityId) -> Option<TilePosition>,
    G: Fn(EntityId) -> Option<TilePosition>,

    requires
        forall|id: EntityId| entity_position.requires((id,)),
        forall|id: EntityId| ground_item_position.requires((id,)),
    ensures
        exists|entity_tile: Option<TilePosition>, item_tile: Option<TilePosition>|
            #![trigger cast_target(skill_type, picker_target, player_entity_id, entity_tile, item_tile)]
            {
                &&& looks_up_entity(skill_type, picker_target) ==> entity_position.ensures(
                    (picker_target->Entity_0,),
                    entity_tile,
                )
                &&& looks_up_entity(skill_type, picker_target) && entity_tile is None && (
                skill_type is Ground || skill_type is Trap) ==> ground_item_position.ensures(
                    (picker_target->Entity_0,),
                    item_tile,
                )
                &&& target == cast_target(
                    skill_type,
                    picker_target,
                    player_entity_id,
                    entity_tile,
                    item_tile,
                )
            },
{
    match skill_type {
        SkillType::Attack | SkillType::Support => match picker_target {
            PickerTarget::Entity(entity_id) => {
                let entity_tile = entity_position(entity_id);
                let target = if entity_tile.is_some() {
                    Some(SkillCastTarget::Entity(entity_id))
                } else {
                    None
                };
                assert(target == cast_target(skill_type, picker_target, player_entity_id, entity_tile, None));
                target
            },
            _ => {
                let target = if skill_type == SkillType::Support {
                    match player_entity_id {
                        Some(player) => Some(SkillCastTarget::Entity(player)),
                        None => None,
                    }
                } else {
                    None
                };
                assert(target == cast_target(skill_type, picker_target, player_entity_id, None, None));
                target
            },
        },
        SkillType::Ground | SkillType::Trap => match picker_target {
            PickerTarget::Tile { x, y } => {
                let target = Some(SkillCastTarget::Ground(TilePosition { x, y }));
                assert(target == cast_target(skill_type, picker_target, player_entity_id, None, None));
                target
            },
            PickerTarget::Entity(entity_id) => match entity_position(entity_id) {
                Some(tile) => {
                    let target = Some(SkillCastTarget::Ground(tile));
                    assert(target == cast_target(skill_type, picker_target, player_entity_id, Some(tile), None));
                    target
                },
                None => {
                    let item_tile = ground_item_position(entity_id);
                    let target = match item_tile {
                        Some(tile) => Some(SkillCastTarget::Ground(tile)),
                        None => None,
                    };
                    assert(target == cast_target(skill_type, picker_target, player_entity_id, None, item_tile));
                    target
                },
            },
            PickerTarget::Nothing => {
                assert(cast_target(skill_type, picker_target, player_entity_id, None, None) is None);
                None
            },
        },
        SkillType::Passive | SkillType::SelfCast => {
            assert(cast_target(skill_type, picker_target, player_entity_id, None, None) is None);
            None
        },
    }
}

/// Only attack and support skills are cast at an entity, only ground and trap
/// skills on a tile, and passive and self-cast skills never at anything in the
/// world.
pub proof fn lemma_cast_target_fits_skill_type(
    skill_type: SkillType,
    picker: PickerTarget,
    player: Option<EntityId>,
    entity_tile: Option<TilePosition>,
    item_tile: Option<TilePosition>,
)
    ensures
        cast_target(skill_type, picker, player, entity_tile, item_tile) matches Some(
            SkillCastTarget::Entity(_),
        ) ==> skill_type is Attack || skill_type is Support,
        cast_target(skill_type, picker, player, entity_tile, item_tile) matches Some(
            SkillCastTarget::Ground(_),
        ) ==> skill_type is Ground || skill_type is Trap,
        skill_type is Passive || skill_type is SelfCast ==> cast_target(
            skill_type,
            picker,
            player,
            entity_tile,
            item_tile,
        ) is None,
{
}

/// Hands out the armed skill together with its target once the target is
/// resolved; with no target the skill stays armed.
pub fn take_resolved_armed_skill(
    armed_skill: &mut Option<ArmedSkill>,
    resolved_target: Option<SkillCastTarget>,
) -> (taken: Option<(ArmedSkill, SkillCastTarget)>)
    ensures
        match resolved_target {
            None => taken is None && *final(armed_skill) == *old(armed_skill),
            Some(target) => {
                &&& *final(armed_skill) is None
                &&& taken == match *old(armed_skill) {
                    Some(armed) => Some((armed, target)),
                    None => None,
                }
            },
        },
{
    match resolved_target {
        None => None,
        Some(target) => match armed_skill.take() {
            Some(armed) => Some((armed, target)),
            None => None,
        },
    }
}

/// The running continuous skill after `skill_id` is activated, the skill that
/// this stopped, and whether `skill_id` now runs. Toggling the skill that runs
/// by toggle stops it; anything else replaces what runs.
pub open spec fn activation_outcome(
    active: Option<ActiveContinuousSkill>,
    skill_id: SkillId,
    activation: SkillActivation,
    source_slot: Option<HotbarSlot>,
) -> (Option<ActiveContinuousSkill>, Option<SkillId>, bool) {
    if activation is Toggle && (active matches Some(running) && running.skill_id == skill_id
        && running.held_by is None) {
        (None, Some(skill_id), false)
    } else {
        let held_by = if activation is Hold {
            source_slot
        } else {
            None
        };
        let stopped = match active {
            Some(running) => Some(running.skill_id),
            None => None,
        };
        (Some(ActiveContinuousSkill { skill_id, held_by }), stopped, true)
    }
}

/// The running continuous skill after the key of `slot` is released, and the
/// skill that this stopped: only the slot that holds a skill stops it.
pub open spec fn release_outcome(active: Option<ActiveContinuousSkill>, slot: HotbarSlot) -> (
    Option<ActiveContinuousSkill>,
    Option<SkillId>,
) {
    match active {
        Some(running) => if running.held_by == Some(slot) {
            (None, Some(running.skill_id))
        } else {
            (active, None)
        },
        None => (None, None),
    }
}

/// Starts `skill_id` as the continuous skill, or stops it where it runs by
/// toggle and is toggled again. Returns the skill that was stopped and whether
/// `skill_id` runs now. A held skill comes from a hotbar slot.
pub fn activate_continuous_skill(
    active_skill: &mut Option<ActiveContinuousSkill>,
    skill_id: SkillId,
    activation: SkillActivation,
    source_slot: Option<HotbarSlot>,
) -> (outcome: (Option<SkillId>, bool))
    requires
        activation is Hold ==> source_slot is Some,
    ensures
        ({
            let (next, stopped, started) = activation_outcome(
                *old(active_skill),
                skill_id,
                activation,
                source_slot,
            );
            *final(active_skill) == next && outcome == (stopped, started)
        }),
{
    let toggles_off = match (activation, *active_skill) {
        (SkillActivation::Toggle, Some(running)) => running.skill_id.0 == skill_id.0
            && running.held_by.is_none(),
        _ => false,
    };
    if toggles_off {
        let stopped = match active_skill.take() {
            Some(running) => Some(running.skill_id),
            None => None,
        };
        return (stopped, false);
    }
    let stopped_skill_id = match active_skill.take() {
        Some(running) => Some(running.skill_id),
        None => None,
    };
    let held_by = match activation {
        SkillActivation::Hold => source_slot,
        SkillActivation::Toggle => None,
    };
    *active_skill = Some(ActiveContinuousSkill { skill_id, held_by });
    (stopped_skill_id, true)
}

/// Stops the continuous skill if the key of `slot` holds it, and returns it.
pub fn release_continuous_skill(active_skill: &mut Option<ActiveContinuousSkill>, slot: HotbarSlot) -> (stopped: Option<SkillId>)
    ensures
        ({
            let (next, released) = release_outcome(*old(active_skill), slot);
            *final(active_skill) == next && stopped == released
        }),
{
    let held_here = match *active_skill {
        Some(running) => match running.held_by {
            Some(holder) => holder.0 == slot.0,
            None => false,
        },
        None => false,
    };
    if held_here {
        match active_skill.take() {
            Some(running) => Some(running.skill_id),
            None => None,
        }
    } else {
        None
    }
}

/// Releasing the slot that started a held skill stops that skill, whatever
/// ran before.
pub proof fn lemma_release_stops_held_skill(
    active: Option<ActiveContinuousSkill>,
    skill_id: SkillId,
    slot: HotbarSlot,
)
    ensures
        ({
            let (running, _, started) = activation_outcome(active, skill_id, SkillActivation::Hold, Some(slot));
            &&& started
            &&& release_outcome(running, slot) == (None::<ActiveContinuousSkill>, Some(skill_id))
        }),
{
}

/// Releasing a slot that does not hold the running skill changes nothing.
pub proof fn lemma_release_by_other_slot_keeps_skill(active: Option<ActiveContinuousSkill>, slot: HotbarSlot)
    requires
        !(active matches Some(running) && running.held_by == Some(slot)),
    ensures
        release_outcome(active, slot) == (active, None::<SkillId>),
{
}

/// Toggling a skill twice starts it and then stops it, whatever ran before.
pub proof fn lemma_toggle_twice_stops(active: Option<ActiveContinuousSkill>, skill_id: SkillId)
    ensures
        ({
            let (running, _, started) = activation_outcome(active, skill_id, SkillActivation::Toggle, None);
            started ==> activation_outcome(running, skill_id, SkillActivation::Toggle, None) == (
                None::<ActiveContinuousSkill>,
                Some(skill_id),
                false,
            )
        }),
{
}

/// A new activation takes over from a held skill: the old holder's release
/// then no longer stops anything.
pub proof fn lemma_activation_transfers_ownership(
    active: Option<ActiveContinuousSkill>,
    skill_id: SkillId,
    old_slot: HotbarSlot,
    new_slot: HotbarSlot,
)
    requires
        old_slot != new_slot,
    ensures
        ({
            let (running, _, _) = activation_outcome(active, skill_id, SkillActivation::Hold, Some(new_slot));
            &&& release_outcome(running, old_slot) == (running, None::<SkillId>)
            &&& release_outcome(running, new_slot) == (None::<ActiveContinuousSkill>, Some(skill_id))
        }),
{
}

/// The skill that runs continuously while it is held or toggled on.
pub const ROLLING_CUTTER_SKILL: u16 = 2036;

/// A message to the map server that casting a skill calls for.
#[derive(Clone, Copy, Debug, PartialEq, Eq, Structural)]
pub enum SkillCastAction {
    /// Stop the continuous skill.
    StopChanneling(SkillId),
    /// Start a continuous skill on the player.
    StartChanneling { skill_id: SkillId, skill_level: SkillLevel, player: EntityId },
    /// Cast a skill on the player.
    CastOnSelf { skill_id: SkillId, skill_level: SkillLevel, player: EntityId },
}

/// The skill waiting for a target and the continuous skill that runs.
#[derive(Clone, Copy, Debug, PartialEq, Eq, Structural)]
pub struct SkillCastState {
    pub armed_skill: Option<ArmedSkill>,
    pub active_continuous_skill: Option<ActiveContinuousSkill>,
}

/// Stopping the continuous skill, if one runs: the message it takes.
pub open spec fn stop_actions(active: Option<ActiveContinuousSkill>) -> Seq<SkillCastAction> {
    match active {
        Some(running) => seq![SkillCastAction::StopChanneling(running.skill_id)],
        None => Seq::empty(),
    }
}

/// What casting a skill whose target is resolved does: the state after it and
/// the messages to the server, in order. Casting disarms any armed skill. A
/// passive skill does nothing more; without a player the continuous skill
/// stops. The continuous skill is activated as `activation_outcome` says and
/// started where it now runs. Any other skill stops the continuous skill;
/// a self-cast skill is then cast and a targeted skill armed.
pub open spec fn cast_outcome(
    state: SkillCastState,
    skill_id: SkillId,
    skill_level: SkillLevel,
    skill_type: SkillType,
    activation: SkillActivation,
    source_slot: Option<HotbarSlot>,
    player: Option<EntityId>,
) -> (SkillCastState, Seq<SkillCastAction>) {
    let active = state.active_continuous_skill;
    if skill_type is Passive {
        (SkillCastState { armed_skill: None, active_continuous_skill: active }, Seq::empty())
    } else if player is None {
        (SkillCastState { armed_skill: None, active_continuous_skill: None }, stop_actions(active))
    } else if skill_type is SelfCast && skill_id.0 == ROLLING_CUTTER_SKILL {
        let (next, stopped, started) = activation_outcome(active, skill_id, activation, source_slot);
        let stop = match stopped {
            Some(id) => seq![SkillCastAction::StopChanneling(id)],
            None => Seq::empty(),
        };
        let start = if started {
            seq![SkillCastAction::StartChanneling { skill_id, skill_level, player: player->0 }]
        } else {
            Seq::empty()
        };
        (SkillCastState { armed_skill: None, active_continuous_skill: next }, stop + start)
    } else if skill_type is SelfCast {
        (
            SkillCastState { armed_skill: None, active_continuous_skill: None },
            stop_actions(active).push(SkillCastAction::CastOnSelf { skill_id, skill_level, player: player->0 }),
        )
    } else {
        (
            SkillCastState {
                armed_skill: Some(ArmedSkill { skill_id, skill_level, skill_type }),
                active_continuous_skill: None,
            },
            stop_actions(active),
        )
    }
}

/// Casting any skill other than the continuous one, for a player who is
/// there, leaves no continuous skill running: the messages begin by stopping
/// the skill that ran, if one did. A self-cast skill is then cast on the
/// player and nothing is armed; any other skill sends nothing more and is
/// armed, waiting for its target.
pub proof fn lemma_cast_stops_the_continuous_skill(
    state: SkillCastState,
    skill_id: SkillId,
    skill_level: SkillLevel,
    skill_type: SkillType,
    activation: SkillActivation,
    source_slot: Option<HotbarSlot>,
    player: EntityId,
)
    requires
        !(skill_type is Passive),
        skill_id.0 != ROLLING_CUTTER_SKILL,
    ensures
        ({
            let (next, sent) = cast_outcome(state, skill_id, skill_level, skill_type, activation, source_slot, Some(player));
            let stop: Seq<SkillCastAction> = match state.active_continuous_skill {
                Some(running) => seq![SkillCastAction::StopChanneling(running.skill_id)],
                None => seq![],
            };
            &&& next.active_continuous_skill is None
            &&& skill_type is SelfCast ==> {
                &&& sent.len() == stop.len() + 1
                &&& sent.take(stop.len() as int) == stop
                &&& sent.last() == SkillCastAction::CastOnSelf { skill_id, skill_level, player }
                &&& next.armed_skill is None
            }
            &&& !(skill_type is SelfCast) ==> {
                &&& sent == stop
                &&& next.armed_skill == Some(ArmedSkill { skill_id, skill_level, skill_type })
            }
        }),
{
    let (next, sent) = cast_outcome(state, skill_id, skill_level, skill_type, activation, source_slot, Some(player));
    if skill_type is SelfCast {
        assert(sent.take(stop_actions(state.active_continuous_skill).len() as int) =~= stop_actions(
            state.active_continuous_skill,
        ));
    }
}

/// A passive skill only disarms: the continuous skill keeps running and no
/// message is sent. Without a player, casting stops the continuous skill,
/// sends only that, and arms nothing.
pub proof fn lemma_cast_without_effect(
    state: SkillCastState,
    skill_id: SkillId,
    skill_level: SkillLevel,
    skill_type: SkillType,
    activation: SkillActivation,
    source_slot: Option<HotbarSlot>,
    player: Option<EntityId>,
)
    ensures
        skill_type is Passive ==> cast_outcome(state, skill_id, skill_level, skill_type, activation, source_slot, player)
            == (SkillCastState { armed_skill: None, active_continuous_skill: state.active_continuous_skill }, Seq::<
            SkillCastAction,
        >::empty()),
        !(skill_type is Passive) && player is None ==> cast_outcome(
            state,
            skill_id,
            skill_level,
            skill_type,
            activation,
            source_slot,
            player,
        ) == (SkillCastState { armed_skill: None, active_continuous_skill: None }, match state.active_continuous_skill {
            Some(running) => seq![SkillCastAction::StopChanneling(running.skill_id)],
            None => Seq::<SkillCastAction>::empty(),
        }),
{
}

/// Casting the continuous skill never arms it, and any message it sends
/// names that skill or the one that ran before.
pub proof fn lemma_continuous_cast_never_arms(
    state: SkillCastState,
    skill_level: SkillLevel,
    activation: SkillActivation,
    source_slot: Option<HotbarSlot>,
    player: EntityId,
)
    ensures
        ({
            let skill_id = SkillId(ROLLING_CUTTER_SKILL);
            let (next, sent) = cast_outcome(state, skill_id, skill_level, SkillType::SelfCast, activation, source_slot, Some(player));
            &&& next.armed_skill is None
            &&& sent.len() <= 2
            &&& forall|i: int| 0 <= i < sent.len() ==> match #[trigger] sent[i] {
                SkillCastAction::StopChanneling(id) => id == skill_id || (state.active_continuous_skill matches Some(r) && r.skill_id == id),
                SkillCastAction::StartChanneling { skill_id: started, player: who, .. } => started == skill_id && who == player,
                SkillCastAction::CastOnSelf { .. } => false,
            }
        }),
{
}

/// Casts a skill whose target is resolved: updates the state and returns the
/// messages to send. Where starting a continuous skill fails, the caller
/// records that with `channeling_failed`.
pub fn cast_resolved_skill(
    state: &mut SkillCastState,
    skill_id: SkillId,
    skill_level: SkillLevel,
    skill_type: SkillType,
    activation: SkillActivation,
    source_slot: Option<HotbarSlot>,
    player_entity_id: Option<EntityId>,
) -> (actions: Vec<SkillCastAction>)
    requires
        skill_type is SelfCast && skill_id.0 == ROLLING_CUTTER_SKILL && activation is Hold ==> source_slot is Some,
    ensures
        ({
            let (next, sent) = cast_outcome(
                *old(state),
                skill_id,
                skill_level,
                skill_type,
                activation,
                source_slot,
                player_entity_id,
            );
            *final(state) == next && actions@ == sent
        }),
{
    state.armed_skill = None;
    let mut actions: Vec<SkillCastAction> = Vec::new();
    if skill_type == SkillType::Passive {
        return actions;
    }
    let player = match player_entity_id {
        Some(player) => player,
        None => {
            if let Some(running) = state.active_continuous_skill.take() {
                actions.push(SkillCastAction::StopChanneling(running.skill_id));
            }
            assert(actions@ =~= stop_actions(old(state).active_continuous_skill));
            return actions;
        },
    };
    if skill_type == SkillType::SelfCast && skill_id.0 == ROLLING_CUTTER_SKILL {
        let (stopped, started) = activate_continuous_skill(
            &mut state.active_continuous_skill,
            skill_id,
            activation,
            source_slot,
        );
        if let Some(id) = stopped {
            actions.push(SkillCastAction::StopChanneling(id));
        }
        if started {
            actions.push(SkillCastAction::StartChanneling { skill_id, skill_level, player });
        }
        let ghost (next, stopped_spec, started_spec) = activation_outcome(
            old(state).active_continuous_skill,
            skill_id,
            activation,
            source_slot,
        );
        assert(actions@ =~= (match stopped_spec {
            Some(id) => seq![SkillCastAction::StopChanneling(id)],
            None => Seq::empty(),
        }) + (if started_spec {
            seq![SkillCastAction::StartChanneling { skill_id, skill_level, player }]
        } else {
            Seq::empty()
        }));
        return actions;
    }
    if let Some(running) = state.active_continuous_skill.take() {
        actions.push(SkillCastAction::StopChanneling(running.skill_id));
    }
    assert(actions@ =~= stop_actions(old(state).active_continuous_skill));
    if skill_type == SkillType::SelfCast {
        actions.push(SkillCastAction::CastOnSelf { skill_id, skill_level, player });
    } else {
        state.armed_skill = Some(ArmedSkill { skill_id, skill_level, skill_type });
    }
    actions
}

/// Records that the server refused to start the continuous skill.
pub fn channeling_failed(state: &mut SkillCastState)
    ensures
        *final(state) == (SkillCastState { active_continuous_skill: None, ..*old(state) }),
{
    state.active_continuous_skill = None;
}

/// Forgets a skill that the server took away: it is disarmed, and stopped
/// where it runs continuously. Returns whether either happened, in which case
/// the hotbar keys no longer hold anything.
pub fn forget_removed_skill(state: &mut SkillCastState, skill_id: SkillId) -> (forgot: bool)
    ensures
        ({
            let armed = old(state).armed_skill matches Some(armed) && armed.skill_id == skill_id;
            let running = old(state).active_continuous_skill matches Some(running) && running.skill_id == skill_id;
            &&& forgot == (armed || running)
            &&& final(state).armed_skill == if armed { None } else { old(state).armed_skill }
            &&& final(state).active_continuous_skill == if running {
                None
            } else {
                old(state).active_continuous_skill
            }
        }),
{
    let armed = match state.armed_skill {
        Some(armed) => armed.skill_id.0 == skill_id.0,
        None => false,
    };
    let running = match state.active_continuous_skill {
        Some(running) => running.skill_id.0 == skill_id.0,
        None => false,
    };
    if armed {
        state.armed_skill = None;
    }
    if running {
        state.active_continuous_skill = None;
    }
    armed || running
}

/// Casting never leaves a skill armed unless it is one that needs a target,
/// and never leaves a continuous skill running unless it was the continuous
/// skill that was cast.
pub proof fn lemma_cast_outcome_shape(
    state: SkillCastState,
    skill_id: SkillId,
    skill_level: SkillLevel,
    skill_type: SkillType,
    activation: SkillActivation,
    source_slot: Option<HotbarSlot>,
    player: Option<EntityId>,
)
    ensures
        ({
            let (next, _) = cast_outcome(state, skill_id, skill_level, skill_type, activation, source_slot, player);
            &&& (next.armed_skill matches Some(armed) ==> armed.skill_type is Attack || armed.skill_type is Support
                || armed.skill_type is Ground || armed.skill_type is Trap)
            &&& (next.active_continuous_skill matches Some(running) ==> next.active_continuous_skill
                == state.active_continuous_skill || (running.skill_id == skill_id && skill_id.0
                == ROLLING_CUTTER_SKILL))
        }),
{
}

/// An action the player asked for that waits until the player stops moving.
#[derive(Clone, Copy, Debug, PartialEq, Eq, Structural)]
pub enum BufferedAction {
    AttackEntity { entity_id: EntityId },
    PickUpItem { entity_id: EntityId },
}

/// A message to the map server that a buffered action calls for.
#[derive(Clone, Copy, Debug, PartialEq, Eq, Structural)]
pub enum PlayerAction {
    Attack(EntityId),
    PickUp(EntityId),
}

/// What the buffered action does once the player has stopped moving: the
/// action left waiting and the message to send. An attack is sent, and stays
/// buffered with auto attack on; a pick-up is sent where the item still lies
/// on the ground.
pub open spec fn buffered_outcome(
    buffered: Option<BufferedAction>,
    player_stopped_moving: Option<bool>,
    auto_attack: bool,
    ground_items: Seq<EntityId>,
) -> (Option<BufferedAction>, Option<PlayerAction>) {
    if player_stopped_moving != Some(true) {
        (buffered, None)
    } else {
        match buffered {
            None => (None, None),
            Some(BufferedAction::AttackEntity { entity_id }) => (
                if auto_attack {
                    buffered
                } else {
                    None
                },
                Some(PlayerAction::Attack(entity_id)),
            ),
            Some(BufferedAction::PickUpItem { entity_id }) => (
                None,
                if ground_items.contains(entity_id) {
                    Some(PlayerAction::PickUp(entity_id))
                } else {
                    None
                },
            ),
        }
    }
}

/// Carries out the buffered action once the player has stopped moving
/// (`player_stopped_moving` is `None` where there is no player).
pub fn process_buffered_action(
    buffered_action: &mut Option<BufferedAction>,
    player_stopped_moving: Option<bool>,
    auto_attack: bool,
    ground_items: &[EntityId],
) -> (action: Option<PlayerAction>)
    ensures
        ({
            let (left, sent) = buffered_outcome(*old(buffered_action), player_stopped_moving, auto_attack, ground_items@);
            *final(buffered_action) == left && action == sent
        }),
{
    match player_stopped_moving {
        Some(true) => {},
        _ => return None,
    }
    match buffered_action.take() {
        None => None,
        Some(BufferedAction::AttackEntity { entity_id }) => {
            if auto_attack {
                *buffered_action = Some(BufferedAction::AttackEntity { entity_id });
            }
            Some(PlayerAction::Attack(entity_id))
        },
        Some(BufferedAction::PickUpItem { entity_id }) => {
            let mut k: usize = 0;
            while k < ground_items.len()
                invariant
                    k <= ground_items@.len(),
                    forall|j: int| 0 <= j < k ==> ground_items@[j] != entity_id,
                    *buffered_action == None::<BufferedAction>,
                    *old(buffered_action) == Some(BufferedAction::PickUpItem { entity_id }),
                    player_stopped_moving == Some(true),
                decreases ground_items.len() - k,
            {
                if ground_items[k].0 == entity_id.0 {
                    assert(ground_items@[k as int] == entity_id);
                    return Some(PlayerAction::PickUp(entity_id));
                }
                k = k + 1;
            }
            assert(!ground_items@.contains(entity_id));
            None
        },
    }
}

} // verus!
