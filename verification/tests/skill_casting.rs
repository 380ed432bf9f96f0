use korangar::skill_casting::{
    activate_continuous_skill, is_skill_target_cancellation, is_skill_target_confirmation, release_continuous_skill,
    resolve_skill_cast_target, take_resolved_armed_skill, ActiveContinuousSkill, ArmedSkill, MouseButton, PickerTarget,
    SkillActivation, SkillCastTarget,
};
use korangar::world::{EntityId, HotbarSlot, SkillId, SkillLevel, SkillType, TilePosition};

const ROLLING_CUTTER_ID: SkillId = SkillId(2036);
const PLAYER_ID: EntityId = EntityId(1);
const ENTITY_ID: EntityId = EntityId(2);
const ITEM_ID: EntityId = EntityId(3);
const STALE_ID: EntityId = EntityId(4);
const ENTITY_POSITION: TilePosition = TilePosition { x: 10, y: 20 };
const ITEM_POSITION: TilePosition = TilePosition { x: 30, y: 40 };

fn entity_position(entity_id: EntityId) -> Option<TilePosition> {
    match entity_id {
        PLAYER_ID => Some(TilePosition { x: 1, y: 1 }),
        ENTITY_ID => Some(ENTITY_POSITION),
        _ => None,
    }
}

fn ground_item_position(entity_id: EntityId) -> Option<TilePosition> {
    if entity_id == ITEM_ID { Some(ITEM_POSITION) } else { None }
}

fn resolve(skill_type: SkillType, picker_target: PickerTarget) -> Option<SkillCastTarget> {
    resolve_skill_cast_target(skill_type, picker_target, Some(PLAYER_ID), entity_position, ground_item_position)
}

#[test]
fn targeted_skills_only_accept_live_entities() {
    assert_eq!(
        resolve(SkillType::Attack, PickerTarget::Entity(ENTITY_ID)),
        Some(SkillCastTarget::Entity(ENTITY_ID))
    );
    assert_eq!(resolve(SkillType::Attack, PickerTarget::Entity(STALE_ID)), None);
    assert_eq!(resolve(SkillType::Attack, PickerTarget::Tile { x: 5, y: 6 }), None);
}

#[test]
fn support_skills_fall_back_to_the_player() {
    assert_eq!(
        resolve(SkillType::Support, PickerTarget::Entity(ENTITY_ID)),
        Some(SkillCastTarget::Entity(ENTITY_ID))
    );
    assert_eq!(
        resolve(SkillType::Support, PickerTarget::Nothing),
        Some(SkillCastTarget::Entity(PLAYER_ID))
    );
    assert_eq!(
        resolve(SkillType::Support, PickerTarget::Tile { x: 5, y: 6 }),
        Some(SkillCastTarget::Entity(PLAYER_ID))
    );
    assert_eq!(resolve(SkillType::Support, PickerTarget::Entity(ITEM_ID)), None);
}

#[test]
fn ground_skills_resolve_tiles_entities_and_ground_items() {
    assert_eq!(
        resolve(SkillType::Ground, PickerTarget::Tile { x: 5, y: 6 }),
        Some(SkillCastTarget::Ground(TilePosition { x: 5, y: 6 }))
    );
    assert_eq!(
        resolve(SkillType::Ground, PickerTarget::Entity(ENTITY_ID)),
        Some(SkillCastTarget::Ground(ENTITY_POSITION))
    );
    assert_eq!(
        resolve(SkillType::Trap, PickerTarget::Entity(ITEM_ID)),
        Some(SkillCastTarget::Ground(ITEM_POSITION))
    );
    assert_eq!(resolve(SkillType::Ground, PickerTarget::Entity(STALE_ID)), None);
}

#[test]
fn passive_and_self_cast_skills_never_resolve_world_targets() {
    assert_eq!(resolve(SkillType::Passive, PickerTarget::Entity(ENTITY_ID)), None);
    assert_eq!(resolve(SkillType::SelfCast, PickerTarget::Entity(ENTITY_ID)), None);
}

#[test]
fn invalid_confirmation_keeps_the_skill_armed() {
    let armed = ArmedSkill {
        skill_id: SkillId(10),
        skill_level: SkillLevel(3),
        skill_type: SkillType::Attack,
    };
    let mut armed_skill = Some(armed);

    assert_eq!(take_resolved_armed_skill(&mut armed_skill, None), None);
    assert_eq!(armed_skill, Some(armed));

    let target = SkillCastTarget::Entity(ENTITY_ID);
    assert_eq!(take_resolved_armed_skill(&mut armed_skill, Some(target)), Some((armed, target)));
    assert_eq!(armed_skill, None);
}

#[test]
fn single_and_double_mouse_buttons_confirm_or_cancel_targeting() {
    assert!(is_skill_target_confirmation(MouseButton::Left));
    assert!(is_skill_target_confirmation(MouseButton::DoubleLeft));
    assert!(is_skill_target_cancellation(MouseButton::Right));
    assert!(is_skill_target_cancellation(MouseButton::DoubleRight));
}

#[test]
fn held_continuous_skill_stops_only_for_its_owner() {
    let skill_id = ROLLING_CUTTER_ID;
    let mut active_skill = None;

    assert_eq!(
        activate_continuous_skill(&mut active_skill, skill_id, SkillActivation::Hold, Some(HotbarSlot(2)),),
        (None, true)
    );
    assert_eq!(release_continuous_skill(&mut active_skill, HotbarSlot(1)), None);
    assert_eq!(release_continuous_skill(&mut active_skill, HotbarSlot(2)), Some(skill_id));
    assert_eq!(active_skill, None);
}

#[test]
fn continuous_skill_ownership_transfers_between_inputs() {
    let skill_id = ROLLING_CUTTER_ID;
    let mut active_skill = None;

    assert_eq!(
        activate_continuous_skill(&mut active_skill, skill_id, SkillActivation::Hold, Some(HotbarSlot(0)),),
        (None, true)
    );
    assert_eq!(
        activate_continuous_skill(&mut active_skill, skill_id, SkillActivation::Hold, Some(HotbarSlot(1)),),
        (Some(skill_id), true)
    );
    assert_eq!(release_continuous_skill(&mut active_skill, HotbarSlot(0)), None);
    assert_eq!(release_continuous_skill(&mut active_skill, HotbarSlot(1)), Some(skill_id));

    assert_eq!(
        activate_continuous_skill(&mut active_skill, skill_id, SkillActivation::Toggle, None),
        (None, true)
    );
    assert_eq!(
        activate_continuous_skill(&mut active_skill, skill_id, SkillActivation::Toggle, None),
        (Some(skill_id), false)
    );
    assert_eq!(active_skill, None);
}

#[test]
fn no_click_both_confirms_and_cancels() {
    for button in [MouseButton::Left, MouseButton::Right, MouseButton::DoubleLeft, MouseButton::DoubleRight] {
        assert_ne!(is_skill_target_confirmation(button), is_skill_target_cancellation(button));
    }
}

#[test]
fn toggling_another_skill_replaces_the_running_one() {
    let mut active_skill = Some(ActiveContinuousSkill { skill_id: SkillId(7), held_by: None });
    assert_eq!(
        activate_continuous_skill(&mut active_skill, SkillId(8), SkillActivation::Toggle, None),
        (Some(SkillId(7)), true)
    );
    assert_eq!(active_skill, Some(ActiveContinuousSkill { skill_id: SkillId(8), held_by: None }));
}

#[test]
fn toggling_a_held_skill_takes_it_over() {
    let mut active_skill = Some(ActiveContinuousSkill { skill_id: SkillId(7), held_by: Some(HotbarSlot(3)) });
    assert_eq!(
        activate_continuous_skill(&mut active_skill, SkillId(7), SkillActivation::Toggle, None),
        (Some(SkillId(7)), true)
    );
    assert_eq!(release_continuous_skill(&mut active_skill, HotbarSlot(3)), None);
    assert_eq!(active_skill, Some(ActiveContinuousSkill { skill_id: SkillId(7), held_by: None }));
}

#[test]
fn support_skills_without_a_player_resolve_nothing() {
    assert_eq!(
        resolve_skill_cast_target(SkillType::Support, PickerTarget::Nothing, None, entity_position, ground_item_position),
        None
    );
    assert_eq!(resolve(SkillType::Ground, PickerTarget::Nothing), None);
}

#[test]
fn without_a_target_no_armed_skill_is_taken() {
    let mut armed_skill: Option<ArmedSkill> = None;
    assert_eq!(take_resolved_armed_skill(&mut armed_skill, Some(SkillCastTarget::Entity(ENTITY_ID))), None);
    assert_eq!(armed_skill, None);
}
