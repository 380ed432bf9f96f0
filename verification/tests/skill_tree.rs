use korangar::inventory::{Inventory, InventoryItem, InventoryItemDetails};
use korangar::skill_casting::{
    cast_resolved_skill, channeling_failed, forget_removed_skill, process_buffered_action, ActiveContinuousSkill, ArmedSkill, BufferedAction,
    PlayerAction, SkillActivation, SkillCastAction, SkillCastState, ROLLING_CUTTER_SKILL,
};
use korangar::windows::skill_tree::{
    lowered_level, raised_level, skill_slot_click, LearnedSkillState, LevelDisplay, SkillSlotClick,
};
use korangar::world::{EntityId, EquipPosition, HotbarSlot, InventoryIndex, ItemId, SkillId, SkillLevel, SkillType};

#[test]
fn level_text_shows_the_chosen_level_over_the_maximum() {
    let mut display = LevelDisplay::new();
    display.update(Some(SkillLevel(3)), SkillLevel(10));
    assert_eq!(display.string.as_deref(), Some("3/10"));
    display.update(None, SkillLevel(5));
    assert_eq!(display.string.as_deref(), Some("5"));
    display.update(None, SkillLevel(5));
    assert_eq!(display.string.as_deref(), Some("5"));
}

#[test]
fn slot_clicks_distribute_points_or_pick_up_skills() {
    let learned = Some(LearnedSkillState { skill_level: SkillLevel(4), upgradable: true });
    let capped = Some(LearnedSkillState { skill_level: SkillLevel(10), upgradable: false });
    assert_eq!(
        skill_slot_click(true, true, SkillId(5), SkillLevel(10), learned, None),
        SkillSlotClick::DistributePoints(SkillId(5))
    );
    assert_eq!(skill_slot_click(true, false, SkillId(5), SkillLevel(10), learned, None), SkillSlotClick::Ignored);
    assert_eq!(skill_slot_click(true, true, SkillId(5), SkillLevel(10), capped, None), SkillSlotClick::Ignored);
    assert_eq!(skill_slot_click(false, true, SkillId(5), SkillLevel(10), capped, None), SkillSlotClick::Ignored);
    assert_eq!(
        skill_slot_click(false, true, SkillId(5), SkillLevel(10), learned, None),
        SkillSlotClick::MoveSkill { maximum_level: SkillLevel(4) }
    );
    assert_eq!(
        skill_slot_click(false, true, SkillId(5), SkillLevel(10), learned, Some(SkillLevel(2))),
        SkillSlotClick::MoveSkill { maximum_level: SkillLevel(2) }
    );
    assert_eq!(
        skill_slot_click(false, true, SkillId(5), SkillLevel(10), None, None),
        SkillSlotClick::MoveSkill { maximum_level: SkillLevel(10) }
    );
}

#[test]
fn chosen_levels_go_down_and_back_up() {
    assert_eq!(lowered_level(None, SkillLevel(5)), SkillLevel(4));
    assert_eq!(lowered_level(Some(SkillLevel(0)), SkillLevel(5)), SkillLevel(0));
    assert_eq!(raised_level(SkillLevel(3), SkillLevel(5)), Some(SkillLevel(4)));
    assert_eq!(raised_level(SkillLevel(4), SkillLevel(5)), None);
    assert_eq!(raised_level(SkillLevel(u16::MAX), SkillLevel(5)), Some(SkillLevel(u16::MAX)));
}

fn state() -> SkillCastState {
    SkillCastState { armed_skill: None, active_continuous_skill: None }
}

#[test]
fn targeted_skills_are_armed_and_self_casts_sent() {
    let mut cast = state();
    let actions = cast_resolved_skill(&mut cast, SkillId(5), SkillLevel(1), SkillType::Attack, SkillActivation::Toggle, None, Some(EntityId(9)));
    assert!(actions.is_empty());
    assert_eq!(cast.armed_skill, Some(ArmedSkill { skill_id: SkillId(5), skill_level: SkillLevel(1), skill_type: SkillType::Attack }));
    let actions = cast_resolved_skill(&mut cast, SkillId(6), SkillLevel(2), SkillType::SelfCast, SkillActivation::Toggle, None, Some(EntityId(9)));
    assert_eq!(actions, vec![SkillCastAction::CastOnSelf { skill_id: SkillId(6), skill_level: SkillLevel(2), player: EntityId(9) }]);
    assert_eq!(cast.armed_skill, None);
}

#[test]
fn the_continuous_skill_starts_stops_and_fails() {
    let rolling_cutter = SkillId(ROLLING_CUTTER_SKILL);
    let mut cast = state();
    let actions = cast_resolved_skill(
        &mut cast,
        rolling_cutter,
        SkillLevel(1),
        SkillType::SelfCast,
        SkillActivation::Hold,
        Some(HotbarSlot(4)),
        Some(EntityId(9)),
    );
    assert_eq!(actions, vec![SkillCastAction::StartChanneling { skill_id: rolling_cutter, skill_level: SkillLevel(1), player: EntityId(9) }]);
    assert_eq!(cast.active_continuous_skill, Some(ActiveContinuousSkill { skill_id: rolling_cutter, held_by: Some(HotbarSlot(4)) }));
    let actions = cast_resolved_skill(&mut cast, SkillId(5), SkillLevel(1), SkillType::Ground, SkillActivation::Toggle, None, Some(EntityId(9)));
    assert_eq!(actions, vec![SkillCastAction::StopChanneling(rolling_cutter)]);
    assert_eq!(cast.active_continuous_skill, None);
    let _ = cast_resolved_skill(&mut cast, rolling_cutter, SkillLevel(1), SkillType::SelfCast, SkillActivation::Toggle, None, Some(EntityId(9)));
    channeling_failed(&mut cast);
    assert_eq!(cast.active_continuous_skill, None);
}

#[test]
fn casting_without_a_player_stops_the_continuous_skill() {
    let mut cast = SkillCastState {
        armed_skill: None,
        active_continuous_skill: Some(ActiveContinuousSkill { skill_id: SkillId(ROLLING_CUTTER_SKILL), held_by: None }),
    };
    let actions = cast_resolved_skill(&mut cast, SkillId(5), SkillLevel(1), SkillType::Attack, SkillActivation::Toggle, None, None);
    assert_eq!(actions, vec![SkillCastAction::StopChanneling(SkillId(ROLLING_CUTTER_SKILL))]);
    assert_eq!(cast, state());
    let actions = cast_resolved_skill(&mut cast, SkillId(5), SkillLevel(1), SkillType::Passive, SkillActivation::Toggle, None, Some(EntityId(1)));
    assert!(actions.is_empty());
}

#[test]
fn buffered_actions_wait_for_the_player_to_stop() {
    let mut buffered = Some(BufferedAction::AttackEntity { entity_id: EntityId(3) });
    assert_eq!(process_buffered_action(&mut buffered, Some(false), true, &[]), None);
    assert_eq!(process_buffered_action(&mut buffered, Some(true), true, &[]), Some(PlayerAction::Attack(EntityId(3))));
    assert_eq!(buffered, Some(BufferedAction::AttackEntity { entity_id: EntityId(3) }));
    assert_eq!(process_buffered_action(&mut buffered, Some(true), false, &[]), Some(PlayerAction::Attack(EntityId(3))));
    assert_eq!(buffered, None);
    let mut buffered = Some(BufferedAction::PickUpItem { entity_id: EntityId(7) });
    assert_eq!(process_buffered_action(&mut buffered, Some(true), false, &[EntityId(2)]), None);
    assert_eq!(buffered, None);
    let mut buffered = Some(BufferedAction::PickUpItem { entity_id: EntityId(7) });
    assert_eq!(process_buffered_action(&mut buffered, None, false, &[EntityId(7)]), None);
    assert_eq!(process_buffered_action(&mut buffered, Some(true), false, &[EntityId(2), EntityId(7)]), Some(PlayerAction::PickUp(EntityId(7))));
}

fn regular(index: u16, amount: u16) -> InventoryItem<()> {
    InventoryItem { index: InventoryIndex(index), item_id: ItemId(500 + index as u32), details: InventoryItemDetails::Regular { amount }, metadata: () }
}

#[test]
fn inventory_stacks_and_removes_items() {
    let mut inventory: Inventory<String> = Inventory::new();
    inventory.add_item(regular(2, 5), |item| format!("item {}", item.item_id.0));
    inventory.add_item(regular(3, 1), |item| format!("item {}", item.item_id.0));
    inventory.add_item(regular(2, 4), |_| String::from("unused"));
    let items = inventory.get_items();
    assert_eq!(items.len(), 2);
    assert_eq!(items[0].details, InventoryItemDetails::Regular { amount: 9 });
    assert_eq!(items[0].metadata, "item 502");
    inventory.remove_item(InventoryIndex(2), 4);
    assert_eq!(inventory.get_items()[0].details, InventoryItemDetails::Regular { amount: 5 });
    inventory.remove_item(InventoryIndex(2), 5);
    assert_eq!(inventory.get_items().len(), 1);
    assert_eq!(inventory.get_items()[0].index, InventoryIndex(3));
}

#[test]
fn inventory_fills_and_moves_equipment() {
    let mut inventory: Inventory<u32> = Inventory::new();
    let sword = InventoryItem {
        index: InventoryIndex(7),
        item_id: ItemId(1101),
        details: InventoryItemDetails::Equippable { equipped_position: EquipPosition(0) },
        metadata: (),
    };
    inventory.fill(vec![regular(1, 3), sword], |item| item.item_id.0 * 2);
    assert_eq!(inventory.get_items()[1].metadata, 2202);
    inventory.update_equipped_position(InventoryIndex(7), EquipPosition(2));
    assert_eq!(inventory.get_items()[1].details, InventoryItemDetails::Equippable { equipped_position: EquipPosition(2) });
    inventory.remove_item(InventoryIndex(7), 1);
    assert_eq!(inventory.get_items().len(), 1);
}

#[test]
fn removed_skills_are_disarmed_and_stopped() {
    let mut cast = SkillCastState {
        armed_skill: Some(ArmedSkill { skill_id: SkillId(5), skill_level: SkillLevel(1), skill_type: SkillType::Ground }),
        active_continuous_skill: Some(ActiveContinuousSkill { skill_id: SkillId(ROLLING_CUTTER_SKILL), held_by: None }),
    };
    assert!(!forget_removed_skill(&mut cast, SkillId(9)));
    assert!(forget_removed_skill(&mut cast, SkillId(5)));
    assert_eq!(cast.armed_skill, None);
    assert!(cast.active_continuous_skill.is_some());
    assert!(forget_removed_skill(&mut cast, SkillId(ROLLING_CUTTER_SKILL)));
    assert_eq!(cast, state());
}
