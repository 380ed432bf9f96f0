use korangar::inventory::{hotkey_data, Hotbar, HotkeyData, LearnedSkill, LearnedSkillPath};
use korangar::world::{HotbarSlot, SkillId, SkillLevel, SkillType};

fn skill(id: u16, level: u16) -> LearnedSkill {
    LearnedSkill {
        skill_id: SkillId(id),
        skill_level: SkillLevel(level),
        skill_type: SkillType::Attack,
        skill_name: format!("skill {id}"),
    }
}

#[test]
fn a_new_hotbar_is_empty() {
    let hotbar = Hotbar::new();
    for slot in 0..10 {
        assert!(hotbar.get_skill_in_slot(HotbarSlot(slot)).is_none());
    }
}

#[test]
fn set_and_unset_slots() {
    let mut hotbar = Hotbar::new();
    hotbar.set_slot(HotbarSlot(3), skill(5, 2));
    assert_eq!(hotbar.get_skill_in_slot(HotbarSlot(3)).as_ref().unwrap().skill_id, SkillId(5));
    assert!(hotbar.get_skill_in_slot(HotbarSlot(4)).is_none());
    hotbar.unset_slot(HotbarSlot(3));
    assert!(hotbar.get_skill_in_slot(HotbarSlot(3)).is_none());
}

#[test]
fn update_and_clear_report_what_to_send() {
    let mut hotbar = Hotbar::new();
    let data = hotbar.update_slot(HotbarSlot(0), skill(28, 10));
    assert_eq!(data, HotkeyData { is_skill: 1, skill_id: 28, quantity_or_skill_level: 10 });
    assert_eq!(hotbar.clear_slot(HotbarSlot(0)), HotkeyData::unbound());
    assert!(hotbar.get_skill_in_slot(HotbarSlot(0)).is_none());
}

#[test]
fn swapping_moves_skills_and_reports_both_slots() {
    let mut hotbar = Hotbar::new();
    hotbar.set_slot(HotbarSlot(1), skill(7, 1));
    let data = hotbar.swap_slot(HotbarSlot(1), HotbarSlot(2));
    assert_eq!(
        data,
        Some((HotkeyData { is_skill: 1, skill_id: 7, quantity_or_skill_level: 1 }, HotkeyData::unbound()))
    );
    assert!(hotbar.get_skill_in_slot(HotbarSlot(1)).is_none());
    assert_eq!(hotbar.get_skill_in_slot(HotbarSlot(2)).as_ref().unwrap().skill_id, SkillId(7));
    assert_eq!(hotbar.swap_slot(HotbarSlot(2), HotbarSlot(2)), None);
    hotbar.swap_slot(HotbarSlot(2), HotbarSlot(1));
    assert_eq!(hotbar.get_skill_in_slot(HotbarSlot(1)).as_ref().unwrap().skill_id, SkillId(7));
}

#[test]
fn hotkey_data_of_an_empty_slot_is_unbound() {
    assert_eq!(hotkey_data(&None), HotkeyData { is_skill: 0, skill_id: 0, quantity_or_skill_level: 0 });
    assert_eq!(hotkey_data(&Some(skill(300, 4))).skill_id, 300);
}

#[test]
fn learned_skill_paths_keep_both_paths() {
    let path = LearnedSkillPath::new("layout", 7);
    assert_eq!(path.learnable_skill_path, "layout");
    assert_eq!(path.skills_path, 7);
}
