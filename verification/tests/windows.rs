use korangar::windows::skill_tree::{AvailablePointsDisplay, DropSkillWrapper, DynamicTabs, LearnableSkillPath, SkillTreeWindow};
use korangar::windows::skill_tree_flat;
use korangar::windows::{AudioSettingsWindow, CostTextSelector, StatTextSelector, StatsWindow, ThemeInspectorWindow, stat_raise_disabled};

#[test]
fn stat_bonus_texts_carry_their_sign() {
    let mut selector = StatTextSelector::new(());
    assert_eq!(selector.select(5), "^000001+5^000000");
    assert_eq!(selector.select(5), "^000001+5^000000");
    assert_eq!(selector.select(-12), "^000001-12^000000");
    assert_eq!(selector.select(0), "^000001+0^000000");
    assert_eq!(selector.last_value, Some(0));
}

#[test]
fn stat_cost_texts_show_max_at_zero() {
    let mut selector = CostTextSelector::new(());
    assert_eq!(selector.select(0), "^000001max^000000");
    assert_eq!(selector.select(7), "+1 (^0000017^000000)");
    assert_eq!(selector.select(255), "+1 (^000001255^000000)");
}

#[test]
fn available_points_subtract_the_pending_ones() {
    let mut display = AvailablePointsDisplay::new((), (), ());
    assert_eq!(display.select("Points", 5, 2), "Points: ^0000013");
    assert_eq!(display.select("Points", 2, 5), "Points: 0");
    assert_eq!(display.available_skill_points, Some(0));
}

#[test]
fn available_points_follow_a_new_label() {
    let mut display = AvailablePointsDisplay::new((), (), ());
    assert_eq!(display.select("foobar", 3, 0), "foobar: ^0000013");
    assert_eq!(display.select("foobar", 3, 0), "foobar: ^0000013");
    assert_eq!(display.select("foob", 3, 0), "foob: ^0000013");
    assert_eq!(display.select("other", 3, 0), "other: ^0000013");
}

#[test]
fn dynamic_tabs_are_made_on_demand() {
    let mut tabs = DynamicTabs::new(|index: usize| index * 10);
    tabs.make_tabs(2);
    assert_eq!(tabs.tabs, vec![0, 10, 20]);
    assert_eq!(*tabs.get_tab(2), 20);
    tabs.make_tabs(1);
    assert_eq!(tabs.tabs.len(), 3);
}

#[test]
fn windows_keep_their_paths() {
    assert_eq!(AudioSettingsWindow::new(1).path, 1);
    assert_eq!(StatsWindow::new("player").player_path, "player");
    let theme = ThemeInspectorWindow::new(1, 2, 3, 4);
    assert_eq!((theme.window_state_path, theme.menu_theme_path, theme.in_game_theme_path, theme.world_theme_path), (1, 2, 3, 4));
    let tree = SkillTreeWindow::new(1, 2, 3, 4);
    assert_eq!(tree.available_skill_points_path, 4);
    let flat = skill_tree_flat::SkillTreeWindow::new("layout", "skills");
    assert_eq!((flat.layout_path, flat.skills_path), ("layout", "skills"));
    assert_eq!(LearnableSkillPath::new("layout", 3).index, 3);
    assert_eq!(DropSkillWrapper::new(9).children, 9);
}

#[test]
fn dynamic_tabs_can_be_changed_in_place() {
    let mut tabs = DynamicTabs::new(|index: usize| index * 10);
    *tabs.get_tab_mut(3) += 1;
    assert_eq!(tabs.tabs, vec![0, 10, 20, 31]);
    *tabs.get_tab_mut(0) = 5;
    assert_eq!(tabs.tabs, vec![5, 10, 20, 31]);
}

#[test]
fn stat_buttons_need_enough_points() {
    assert!(stat_raise_disabled(10, 0));
    assert!(stat_raise_disabled(2, 3));
    assert!(!stat_raise_disabled(3, 3));
    assert!(!stat_raise_disabled(u32::MAX, 255));
}
