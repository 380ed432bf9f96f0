//! The skill tree window with its tabs, and the display of the skill points
//! that are left to spend.

use vstd::prelude::*;

use crate::text::{chars_of, decimal, push_char, push_decimal};
use crate::world::{SkillId, SkillLevel};

verus! {

/// The skill tree window.
pub struct SkillTreeWindow<A, B, C, D> {
    pub window_state_path: A,
    pub layout_path: B,
    pub skills_path: C,
    pub available_skill_points_path: D,
}

impl<A, B, C, D> SkillTreeWindow<A, B, C, D> {
    pub fn new(window_state_path: A, layout_path: B, skills_path: C, available_skill_points_path: D) -> (window: Self)
        ensures
            window.window_state_path == window_state_path,
            window.layout_path == layout_path,
            window.skills_path == skills_path,
            window.available_skill_points_path == available_skill_points_path,
    {
        Self { window_state_path, layout_path, skills_path, available_skill_points_path }
    }
}

/// The skill points left once the pending ones are spent, never below zero;
/// the count of pending skills is taken as a `u32`.
pub open spec fn points_left(available: u32, pending: usize) -> u32 {
    if available >= pending as u32 {
        (available - pending as u32) as u32
    } else {
        0
    }
}

/// The text of the points left after the label: highlighted while there are
/// any.
pub open spec fn points_text(label: Seq<char>, points: u32) -> Seq<char> {
    if points > 0 {
        label + seq![':', ' ', '^', '0', '0', '0', '0', '0', '1'] + decimal(points as nat)
    } else {
        label + seq![':', ' '] + decimal(points as nat)
    }
}

/// Keeps the text of the skill points left, and writes it anew when the
/// points or the label change.
pub struct AvailablePointsDisplay<A, B, C> {
    pub label_path: A,
    pub available_skill_points_path: B,
    pub pending_skill_points_path: C,
    pub available_skill_points: Option<u32>,
    pub label: String,
    pub string: String,
}

/// Whether `text` holds the characters of `other`.
fn same_text(text: &String, other: &str) -> (same: bool)
    ensures
        same == (text@ == other@),
{
    let text_chars = chars_of(text.as_str());
    let other_chars = chars_of(other);
    if other_chars.len() != text_chars.len() {
        return false;
    }
    let mut i: usize = 0;
    while i < other_chars.len()
        invariant
            text_chars@ == text@,
            other_chars@ == other@,
            other_chars.len() == text_chars.len(),
            i <= other_chars.len(),
            forall|k: int| 0 <= k < i ==> other@[k] == text@[k],
        decreases other_chars.len() - i,
    {
        if other_chars[i] != text_chars[i] {
            return false;
        }
        i = i + 1;
    }
    assert(other@ =~= text@);
    true
}

impl<A, B, C> AvailablePointsDisplay<A, B, C> {
    /// The kept text is the text of the kept points and label.
    pub open spec fn well_formed(&self) -> bool {
        self.available_skill_points matches Some(points) ==> self.string@ == points_text(self.label@, points)
    }

    pub fn new(label_path: A, available_skill_points_path: B, pending_skill_points_path: C) -> (display: Self)
        ensures
            display.label_path == label_path,
            display.available_skill_points_path == available_skill_points_path,
            display.pending_skill_points_path == pending_skill_points_path,
            display.available_skill_points is None,
            display.well_formed(),
    {
        Self {
            label_path,
            available_skill_points_path,
            pending_skill_points_path,
            available_skill_points: None,
            label: String::new(),
            string: String::new(),
        }
    }

    /// The text of the points left after `pending_skill_points` of
    /// `available_skill_points` are spent, after `label`. The kept text is
    /// reused while the points and the label are the same.
    pub fn select(&mut self, label: &str, available_skill_points: u32, pending_skill_points: usize) -> (text: &String)
        requires
            old(self).well_formed(),
        ensures
            ({
                let points = points_left(available_skill_points, pending_skill_points);
                &&& text@ == points_text(label@, points)
                &&& final(self).string@ == text@
                &&& final(self).label@ == label@
                &&& final(self).available_skill_points == Some(points)
            }),
            final(self).well_formed(),
            final(self).label_path == old(self).label_path,
            final(self).available_skill_points_path == old(self).available_skill_points_path,
            final(self).pending_skill_points_path == old(self).pending_skill_points_path,
    {
        let pending = pending_skill_points as u32;
        let points = if available_skill_points >= pending {
            available_skill_points - pending
        } else {
            0
        };
        let same_points = match self.available_skill_points {
            Some(cached) => cached == points,
            None => false,
        };
        if !same_points || !same_text(&self.label, label) {
            let mut string = label.to_owned();
            push_char(&mut string, ':');
            push_char(&mut string, ' ');
            if points > 0 {
                push_char(&mut string, '^');
                push_char(&mut string, '0');
                push_char(&mut string, '0');
                push_char(&mut string, '0');
                push_char(&mut string, '0');
                push_char(&mut string, '0');
                push_char(&mut string, '1');
            }
            push_decimal(&mut string, points as u64);
            assert(string@ =~= points_text(label@, points));
            self.string = string;
            self.label = label.to_owned();
            self.available_skill_points = Some(points);
        }
        &self.string
    }
}

/// The path to learnable skill `index` of the layout at `layout_path`.
pub struct LearnableSkillPath<A> {
    pub layout_path: A,
    pub index: usize,
}

impl<A> LearnableSkillPath<A> {
    pub fn new(layout_path: A, index: usize) -> (path: Self)
        ensures
            path.layout_path == layout_path,
            path.index == index,
    {
        Self { layout_path, index }
    }
}

/// Wraps the skill slots so that skills dropped on them are taken off the
/// hotbar.
pub struct DropSkillWrapper<Children> {
    pub children: Children,
}

impl<Children> DropSkillWrapper<Children> {
    pub fn new(children: Children) -> (wrapper: Self)
        ensures
            wrapper.children == children,
    {
        Self { children }
    }
}

/// Tabs made on demand: tab `k` is made by `new_tab(k)` once it is first
/// asked for, together with every tab before it.
pub struct DynamicTabs<F, Children> {
    pub new_tab: F,
    pub tabs: Vec<Children>,
}

impl<F, Children> DynamicTabs<F, Children> where F: Fn(usize) -> Children {
    /// The tabs made so far.
    pub open spec fn tabs(&self) -> Seq<Children> {
        self.tabs@
    }

    pub fn new(new_tab: F) -> (tabs: DynamicTabs<F, Children>)
        ensures
            tabs.new_tab == new_tab,
            tabs.tabs().len() == 0,
    {
        Self { new_tab, tabs: Vec::new() }
    }

    /// Tab `key`, which must have been made.
    pub fn get_tab(&self, key: usize) -> (tab: &Children)
        requires
            key < self.tabs().len(),
        ensures
            *tab == self.tabs()[key as int],
    {
        &self.tabs[key]
    }

    /// Tab `key`, to change; the tabs up to it that are not made yet are
    /// made first, in order.
    pub fn get_tab_mut(&mut self, key: usize) -> (tab: &mut Children)
        requires
            forall|k: usize| old(self).new_tab.requires((k,)),
            key < usize::MAX,
        ensures
            final(self).new_tab == old(self).new_tab,
            final(self).tabs().len() == if key < old(self).tabs().len() {
                old(self).tabs().len() as int
            } else {
                key + 1
            },
            forall|k: int|
                0 <= k < old(self).tabs().len() && k != key ==> final(self).tabs()[k] == old(self).tabs()[k],
            forall|k: int|
                old(self).tabs().len() <= k < final(self).tabs().len() && k != key ==> old(self).new_tab.ensures(
                    (k as usize,),
                    #[trigger] final(self).tabs()[k],
                ),
            key < old(self).tabs().len() ==> *tab == old(self).tabs()[key as int],
            key >= old(self).tabs().len() ==> old(self).new_tab.ensures((key,), *tab),
            final(self).tabs()[key as int] == *final(tab),
    {
        self.make_tabs(key);
        &mut self.tabs[key]
    }

    /// Makes the tabs up to `key` that are not made yet, in order.
    pub fn make_tabs(&mut self, key: usize)
        requires
            forall|k: usize| old(self).new_tab.requires((k,)),
            key < usize::MAX,
        ensures
            final(self).new_tab == old(self).new_tab,
            final(self).tabs().len() == if key < old(self).tabs().len() {
                old(self).tabs().len() as int
            } else {
                key + 1
            },
            forall|k: int| 0 <= k < old(self).tabs().len() ==> final(self).tabs()[k] == old(self).tabs()[k],
            forall|k: int|
                old(self).tabs().len() <= k < final(self).tabs().len() ==> old(self).new_tab.ensures(
                    (k as usize,),
                    #[trigger] final(self).tabs()[k],
                ),
    {
        while key >= self.tabs.len()
            invariant
                self.new_tab == old(self).new_tab,
                forall|k: usize| self.new_tab.requires((k,)),
                key < usize::MAX,
                old(self).tabs@.len() <= self.tabs@.len(),
                self.tabs@.len() <= if key < old(self).tabs@.len() {
                    old(self).tabs@.len() as int
                } else {
                    key + 1
                },
                forall|k: int| 0 <= k < old(self).tabs@.len() ==> self.tabs@[k] == old(self).tabs@[k],
                forall|k: int|
                    old(self).tabs@.len() <= k < self.tabs@.len() ==> self.new_tab.ensures(
                        (k as usize,),
                        #[trigger] self.tabs@[k],
                    ),
            decreases key + 1 - self.tabs.len(),
        {
            let next = self.tabs.len();
            let tab = (self.new_tab)(next);
            self.tabs.push(tab);
        }
    }
}

/// The text of a skill slot's level: the chosen level over the maximum, or
/// the maximum alone where no level is chosen.
pub open spec fn level_text(level: Option<SkillLevel>, maximum_level: SkillLevel) -> Seq<char> {
    match level {
        Some(level) => decimal(level.0 as nat) + seq!['/'] + decimal(maximum_level.0 as nat),
        None => decimal(maximum_level.0 as nat),
    }
}

/// Keeps the level text of a skill slot, and writes it anew when the level or
/// the maximum changes.
pub struct LevelDisplay {
    pub level: Option<SkillLevel>,
    pub maximum_level: SkillLevel,
    pub string: Option<String>,
}

impl LevelDisplay {
    /// Whether the kept text is the text of the kept levels.
    pub open spec fn well_formed(&self) -> bool {
        self.string matches Some(text) ==> text@ == level_text(self.level, self.maximum_level)
    }

    /// A display with no text yet.
    pub fn new() -> (display: Self)
        ensures
            display.level is None,
            display.maximum_level == SkillLevel(0),
            display.string is None,
    {
        LevelDisplay { level: None, maximum_level: SkillLevel(0), string: None }
    }

    /// Brings the text up to date with `new_level` and `new_maximum_level`.
    pub fn update(&mut self, new_level: Option<SkillLevel>, new_maximum_level: SkillLevel)
        requires
            old(self).well_formed(),
        ensures
            final(self).well_formed(),
            final(self).level == new_level,
            final(self).maximum_level == new_maximum_level,
            final(self).string matches Some(text) && text@ == level_text(new_level, new_maximum_level),
    {
        let same_level = match (self.level, new_level) {
            (Some(a), Some(b)) => a.0 == b.0,
            (None, None) => true,
            _ => false,
        };
        if self.string.is_none() || !same_level || new_maximum_level.0 != self.maximum_level.0 {
            let mut text = String::new();
            match new_level {
                Some(level) => {
                    push_decimal(&mut text, level.0 as u64);
                    push_char(&mut text, '/');
                    push_decimal(&mut text, new_maximum_level.0 as u64);
                },
                None => {
                    push_decimal(&mut text, new_maximum_level.0 as u64);
                },
            }
            assert(text@ =~= level_text(new_level, new_maximum_level));
            self.string = Some(text);
            self.level = new_level;
            self.maximum_level = new_maximum_level;
        }
    }
}

/// What a click on a skill slot does.
#[derive(Clone, Copy, Debug, PartialEq, Eq, Structural)]
pub enum SkillSlotClick {
    /// Nothing happens.
    Ignored,
    /// A skill point goes to the skill.
    DistributePoints(SkillId),
    /// The skill is picked up with the mouse, to be cast at most at
    /// `maximum_level`.
    MoveSkill { maximum_level: SkillLevel },
}

/// The learned state of a skill that a slot click depends on.
#[derive(Clone, Copy, Debug, PartialEq, Eq, Structural)]
pub struct LearnedSkillState {
    pub skill_level: SkillLevel,
    pub upgradable: bool,
}

/// What a click on the slot of `skill_id` does. While points are being
/// distributed, a point goes to a job skill that is not learned or can still
/// be raised. Otherwise a skill that can be used is picked up, at the level
/// chosen for it, else at its learned level, else at its maximum.
pub open spec fn slot_click(
    currently_skilling: bool,
    acquired_by_job: bool,
    skill_id: SkillId,
    maximum_level: SkillLevel,
    learned: Option<LearnedSkillState>,
    chosen_level: Option<SkillLevel>,
) -> SkillSlotClick {
    let capped = learned matches Some(skill) && !skill.upgradable;
    if currently_skilling {
        if !acquired_by_job || capped {
            SkillSlotClick::Ignored
        } else {
            SkillSlotClick::DistributePoints(skill_id)
        }
    } else if capped {
        SkillSlotClick::Ignored
    } else {
        SkillSlotClick::MoveSkill {
            maximum_level: match chosen_level {
                Some(level) => level,
                None => match learned {
                    Some(skill) => skill.skill_level,
                    None => maximum_level,
                },
            },
        }
    }
}

/// Decides what a click on the slot of `skill_id` does.
pub fn skill_slot_click(
    currently_skilling: bool,
    acquired_by_job: bool,
    skill_id: SkillId,
    maximum_level: SkillLevel,
    learned: Option<LearnedSkillState>,
    chosen_level: Option<SkillLevel>,
) -> (click: SkillSlotClick)
    ensures
        click == slot_click(currently_skilling, acquired_by_job, skill_id, maximum_level, learned, chosen_level),
{
    let capped = match learned {
        Some(skill) => !skill.upgradable,
        None => false,
    };
    if currently_skilling {
        if !acquired_by_job || capped {
            SkillSlotClick::Ignored
        } else {
            SkillSlotClick::DistributePoints(skill_id)
        }
    } else if capped {
        SkillSlotClick::Ignored
    } else {
        let level = match chosen_level {
            Some(level) => level,
            None => match learned {
                Some(skill) => skill.skill_level,
                None => maximum_level,
            },
        };
        SkillSlotClick::MoveSkill { maximum_level: level }
    }
}

/// Handles clicks that lower the level a skill is cast at.
pub struct ChooseLowerClickHandler<A, B> {
    pub learned_skill_path: A,
    pub window_state_path: B,
}

impl<A, B> ChooseLowerClickHandler<A, B> {
    pub fn new(learned_skill_path: A, window_state_path: B) -> (handler: Self)
        ensures
            handler.learned_skill_path == learned_skill_path,
            handler.window_state_path == window_state_path,
    {
        Self { learned_skill_path, window_state_path }
    }
}

/// The level chosen after a click on "lower": one below the chosen level, or
/// below the learned level where none is chosen, and never below zero.
pub open spec fn lowered(chosen_level: Option<SkillLevel>, learned_level: SkillLevel) -> SkillLevel {
    let current = match chosen_level {
        Some(chosen) => chosen.0,
        None => learned_level.0,
    };
    SkillLevel(if current > 0 { (current - 1) as u16 } else { 0 })
}

/// The level chosen after a click on "lower".
pub fn lowered_level(chosen_level: Option<SkillLevel>, learned_level: SkillLevel) -> (level: SkillLevel)
    ensures
        level == lowered(chosen_level, learned_level),
{
    let current = match chosen_level {
        Some(chosen) => chosen.0,
        None => learned_level.0,
    };
    SkillLevel(if current > 0 { current - 1 } else { 0 })
}

/// Handles clicks that raise the level a skill is cast at.
pub struct ChooseHigherClickHandler<A, B> {
    pub learned_skill_path: A,
    pub window_state_path: B,
}

impl<A, B> ChooseHigherClickHandler<A, B> {
    pub fn new(learned_skill_path: A, window_state_path: B) -> (handler: Self)
        ensures
            handler.learned_skill_path == learned_skill_path,
            handler.window_state_path == window_state_path,
    {
        Self { learned_skill_path, window_state_path }
    }
}

/// The level chosen after a click on "higher": one above the chosen level
/// (never past `u16::MAX`), or no chosen level once that reaches the learned
/// level, so that the skill is cast at its learned level again.
pub open spec fn raised(chosen_level: SkillLevel, learned_level: SkillLevel) -> Option<SkillLevel> {
    let next: u16 = if chosen_level.0 < u16::MAX { (chosen_level.0 + 1) as u16 } else { u16::MAX };
    if next == learned_level.0 {
        None
    } else {
        Some(SkillLevel(next))
    }
}

/// The level chosen after a click on "higher".
pub fn raised_level(chosen_level: SkillLevel, learned_level: SkillLevel) -> (level: Option<SkillLevel>)
    ensures
        level == raised(chosen_level, learned_level),
{
    let raised = if chosen_level.0 < u16::MAX { chosen_level.0 + 1 } else { u16::MAX };
    if raised == learned_level.0 {
        None
    } else {
        Some(SkillLevel(raised))
    }
}

/// Raising the level again after lowering it gives back the level that was
/// chosen, or clears the choice where that was the learned level.
pub proof fn lemma_raise_undoes_lower(chosen_level: Option<SkillLevel>, learned_level: SkillLevel)
    requires
        match chosen_level {
            Some(chosen) => 0 < chosen.0,
            None => 0 < learned_level.0,
        },
    ensures
        raised(lowered(chosen_level, learned_level), learned_level) == match chosen_level {
            Some(chosen) => if chosen == learned_level { None } else { Some(chosen) },
            None => None::<SkillLevel>,
        },
{
}

} // verus!
