//! The windows of the game interface, with what they hold and the texts they
//! keep ready to draw.

use vstd::prelude::*;

use crate::text::{decimal, plus_signed_decimal, push_char, push_decimal, push_plus_signed_decimal};

pub mod skill_tree;
pub mod skill_tree_flat;

verus! {

/// The audio settings window, showing the settings at `path`.
pub struct AudioSettingsWindow<P> {
    pub path: P,
}

impl<P> AudioSettingsWindow<P> {
    pub fn new(path: P) -> (window: Self)
        ensures
            window.path == path,
    {
        Self { path }
    }
}

/// The window of the items picked to be bought.
pub struct BuyCartWindow;

/// The window of the character's stats, showing the player at `player_path`.
pub struct StatsWindow<A> {
    pub player_path: A,
}

impl<A> StatsWindow<A> {
    pub fn new(player_path: A) -> (window: Self)
        ensures
            window.player_path == player_path,
    {
        Self { player_path }
    }
}

/// Whether the button that raises a stat is disabled: the raise costs
/// nothing once the stat is at its maximum, and otherwise it costs more
/// points than the player has left.
pub fn stat_raise_disabled(stat_points: u32, cost: u8) -> (disabled: bool)
    ensures
        disabled == (cost == 0 || stat_points < cost),
{
    cost == 0 || stat_points < cost as u32
}

/// The window of the in-game time.
pub struct TimeWindow;

/// The names of the themes shown in the theme inspector.
pub struct ThemeInspectorWindowState {
    pub menu_theme_name: String,
    pub in_game_theme_name: String,
    pub world_theme_name: String,
}

/// The theme inspector window.
pub struct ThemeInspectorWindow<A, B, C, D> {
    pub window_state_path: A,
    pub menu_theme_path: B,
    pub in_game_theme_path: C,
    pub world_theme_path: D,
}

impl<A, B, C, D> ThemeInspectorWindow<A, B, C, D> {
    pub fn new(window_state_path: A, menu_theme_path: B, in_game_theme_path: C, world_theme_path: D) -> (window: Self)
        ensures
            window.window_state_path == window_state_path,
            window.menu_theme_path == menu_theme_path,
            window.in_game_theme_path == in_game_theme_path,
            window.world_theme_path == world_theme_path,
    {
        Self { window_state_path, menu_theme_path, in_game_theme_path, world_theme_path }
    }
}

/// The text of a stat bonus: the bonus with its sign, highlighted.
pub open spec fn stat_bonus_text(bonus: int) -> Seq<char> {
    seq!['^', '0', '0', '0', '0', '0', '1'] + plus_signed_decimal(bonus) + seq!['^', '0', '0', '0', '0', '0', '0']
}

/// Keeps the text of a stat bonus, and writes it anew only when the bonus
/// changes.
pub struct StatTextSelector<A> {
    pub bonus_path: A,
    pub last_value: Option<i32>,
    pub text: String,
}

impl<A> StatTextSelector<A> {
    /// The bonus whose text is kept, if any.
    pub open spec fn cached_value(&self) -> Option<i32> {
        self.last_value
    }

    /// The kept text is the text of the kept bonus.
    pub open spec fn well_formed(&self) -> bool {
        self.last_value matches Some(v) ==> self.text@ == stat_bonus_text(v as int)
    }

    pub fn new(bonus_path: A) -> (selector: Self)
        ensures
            selector.bonus_path == bonus_path,
            selector.cached_value() is None,
            selector.well_formed(),
    {
        Self { bonus_path, last_value: None, text: String::new() }
    }

    /// The text of `bonus_value`.
    pub fn select(&mut self, bonus_value: i32) -> (text: &String)
        requires
            old(self).well_formed(),
        ensures
            final(self).well_formed(),
            final(self).cached_value() == Some(bonus_value),
            final(self).bonus_path == old(self).bonus_path,
            text@ == stat_bonus_text(bonus_value as int),
    {
        let fresh = match self.last_value {
            Some(last) => last == bonus_value,
            None => false,
        };
        if !fresh {
            let mut text = String::new();
            push_char(&mut text, '^');
            push_char(&mut text, '0');
            push_char(&mut text, '0');
            push_char(&mut text, '0');
            push_char(&mut text, '0');
            push_char(&mut text, '0');
            push_char(&mut text, '1');
            push_plus_signed_decimal(&mut text, bonus_value as i64);
            push_char(&mut text, '^');
            push_char(&mut text, '0');
            push_char(&mut text, '0');
            push_char(&mut text, '0');
            push_char(&mut text, '0');
            push_char(&mut text, '0');
            push_char(&mut text, '0');
            assert(text@ =~= stat_bonus_text(bonus_value as int));
            self.text = text;
            self.last_value = Some(bonus_value);
        }
        &self.text
    }
}

/// The text of the cost of raising a stat: `max` where it cannot be raised,
/// else the cost, highlighted.
pub open spec fn stat_cost_text(cost: u8) -> Seq<char> {
    if cost == 0 {
        seq!['^', '0', '0', '0', '0', '0', '1', 'm', 'a', 'x', '^', '0', '0', '0', '0', '0', '0']
    } else {
        seq!['+', '1', ' ', '(', '^', '0', '0', '0', '0', '0', '1'] + decimal(cost as nat) + seq![
            '^',
            '0',
            '0',
            '0',
            '0',
            '0',
            '0',
            ')',
        ]
    }
}

/// Keeps the text of the cost of raising a stat, and writes it anew only when
/// the cost changes.
pub struct CostTextSelector<A> {
    pub cost_path: A,
    pub last_value: Option<u8>,
    pub text: String,
}

fn push_chars(s: &mut String, chars: &[char])
    ensures
        final(s)@ == old(s)@ + chars@,
{
    let mut i: usize = 0;
    while i < chars.len()
        invariant
            i <= chars.len(),
            s@ == old(s)@ + chars@.take(i as int),
        decreases chars.len() - i,
    {
        push_char(s, chars[i]);
        assert(old(s)@ + chars@.take(i as int).push(chars@[i as int]) =~= old(s)@ + chars@.take(i + 1));
        i = i + 1;
    }
    assert(chars@.take(i as int) =~= chars@);
}

impl<A> CostTextSelector<A> {
    /// The cost whose text is kept, if any.
    pub open spec fn cached_value(&self) -> Option<u8> {
        self.last_value
    }

    /// The kept text is the text of the kept cost.
    pub open spec fn well_formed(&self) -> bool {
        self.last_value matches Some(v) ==> self.text@ == stat_cost_text(v)
    }

    pub fn new(cost_path: A) -> (selector: Self)
        ensures
            selector.cost_path == cost_path,
            selector.cached_value() is None,
            selector.well_formed(),
    {
        Self { cost_path, last_value: None, text: String::new() }
    }

    /// The text of `cost`.
    pub fn select(&mut self, cost: u8) -> (text: &String)
        requires
            old(self).well_formed(),
        ensures
            final(self).well_formed(),
            final(self).cached_value() == Some(cost),
            final(self).cost_path == old(self).cost_path,
            text@ == stat_cost_text(cost),
    {
        let fresh = match self.last_value {
            Some(last) => last == cost,
            None => false,
        };
        if !fresh {
            let mut text = String::new();
            if cost == 0 {
                push_chars(&mut text, &['^', '0', '0', '0', '0', '0', '1', 'm', 'a', 'x', '^', '0', '0', '0', '0', '0', '0']);
            } else {
                push_chars(&mut text, &['+', '1', ' ', '(', '^', '0', '0', '0', '0', '0', '1']);
                push_decimal(&mut text, cost as u64);
                push_chars(&mut text, &['^', '0', '0', '0', '0', '0', '0', ')']);
            }
            assert(text@ =~= stat_cost_text(cost));
            self.text = text;
            self.last_value = Some(cost);
        }
        &self.text
    }
}

} // verus!
