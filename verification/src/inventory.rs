//! The skills a character has learned, the hotbar they are placed on, and the
//! items the character carries.

use vstd::prelude::*;

use crate::world::{EquipPosition, HotbarSlot, InventoryIndex, ItemId, SkillId, SkillLevel, SkillType};

verus! {

/// A skill the character has learned.
#[derive(Clone, Debug)]
pub struct LearnedSkill {
    pub skill_id: SkillId,
    pub skill_level: SkillLevel,
    pub skill_type: SkillType,
    pub skill_name: String,
}

/// The path to a learned skill: the learnable skill it is, and where the
/// learned skills are kept.
pub struct LearnedSkillPath<A, B> {
    pub learnable_skill_path: A,
    pub skills_path: B,
}

impl<A, B> LearnedSkillPath<A, B> {
    pub fn new(learnable_skill_path: A, skills_path: B) -> (path: Self)
        ensures
            path.learnable_skill_path == learnable_skill_path,
            path.skills_path == skills_path,
    {
        Self { learnable_skill_path, skills_path }
    }
}

/// What the map server is told a hotbar slot holds.
#[derive(Clone, Copy, Debug, PartialEq, Eq, Structural)]
pub struct HotkeyData {
    pub is_skill: u8,
    pub skill_id: u32,
    pub quantity_or_skill_level: u16,
}

/// What the map server is told about an empty slot.
pub open spec fn unbound_hotkey() -> HotkeyData {
    HotkeyData { is_skill: 0, skill_id: 0, quantity_or_skill_level: 0 }
}

impl HotkeyData {
    /// An empty slot.
    pub fn unbound() -> (data: HotkeyData)
        ensures
            data == unbound_hotkey(),
    {
        HotkeyData { is_skill: 0, skill_id: 0, quantity_or_skill_level: 0 }
    }
}

/// The number of slots of the hotbar.
pub const HOTBAR_SLOTS: usize = 10;

/// What the map server is told about a slot holding `skill`.
pub open spec fn hotkey_of(skill: Option<LearnedSkill>) -> HotkeyData {
    match skill {
        Some(skill) => HotkeyData {
            is_skill: 1,
            skill_id: skill.skill_id.0 as u32,
            quantity_or_skill_level: skill.skill_level.0,
        },
        None => unbound_hotkey(),
    }
}

/// The hotkey data of a slot holding `skill`.
pub fn hotkey_data(skill: &Option<LearnedSkill>) -> (data: HotkeyData)
    ensures
        data == hotkey_of(*skill),
{
    match skill {
        Some(skill) => HotkeyData {
            is_skill: 1,
            skill_id: skill.skill_id.0 as u32,
            quantity_or_skill_level: skill.skill_level.0,
        },
        None => HotkeyData::unbound(),
    }
}

/// The skills placed on the hotbar, one per slot.
pub struct Hotbar {
    skills: [Option<LearnedSkill>; 10],
}

impl View for Hotbar {
    type V = Seq<Option<LearnedSkill>>;

    closed spec fn view(&self) -> Seq<Option<LearnedSkill>> {
        self.skills@
    }
}

impl Hotbar {
    /// A hotbar with every slot empty.
    pub fn new() -> (hotbar: Self)
        ensures
            hotbar@ == Seq::new(HOTBAR_SLOTS as nat, |i: int| None::<LearnedSkill>),
    {
        let hotbar = Hotbar { skills: [None, None, None, None, None, None, None, None, None, None] };
        assert(hotbar@ =~= Seq::new(HOTBAR_SLOTS as nat, |i: int| None::<LearnedSkill>));
        hotbar
    }

    /// The number of slots is fixed.
    pub proof fn lemma_slot_count(&self)
        ensures
            self@.len() == HOTBAR_SLOTS,
    {
    }

    /// Set the slot without notifying the map server.
    pub fn set_slot(&mut self, slot: HotbarSlot, skill: LearnedSkill)
        requires
            slot.0 < HOTBAR_SLOTS,
        ensures
            final(self)@ == old(self)@.update(slot.0 as int, Some(skill)),
    {
        self.skills[slot.0 as usize] = Some(skill);
    }

    /// Update the slot and return what the map server is to be told.
    pub fn update_slot(&mut self, slot: HotbarSlot, skill: LearnedSkill) -> (data: HotkeyData)
        requires
            slot.0 < HOTBAR_SLOTS,
        ensures
            data == hotkey_of(Some(skill)),
            final(self)@ == old(self)@.update(slot.0 as int, Some(skill)),
    {
        let data = HotkeyData {
            is_skill: 1,
            skill_id: skill.skill_id.0 as u32,
            quantity_or_skill_level: skill.skill_level.0,
        };
        self.skills[slot.0 as usize] = Some(skill);
        data
    }

    /// Swap two slots; for two different slots, returns what the map server
    /// is to be told about the destination slot and then about the source
    /// slot. Swapping a slot with itself changes nothing.
    pub fn swap_slot(&mut self, source_slot: HotbarSlot, destination_slot: HotbarSlot) -> (data: Option<(HotkeyData, HotkeyData)>)
        requires
            source_slot.0 < HOTBAR_SLOTS,
            destination_slot.0 < HOTBAR_SLOTS,
        ensures
            source_slot == destination_slot ==> data is None && final(self)@ == old(self)@,
            source_slot != destination_slot ==> {
                &&& final(self)@ == old(self)@.update(source_slot.0 as int, old(self)@[destination_slot.0 as int]).update(
                    destination_slot.0 as int,
                    old(self)@[source_slot.0 as int],
                )
                &&& data == Some((hotkey_of(old(self)@[source_slot.0 as int]), hotkey_of(old(self)@[destination_slot.0 as int])))
            },
    {
        if source_slot.0 == destination_slot.0 {
            return None;
        }
        let source = source_slot.0 as usize;
        let destination = destination_slot.0 as usize;
        let first = self.skills[source].take();
        let second = self.skills[destination].take();
        let first_data = hotkey_data(&first);
        let second_data = hotkey_data(&second);
        self.skills[source] = second;
        self.skills[destination] = first;
        Some((first_data, second_data))
    }

    /// Clear the slot without notifying the map server.
    pub fn unset_slot(&mut self, slot: HotbarSlot)
        requires
            slot.0 < HOTBAR_SLOTS,
        ensures
            final(self)@ == old(self)@.update(slot.0 as int, None),
    {
        self.skills[slot.0 as usize] = None;
    }

    /// Clear the slot and return what the map server is to be told.
    pub fn clear_slot(&mut self, slot: HotbarSlot) -> (data: HotkeyData)
        requires
            slot.0 < HOTBAR_SLOTS,
        ensures
            data == unbound_hotkey(),
            final(self)@ == old(self)@.update(slot.0 as int, None),
    {
        self.skills[slot.0 as usize] = None;
        HotkeyData::unbound()
    }

    /// The skill in a slot.
    pub fn get_skill_in_slot(&self, slot: HotbarSlot) -> (skill: &Option<LearnedSkill>)
        requires
            slot.0 < HOTBAR_SLOTS,
        ensures
            *skill == self@[slot.0 as int],
    {
        &self.skills[slot.0 as usize]
    }
}

/// Swapping two slots twice leaves the hotbar as it was.
pub proof fn lemma_swap_twice_restores(slots: Seq<Option<LearnedSkill>>, a: int, b: int)
    requires
        0 <= a < slots.len(),
        0 <= b < slots.len(),
    ensures
        ({
            let once = slots.update(a, slots[b]).update(b, slots[a]);
            once.update(a, once[b]).update(b, once[a]) == slots
        }),
{
    let once = slots.update(a, slots[b]).update(b, slots[a]);
    assert(once.update(a, once[b]).update(b, once[a]) =~= slots);
}

/// A skill set in a slot is what the slot then holds.
pub proof fn lemma_get_after_set(slots: Seq<Option<LearnedSkill>>, slot: int, other: int, skill: LearnedSkill)
    requires
        0 <= slot < slots.len(),
        0 <= other < slots.len(),
        other != slot,
    ensures
        slots.update(slot, Some(skill))[slot] == Some(skill),
        slots.update(slot, Some(skill))[other] == slots[other],
{
}

/// What kind of item an inventory entry is: a stack of a regular item or a
/// piece of equipment.
#[derive(Clone, Copy, Debug, PartialEq, Eq, Structural)]
pub enum InventoryItemDetails {
    Regular { amount: u16 },
    Equippable { equipped_position: EquipPosition },
}

/// An item in the inventory, with what the client loaded for it.
#[derive(Clone, Debug)]
pub struct InventoryItem<M> {
    pub index: InventoryIndex,
    pub item_id: ItemId,
    pub details: InventoryItemDetails,
    pub metadata: M,
}

/// Whether `k` is the first position of `items` that holds the item at
/// inventory index `index`.
pub open spec fn first_at<M>(items: Seq<InventoryItem<M>>, index: InventoryIndex, k: int) -> bool {
    &&& 0 <= k < items.len()
    &&& items[k].index == index
    &&& forall|j: int| 0 <= j < k ==> items[j].index != index
}

/// Whether `items` hold the item at inventory index `index`.
pub open spec fn holds<M>(items: Seq<InventoryItem<M>>, index: InventoryIndex) -> bool {
    exists|k: int| 0 <= k < items.len() && items[k].index == index
}

/// The item with its stack amount set to `amount`.
pub open spec fn with_amount<M>(item: InventoryItem<M>, amount: u16) -> InventoryItem<M> {
    InventoryItem { details: InventoryItemDetails::Regular { amount }, ..item }
}

/// The items of the character, in the order the server sent them.
pub struct Inventory<M> {
    items: Vec<InventoryItem<M>>,
}

impl<M> View for Inventory<M> {
    type V = Seq<InventoryItem<M>>;

    closed spec fn view(&self) -> Seq<InventoryItem<M>> {
        self.items@
    }
}

impl<M> Inventory<M> {
    /// An empty inventory.
    pub fn new() -> (inventory: Self)
        ensures
            inventory@.len() == 0,
    {
        Inventory { items: Vec::new() }
    }

    /// The first position of the item at inventory index `index`, if any.
    fn find(&self, index: InventoryIndex) -> (position: Option<usize>)
        ensures
            match position {
                Some(k) => first_at(self@, index, k as int),
                None => !holds(self@, index),
            },
    {
        let mut k: usize = 0;
        while k < self.items.len()
            invariant
                k <= self.items@.len(),
                forall|j: int| 0 <= j < k ==> self.items@[j].index != index,
            decreases self.items.len() - k,
        {
            if self.items[k].index.0 == index.0 {
                return Some(k);
            }
            k = k + 1;
        }
        None
    }

    /// Replaces the items with `items`, each with the metadata that
    /// `load_metadata` loads for it.
    pub fn fill<F>(&mut self, items: Vec<InventoryItem<()>>, load_metadata: F)
        where
            F: Fn(&InventoryItem<()>) -> M,
        requires
            forall|item: &InventoryItem<()>| load_metadata.requires((item,)),
        ensures
            final(self)@.len() == items@.len(),
            forall|k: int|
                0 <= k < items@.len() ==> {
                    &&& (#[trigger] final(self)@[k]).index == items@[k].index
                    &&& final(self)@[k].item_id == items@[k].item_id
                    &&& final(self)@[k].details == items@[k].details
                    &&& load_metadata.ensures((&items@[k],), final(self)@[k].metadata)
                },
    {
        let mut loaded: Vec<InventoryItem<M>> = Vec::new();
        let mut k: usize = 0;
        while k < items.len()
            invariant
                forall|item: &InventoryItem<()>| load_metadata.requires((item,)),
                k <= items@.len(),
                loaded@.len() == k,
                forall|j: int|
                    0 <= j < k ==> {
                        &&& (#[trigger] loaded@[j]).index == items@[j].index
                        &&& loaded@[j].item_id == items@[j].item_id
                        &&& loaded@[j].details == items@[j].details
                        &&& load_metadata.ensures((&items@[j],), loaded@[j].metadata)
                    },
            decreases items.len() - k,
        {
            let item = &items[k];
            let metadata = load_metadata(item);
            loaded.push(InventoryItem { index: item.index, item_id: item.item_id, details: item.details, metadata });
            k = k + 1;
        }
        self.items = loaded;
    }

    /// Adds an item: to the stack already at its inventory index, or as a
    /// new entry with the metadata that `load_metadata` loads for it. Items
    /// are stacked only where both are regular items and the total amount
    /// fits.
    pub fn add_item<F>(&mut self, item: InventoryItem<()>, load_metadata: F)
        where
            F: FnOnce(&InventoryItem<()>) -> M,
        requires
            load_metadata.requires((&item,)),
            forall|k: int|
                first_at(old(self)@, item.index, k) ==> {
                    &&& old(self)@[k].details matches InventoryItemDetails::Regular { amount }
                    &&& item.details matches InventoryItemDetails::Regular { amount: added }
                    &&& amount + added <= u16::MAX
                },
        ensures
            forall|k: int|
                first_at(old(self)@, item.index, k) ==> final(self)@ == old(self)@.update(
                    k,
                    with_amount(
                        old(self)@[k],
                        (old(self)@[k].details->Regular_amount + item.details->Regular_amount) as u16,
                    ),
                ),
            !holds(old(self)@, item.index) ==> exists|metadata: M|
                load_metadata.ensures((&item,), metadata) && final(self)@ == old(self)@.push(
                    InventoryItem {
                        index: item.index,
                        item_id: item.item_id,
                        details: item.details,
                        metadata,
                    },
                ),
    {
        match self.find(item.index) {
            Some(k) => {
                let added = match item.details {
                    InventoryItemDetails::Regular { amount } => amount,
                    _ => 0,
                };
                let mut found = self.items.remove(k);
                let amount = match found.details {
                    InventoryItemDetails::Regular { amount } => amount,
                    _ => 0,
                };
                found.details = InventoryItemDetails::Regular { amount: amount + added };
                self.items.insert(k, found);
                assert(self.items@ =~= old(self)@.update(k as int, with_amount(old(self)@[k as int], (amount + added) as u16)));
            },
            None => {
                let metadata = load_metadata(&item);
                let loaded = InventoryItem { index: item.index, item_id: item.item_id, details: item.details, metadata };
                self.items.push(loaded);
            },
        }
    }

    /// Takes `remove_amount` off the stack at inventory index `index`; the
    /// entry goes where that is all of it, or where it is not a stack.
    pub fn remove_item(&mut self, index: InventoryIndex, remove_amount: u16)
        requires
            holds(old(self)@, index),
        ensures
            forall|k: int|
                first_at(old(self)@, index, k) ==> final(self)@ == if old(self)@[k].details matches InventoryItemDetails::Regular { amount } && amount > remove_amount {
                    old(self)@.update(k, with_amount(old(self)@[k], (old(self)@[k].details->Regular_amount - remove_amount) as u16))
                } else {
                    old(self)@.remove(k)
                },
    {
        match self.find(index) {
            Some(k) => {
                let mut found = self.items.remove(k);
                match found.details {
                    InventoryItemDetails::Regular { amount } => {
                        if amount > remove_amount {
                            found.details = InventoryItemDetails::Regular { amount: amount - remove_amount };
                            self.items.insert(k, found);
                            assert(self.items@ =~= old(self)@.update(
                                k as int,
                                with_amount(old(self)@[k as int], (amount - remove_amount) as u16),
                            ));
                        }
                    },
                    _ => {},
                }
            },
            None => {},
        }
    }

    /// Records where the equipment at inventory index `index` is now worn.
    pub fn update_equipped_position(&mut self, index: InventoryIndex, new_equipped_position: EquipPosition)
        requires
            forall|k: int| first_at(old(self)@, index, k) ==> old(self)@[k].details is Equippable,
            holds(old(self)@, index),
        ensures
            forall|k: int|
                first_at(old(self)@, index, k) ==> final(self)@ == old(self)@.update(
                    k,
                    InventoryItem {
                        details: InventoryItemDetails::Equippable { equipped_position: new_equipped_position },
                        ..old(self)@[k]
                    },
                ),
    {
        match self.find(index) {
            Some(k) => {
                let mut found = self.items.remove(k);
                found.details = InventoryItemDetails::Equippable { equipped_position: new_equipped_position };
                self.items.insert(k, found);
                assert(self.items@ =~= old(self)@.update(
                    k as int,
                    InventoryItem {
                        details: InventoryItemDetails::Equippable { equipped_position: new_equipped_position },
                        ..old(self)@[k as int]
                    },
                ));
            },
            None => {},
        }
    }

    /// The items, in order.
    pub fn get_items(&self) -> (items: &Vec<InventoryItem<M>>)
        ensures
            items@ == self@,
    {
        &self.items
    }
}

/// Adding to a stack and taking the same amount off again leaves the stack as
/// it was, where it was not empty.
pub proof fn lemma_add_then_remove_restores<M>(items: Seq<InventoryItem<M>>, k: int, added: u16)
    requires
        0 <= k < items.len(),
        items[k].details matches InventoryItemDetails::Regular { amount } && 0 < amount && amount + added <= u16::MAX,
    ensures
        ({
            let amount = items[k].details->Regular_amount;
            let stacked = items.update(k, with_amount(items[k], (amount + added) as u16));
            stacked.update(k, with_amount(stacked[k], (stacked[k].details->Regular_amount - added) as u16)) == items
        }),
{
    let amount = items[k].details->Regular_amount;
    let stacked = items.update(k, with_amount(items[k], (amount + added) as u16));
    let back = stacked.update(k, with_amount(stacked[k], (stacked[k].details->Regular_amount - added) as u16));
    assert(back[k] == items[k]);
    assert(back =~= items);
}

} // verus!
