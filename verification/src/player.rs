//! The player: hit points, traits, inventory and score.
use crate::structs::{find_by_id, find_id, modifier, Effects, IdRef, Identified, Item, World};
use crate::text::{contains_lowercase, has_substring, lowercase, str_eq};
use vstd::prelude::*;

verus! {

/// The player's record.
#[derive(Debug)]
pub struct Player {
    pub hp: i32,
    pub intelligence: i32,
    pub persistence: i32,
    pub agility: i32,
    pub charisma: i32,
    pub luck: i32,
    pub wisdom: i32,
    pub strength: i32,
    pub inventory: Vec<IdRef>,
    pub points: u32,
    pub quests_completed: u32,
    pub status: PlayerStatus,
}

/// Transient combat status.
#[derive(Debug, Clone, Copy)]
pub struct PlayerStatus {
    pub blocking: bool,
}

impl Default for PlayerStatus {
    fn default() -> (r: PlayerStatus)
        ensures
            !r.blocking,
    {
        PlayerStatus { blocking: false }
    }
}

/// `v` clamped to the range of `i32`.
pub open spec fn clamp_i32(v: int) -> int {
    if v > i32::MAX {
        i32::MAX as int
    } else if v < i32::MIN {
        i32::MIN as int
    } else {
        v
    }
}

/// `x + y`, saturating at the bounds of `i32`.
pub fn saturating_add_i32(x: i32, y: i32) -> (r: i32)
    ensures
        r == clamp_i32(x + y),
{
    match x.checked_add(y) {
        Some(v) => v,
        None => if y > 0 {
            i32::MAX
        } else {
            i32::MIN
        },
    }
}

/// `x - y`, saturating at the bounds of `i32`.
pub fn saturating_sub_i32(x: i32, y: i32) -> (r: i32)
    ensures
        r == clamp_i32(x - y),
{
    match x.checked_sub(y) {
        Some(v) => v,
        None => if y > 0 {
            i32::MIN
        } else {
            i32::MAX
        },
    }
}

/// The modifiers of the first world item whose identifier is `id`, if it
/// exists and carries any.
pub open spec fn effects_of(items: Seq<Item>, id: Seq<char>) -> Option<Effects> {
    match find_id(items, id) {
        Some(k) => items[k].effects,
        None => None,
    }
}

/// What `add_item(id)` does, taking the player from `old` to `new`: the
/// identifier joins the inventory, and the traits move by the modifiers of
/// the first world item with that identifier.
pub open spec fn add_item_post(old: Player, new: Player, items: Seq<Item>, id: Seq<char>) -> bool {
    &&& new.inv_ids() == old.inv_ids().push(id)
    &&& match effects_of(items, id) {
        Some(e) => new.traits_moved(old, e, true),
        None => new.same_traits(old),
    }
    &&& new.same_record(old)
}

/// What `remove_item(id)` does, taking the player from `old` to `new`: the
/// first inventory entry with the identifier leaves, and the traits move
/// back by the modifiers of the first world item with that identifier; with
/// no such entry nothing changes.
pub open spec fn remove_item_post(old: Player, new: Player, items: Seq<Item>, id: Seq<char>) -> bool {
    match find_id(old.inventory@, id) {
        Some(k) => {
            &&& new.inventory@ == old.inventory@.remove(k)
            &&& match effects_of(items, id) {
                Some(e) => new.traits_moved(old, e, false),
                None => new.same_traits(old),
            }
            &&& new.same_record(old)
        },
        None => new == old,
    }
}

/// The item kinds that can be used.
pub open spec fn usable_type(t: Seq<char>) -> bool {
    t == "artifact"@ || t == "consumable"@ || t == "cursed"@
}

/// Some world item has identifier `id` and a name whose lower-case form
/// contains the lower-case form of `name`.
pub open spec fn named_like(items: Seq<Item>, id: Seq<char>, name: Seq<char>) -> bool {
    exists|k: int|
        0 <= k < items.len() && #[trigger] items[k].id@ == id && has_substring(
            lowercase(items[k].name@),
            lowercase(name),
        )
}

/// Position `i` is the first inventory entry whose identifier names a world
/// item matching `name`.
pub open spec fn first_named(items: Seq<Item>, inv: Seq<IdRef>, name: Seq<char>, i: int) -> bool {
    &&& 0 <= i < inv.len()
    &&& named_like(items, inv[i].id@, name)
    &&& forall|j: int| 0 <= j < i ==> !named_like(items, #[trigger] inv[j].id@, name)
}

/// What using an item did.
#[derive(Debug, Clone, Copy, PartialEq, Eq, Structural)]
pub enum UseOutcome {
    /// No inventory entry matches the name.
    NotFound,
    /// The item (a position in the world's items) has no active function;
    /// the inventory is left as it was.
    CannotUse { item: usize },
    /// The item (a position in the world's items) was consumed; `hp` is its
    /// hit point modifier, `cursed` whether it is a cursed item.
    Used { item: usize, hp: Option<i32>, cursed: bool },
}

impl UseOutcome {
    /// Whether an item was consumed.
    pub fn is_used(&self) -> (r: bool)
        ensures
            r == (self is Used),
    {
        match self {
            UseOutcome::Used { .. } => true,
            _ => false,
        }
    }
}

/// What `use_item(name)` on the world items `items` does, taking the player
/// from `old` to `new` with `outcome`.
pub open spec fn use_item_post(
    old: Player,
    new: Player,
    items: Seq<Item>,
    name: Seq<char>,
    outcome: UseOutcome,
) -> bool {
    match outcome {
        UseOutcome::NotFound => {
            &&& forall|i: int|
                0 <= i < old.inventory@.len() ==> !named_like(
                    items,
                    #[trigger] old.inventory@[i].id@,
                    name,
                )
            &&& new == old
        },
        UseOutcome::CannotUse { item } => {
            &&& (exists|i: int|
                first_named(items, old.inventory@, name, i) && find_id(
                    items,
                    #[trigger] old.inventory@[i].id@,
                ) == Some(item as int))
            &&& !usable_type(items[item as int].item_type@)
            &&& new.same_as(old)
        },
        UseOutcome::Used { item, hp, cursed } => {
            &&& (exists|i: int|
                first_named(items, old.inventory@, name, i) && find_id(
                    items,
                    #[trigger] old.inventory@[i].id@,
                ) == Some(item as int) && new.inventory@
                    == old.inventory@.remove(i))
            &&& usable_type(items[item as int].item_type@)
            &&& hp == match items[item as int].effects {
                Some(e) => e.hp,
                None => None,
            }
            &&& cursed == (items[item as int].item_type@ == "cursed"@)
            &&& new.hp == match hp {
                Some(h) => clamp_i32(old.hp + h),
                None => old.hp as int,
            }
            &&& new.same_traits(old)
            &&& new.points == old.points
            &&& new.quests_completed == old.quests_completed
            &&& new.status == old.status
        },
    }
}

/// `lines` lists the inventory of `p`: each entry in order, with the first
/// world item of its identifier.
pub open spec fn listing_of(p: Player, items: Seq<Item>, lines: Seq<InventoryLine>) -> bool {
    &&& lines.len() == p.inventory@.len()
    &&& forall|i: int|
        0 <= i < lines.len() ==> #[trigger] lines[i].slot == i && lines[i].item == match find_id(
            items,
            p.inventory@[i].id@,
        ) {
            Some(k) => Some(k as usize),
            None => None::<usize>,
        }
}

/// One line of the inventory listing: the inventory entry's identifier and
/// the world item it resolves to, if any.
#[derive(Debug, Clone, Copy, PartialEq, Eq, Structural)]
pub struct InventoryLine {
    /// Position in the inventory.
    pub slot: usize,
    /// Position of the first world item with the entry's identifier.
    pub item: Option<usize>,
}

impl Player {
    /// The identifiers held in the inventory, in order.
    pub open spec fn inv_ids(self) -> Seq<Seq<char>> {
        self.inventory@.map_values(|r: IdRef| r.id@)
    }

    /// The seven traits of `self` are those of `old` moved by the modifiers
    /// of `e`, added when `up` and taken away otherwise.
    pub open spec fn traits_moved(self, old: Player, e: Effects, up: bool) -> bool {
        let d = |m: Option<i32>|
            if up {
                modifier(m)
            } else {
                -modifier(m)
            };
        &&& self.intelligence == old.intelligence + d(e.intelligence)
        &&& self.persistence == old.persistence + d(e.persistence)
        &&& self.agility == old.agility + d(e.agility)
        &&& self.charisma == old.charisma + d(e.charisma)
        &&& self.luck == old.luck + d(e.luck)
        &&& self.wisdom == old.wisdom + d(e.wisdom)
        &&& self.strength == old.strength + d(e.strength)
    }

    /// Moving the traits by `e` stays within `i32`.
    pub open spec fn fits_mods(self, e: Effects, up: bool) -> bool {
        let d = |m: Option<i32>|
            if up {
                modifier(m)
            } else {
                -modifier(m)
            };
        let ok = |v: int| i32::MIN <= v <= i32::MAX;
        &&& ok(self.intelligence + d(e.intelligence))
        &&& ok(self.persistence + d(e.persistence))
        &&& ok(self.agility + d(e.agility))
        &&& ok(self.charisma + d(e.charisma))
        &&& ok(self.luck + d(e.luck))
        &&& ok(self.wisdom + d(e.wisdom))
        &&& ok(self.strength + d(e.strength))
    }

    /// The seven traits of `self` and `old` are equal.
    pub open spec fn same_traits(self, old: Player) -> bool {
        &&& self.intelligence == old.intelligence
        &&& self.persistence == old.persistence
        &&& self.agility == old.agility
        &&& self.charisma == old.charisma
        &&& self.luck == old.luck
        &&& self.wisdom == old.wisdom
        &&& self.strength == old.strength
    }

    /// Hit points, score, completed quest count and status are equal.
    pub open spec fn same_record(self, old: Player) -> bool {
        &&& self.hp == old.hp
        &&& self.points == old.points
        &&& self.quests_completed == old.quests_completed
        &&& self.status == old.status
    }

    /// Every field of `self` and `old` holds the same value.
    pub open spec fn same_as(self, old: Player) -> bool {
        &&& self.same_traits(old)
        &&& self.same_record(old)
        &&& self.inventory@ == old.inventory@
    }

    /// Adding the modifiers of item `id` (if it has any) stays within `i32`.
    pub open spec fn can_take(self, items: Seq<Item>, id: Seq<char>) -> bool {
        match effects_of(items, id) {
            Some(e) => self.fits_mods(e, true),
            None => true,
        }
    }

    /// The record of a player at the start of a session: 35 hit points, 5 in
    /// every trait, nothing held, no score.
    pub open spec fn fresh(self) -> bool {
        &&& self.hp == 35
        &&& self.intelligence == 5
        &&& self.persistence == 5
        &&& self.agility == 5
        &&& self.charisma == 5
        &&& self.luck == 5
        &&& self.wisdom == 5
        &&& self.strength == 5
        &&& self.inventory@.len() == 0
        &&& self.points == 0
        &&& self.quests_completed == 0
        &&& !self.status.blocking
    }

    /// A fresh player.
    pub fn new() -> (p: Self)
        ensures
            p.fresh(),
    {
        Self {
            hp: 35,
            intelligence: 5,
            persistence: 5,
            agility: 5,
            charisma: 5,
            luck: 5,
            wisdom: 5,
            strength: 5,
            inventory: Vec::new(),
            points: 0,
            quests_completed: 0,
            status: PlayerStatus::default(),
        }
    }

    /// Loses `amount` hit points, never going below zero.
    pub fn take_damage(&mut self, amount: i32)
        requires
            i32::MIN <= old(self).hp - amount <= i32::MAX,
        ensures
            final(self).hp == if old(self).hp - amount > 0 {
                old(self).hp - amount
            } else {
                0
            },
            final(self).same_traits(*old(self)),
            final(self).inventory == old(self).inventory,
            final(self).points == old(self).points,
            final(self).quests_completed == old(self).quests_completed,
            final(self).status == old(self).status,
    {
        let v = self.hp - amount;
        self.hp = if v > 0 {
            v
        } else {
            0
        };
    }

    /// Whether the player still has hit points.
    pub fn is_alive(&self) -> (r: bool)
        ensures
            r == (self.hp > 0),
    {
        self.hp > 0
    }

    /// Adds `amount` to the score.
    pub fn add_points(&mut self, amount: u32)
        requires
            old(self).points + amount <= u32::MAX,
        ensures
            final(self).points == old(self).points + amount,
            final(self).hp == old(self).hp,
            final(self).same_traits(*old(self)),
            final(self).inventory == old(self).inventory,
            final(self).quests_completed == old(self).quests_completed,
            final(self).status == old(self).status,
    {
        self.points = self.points + amount;
    }

    /// Whether the inventory holds an entry with identifier `item_id`.
    pub fn has_item(&self, item_id: &str) -> (r: bool)
        ensures
            r == self.inv_ids().contains(item_id@),
    {
        let k = find_by_id(&self.inventory, item_id);
        proof {
            if self.inv_ids().contains(item_id@) {
                let j = choose|j: int| 0 <= j < self.inv_ids().len() && self.inv_ids()[j] == item_id@;
                assert(self.inventory@[j].id_view() == item_id@);
            }
            if k is Some {
                let j = k.unwrap() as int;
                assert(self.inv_ids()[j] == item_id@);
            }
        }
        k.is_some()
    }

    /// Puts `item_id` in the inventory and applies the trait modifiers of the
    /// first world item with that identifier.
    pub fn add_item(&mut self, item_id: &str, world: &World)
        requires
            old(self).can_take(world.items@, item_id@),
        ensures
            add_item_post(*old(self), *final(self), world.items@, item_id@),
    {
        let ghost ids0 = self.inv_ids();
        self.inventory.push(IdRef { id: String::from_str(item_id) });
        assert(self.inv_ids() =~= ids0.push(item_id@));
        if let Some(k) = find_by_id(&world.items, item_id) {
            if let Some(mods) = &world.items[k].effects {
                self.apply_mods(mods, true);
            }
        }
    }

    /// Takes the first inventory entry with identifier `item_id` out and
    /// removes the trait modifiers of the first world item with that
    /// identifier; nothing changes when there is no such entry.
    pub fn remove_item(&mut self, item_id: &str, world: &World)
        requires
            find_id(old(self).inventory@, item_id@) is Some ==> match effects_of(
                world.items@,
                item_id@,
            ) {
                Some(e) => old(self).fits_mods(e, false),
                None => true,
            },
        ensures
            remove_item_post(*old(self), *final(self), world.items@, item_id@),
    {
        if let Some(index) = find_by_id(&self.inventory, item_id) {
            self.inventory.remove(index);
            if let Some(k) = find_by_id(&world.items, item_id) {
                if let Some(mods) = &world.items[k].effects {
                    self.apply_mods(mods, false);
                }
            }
        }
    }

    fn apply_mods(&mut self, mods: &Effects, up: bool)
        requires
            old(self).fits_mods(*mods, up),
        ensures
            final(self).traits_moved(*old(self), *mods, up),
            final(self).same_record(*old(self)),
            final(self).inventory == old(self).inventory,
    {
        if up {
            self.intelligence = self.intelligence + unwrap_or_zero(mods.intelligence);
            self.persistence = self.persistence + unwrap_or_zero(mods.persistence);
            self.agility = self.agility + unwrap_or_zero(mods.agility);
            self.charisma = self.charisma + unwrap_or_zero(mods.charisma);
            self.luck = self.luck + unwrap_or_zero(mods.luck);
            self.wisdom = self.wisdom + unwrap_or_zero(mods.wisdom);
            self.strength = self.strength + unwrap_or_zero(mods.strength);
        } else {
            self.intelligence = self.intelligence - unwrap_or_zero(mods.intelligence);
            self.persistence = self.persistence - unwrap_or_zero(mods.persistence);
            self.agility = self.agility - unwrap_or_zero(mods.agility);
            self.charisma = self.charisma - unwrap_or_zero(mods.charisma);
            self.luck = self.luck - unwrap_or_zero(mods.luck);
            self.wisdom = self.wisdom - unwrap_or_zero(mods.wisdom);
            self.strength = self.strength - unwrap_or_zero(mods.strength);
        }
    }

    /// Whether some world item has identifier `id` and a name matching `name`.
    fn matches_name(world: &World, id: &str, name: &str) -> (r: bool)
        ensures
            r == named_like(world.items@, id@, name@),
    {
        let mut k: usize = 0;
        while k < world.items.len()
            invariant
                k <= world.items@.len(),
                forall|j: int|
                    0 <= j < k ==> !(#[trigger] world.items@[j].id@ == id@ && has_substring(
                        lowercase(world.items@[j].name@),
                        lowercase(name@),
                    )),
            decreases world.items@.len() - k,
        {
            if str_eq(world.items[k].id.as_str(), id) && contains_lowercase(
                world.items[k].name.as_str(),
                name,
            ) {
                return true;
            }
            k = k + 1;
        }
        false
    }

    /// Uses the first inventory entry that names a world item whose name
    /// matches `name`. An item of a usable kind is consumed and its hit point
    /// modifier applied (saturating); another item stays where it was.
    pub fn use_item(&mut self, name: &str, world: &World) -> (outcome: UseOutcome)
        ensures
            use_item_post(*old(self), *final(self), world.items@, name@, outcome),
    {
        let mut index: usize = 0;
        let n = self.inventory.len();
        let mut found = false;
        while !found && index < n
            invariant
                n == self.inventory@.len(),
                *self == *old(self),
                index <= n,
                found ==> index < n && named_like(
                    world.items@,
                    self.inventory@[index as int].id@,
                    name@,
                ),
                forall|j: int|
                    0 <= j < index ==> !named_like(
                        world.items@,
                        #[trigger] self.inventory@[j].id@,
                        name@,
                    ),
            decreases n - index + if found {
                0int
            } else {
                1int
            },
        {
            if Self::matches_name(world, self.inventory[index].id.as_str(), name) {
                found = true;
            } else {
                index = index + 1;
            }
        }
        if !found {
            return UseOutcome::NotFound;
        }
        assert(first_named(world.items@, self.inventory@, name@, index as int));
        let ghost inv0 = self.inventory@;
        let idref = self.inventory.remove(index);
        let k = match find_by_id(&world.items, idref.id.as_str()) {
            Some(k) => k,
            None => {
                proof {
                    let w = choose|w: int|
                        0 <= w < world.items@.len() && #[trigger] world.items@[w].id@ == idref.id@
                            && has_substring(
                            lowercase(world.items@[w].name@),
                            lowercase(name@),
                        );
                    assert(world.items@[w].id_view() == idref.id@);
                }
                self.inventory.insert(index, idref);
                assert(self.inventory@ =~= inv0);
                return UseOutcome::NotFound;
            },
        };
        let item = &world.items[k];
        let t = item.item_type.as_str();
        if !(str_eq(t, "artifact") || str_eq(t, "consumable") || str_eq(t, "cursed")) {
            self.inventory.insert(index, idref);
            assert(self.inventory@ =~= inv0);
            assert(first_named(world.items@, inv0, name@, index as int) && find_id(
                world.items@,
                inv0[index as int].id@,
            ) == Some(k as int));
            return UseOutcome::CannotUse { item: k };
        }
        let mut hp: Option<i32> = None;
        if let Some(effects) = &item.effects {
            if let Some(h) = effects.hp {
                self.hp = saturating_add_i32(self.hp, h);
                hp = Some(h);
            }
        }
        let cursed = str_eq(t, "cursed");
        assert(first_named(world.items@, inv0, name@, index as int) && find_id(
            world.items@,
            inv0[index as int].id@,
        ) == Some(k as int) && self.inventory@ == inv0.remove(index as int));
        UseOutcome::Used { item: k, hp, cursed }
    }

    /// For each inventory entry in order, the first world item with its
    /// identifier.
    pub fn list_inventory(&self, world: &World) -> (lines: Vec<InventoryLine>)
        ensures
            listing_of(*self, world.items@, lines@),
    {
        let mut lines: Vec<InventoryLine> = Vec::new();
        let mut i: usize = 0;
        while i < self.inventory.len()
            invariant
                i <= self.inventory@.len(),
                lines@.len() == i,
                forall|j: int|
                    0 <= j < i ==> #[trigger] lines@[j].slot == j && lines@[j].item == match find_id(
                        world.items@,
                        self.inventory@[j].id@,
                    ) {
                        Some(k) => Some(k as usize),
                        None => None::<usize>,
                    },
            decreases self.inventory@.len() - i,
        {
            let item = find_by_id(&world.items, self.inventory[i].id.as_str());
            lines.push(InventoryLine { slot: i, item });
            i = i + 1;
        }
        lines
    }
}

/// The modifier's value, or zero when it is absent.
pub fn unwrap_or_zero(m: Option<i32>) -> (r: i32)
    ensures
        r == modifier(m),
{
    match m {
        Some(v) => v,
        None => 0,
    }
}

} // verus!
