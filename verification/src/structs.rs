//! The world model: rooms and their exits, items, enemies, NPCs and quests,
//! and lookups of these by identifier.
use vstd::prelude::*;

verus! {

/// Everything the game world is made of.
#[derive(Debug)]
pub struct World {
    pub rooms: Vec<Room>,
    pub items: Vec<Item>,
    pub enemies: Vec<Enemy>,
    pub npcs: Vec<Npc>,
    pub quests: Vec<Quest>,
}

/// A room of the network, with what it holds and where it leads.
#[derive(Debug)]
pub struct Room {
    pub id: usize,
    pub name: String,
    pub description: String,
    pub points: u32,
    pub exits: Vec<Exit>,
    pub items: Vec<IdRef>,
    pub enemies: Vec<IdRef>,
    pub npcs: Vec<IdRef>,
    pub lore: Vec<LoreObject>,
    /// What kind of place this is ("boot", "storage", "network", ...),
    /// which picks the pool generated logs come from.
    pub role: Option<String>,
}

/// A piece of lore found in a room.
#[derive(Debug)]
pub struct LoreObject {
    pub id: String,
    pub name: String,
    pub description: String,
    pub logs: Vec<String>,
    /// Hidden lore shows only to `scan`.
    pub hidden: bool,
    /// Whether the logs are drawn from a pool when the world is loaded.
    pub generated: Option<bool>,
    /// An effect that reading this lore sets off.
    pub trigger_effect: Option<String>,
}

/// A link from one room to another.
#[derive(Debug)]
pub struct Exit {
    pub direction: String,
    /// The destination room.
    pub to: usize,
    pub locked: Option<bool>,
    pub required_item_id: Option<String>,
    pub required_quest_id: Option<String>,
    pub required_step: Option<String>,
    pub locked_msg: Option<String>,
    pub unlock_hint: Option<String>,
}

/// A reference to an item, enemy or NPC by its identifier.
#[derive(Debug)]
pub struct IdRef {
    pub id: String,
}

/// An item definition.
#[derive(Debug)]
pub struct Item {
    pub id: String,
    pub name: String,
    pub description: String,
    /// "artifact", "consumable", "cursed", or another kind that cannot be used.
    pub item_type: String,
    pub points: u32,
    pub effects: Option<Effects>,
}

/// The trait modifiers an item carries.
#[derive(Debug, Clone, Copy)]
pub struct Effects {
    pub hp: Option<i32>,
    pub strength: Option<i32>,
    pub intelligence: Option<i32>,
    pub persistence: Option<i32>,
    pub agility: Option<i32>,
    pub charisma: Option<i32>,
    pub luck: Option<i32>,
    pub wisdom: Option<i32>,
}

/// An enemy definition.
#[derive(Debug)]
pub struct Enemy {
    pub id: String,
    pub name: String,
    pub description: String,
    pub hp: i32,
    pub strength: i32,
    pub points: u32,
}

/// A non-player character.
#[derive(Debug)]
pub struct Npc {
    pub id: String,
    pub name: String,
    pub dialogue: String,
    pub quest_to_give: Option<String>,
    pub points: u32,
}

/// A quest: a sequence of steps completed in order.
#[derive(Debug)]
pub struct Quest {
    pub id: String,
    pub name: String,
    pub description: String,
    pub points: u32,
    pub current_step: usize,
    pub completed: bool,
    pub steps: Vec<QuestStep>,
    pub required_for_ending: Option<bool>,
}

/// One step of a quest: an action on a target.
#[derive(Debug)]
pub struct QuestStep {
    pub id: String,
    pub description: String,
    pub action: QuestAction,
    pub target_id: String,
    pub completed: bool,
}

/// The actions that advance quests.
#[derive(Debug, Clone, Copy, PartialEq, Eq, Structural)]
pub enum QuestAction {
    DefeatEnemy,
    CollectItem,
    TalkNpc,
    ReadLore,
    UseTerminal,
}

/// Things that carry a string identifier.
pub trait Identified {
    spec fn id_view(&self) -> Seq<char>;

    fn id_str(&self) -> (r: &str)
        ensures
            r@ == self.id_view(),
    ;
}

impl Identified for IdRef {
    open spec fn id_view(&self) -> Seq<char> {
        self.id@
    }

    fn id_str(&self) -> (r: &str) {
        self.id.as_str()
    }
}

impl Identified for Item {
    open spec fn id_view(&self) -> Seq<char> {
        self.id@
    }

    fn id_str(&self) -> (r: &str) {
        self.id.as_str()
    }
}

impl Identified for Enemy {
    open spec fn id_view(&self) -> Seq<char> {
        self.id@
    }

    fn id_str(&self) -> (r: &str) {
        self.id.as_str()
    }
}

impl Identified for Npc {
    open spec fn id_view(&self) -> Seq<char> {
        self.id@
    }

    fn id_str(&self) -> (r: &str) {
        self.id.as_str()
    }
}

impl Identified for Quest {
    open spec fn id_view(&self) -> Seq<char> {
        self.id@
    }

    fn id_str(&self) -> (r: &str) {
        self.id.as_str()
    }
}

impl Identified for QuestStep {
    open spec fn id_view(&self) -> Seq<char> {
        self.id@
    }

    fn id_str(&self) -> (r: &str) {
        self.id.as_str()
    }
}

impl Identified for LoreObject {
    open spec fn id_view(&self) -> Seq<char> {
        self.id@
    }

    fn id_str(&self) -> (r: &str) {
        self.id.as_str()
    }
}

/// `k` is the first position in `v` whose identifier is `id`.
pub open spec fn is_first_id<T: Identified>(v: Seq<T>, id: Seq<char>, k: int) -> bool {
    &&& 0 <= k < v.len()
    &&& v[k].id_view() == id
    &&& forall|j: int| 0 <= j < k ==> v[j].id_view() != id
}

/// The first position in `v` whose identifier is `id`, if any.
pub open spec fn find_id<T: Identified>(v: Seq<T>, id: Seq<char>) -> Option<int> {
    if exists|k: int| is_first_id(v, id, k) {
        Some(choose|k: int| is_first_id(v, id, k))
    } else {
        None
    }
}

/// There is a first position exactly when some position has the identifier,
/// and it is the only first one.
pub proof fn lemma_find_id<T: Identified>(v: Seq<T>, id: Seq<char>, k: int)
    ensures
        is_first_id(v, id, k) ==> find_id(v, id) == Some(k),
        (forall|j: int| 0 <= j < v.len() ==> v[j].id_view() != id) ==> find_id(v, id) is None,
        (exists|j: int| 0 <= j < v.len() && v[j].id_view() == id) ==> find_id(v, id) is Some,
{
    if is_first_id(v, id, k) {
        let c = choose|c: int| is_first_id(v, id, c);
        assert(is_first_id(v, id, c));
        assert(c == k) by {
            if c < k {
                assert(v[c].id_view() != id);
            }
            if k < c {
                assert(v[k].id_view() != id);
            }
        }
    }
    if exists|j: int| 0 <= j < v.len() && v[j].id_view() == id {
        let j0 = choose|j: int| 0 <= j < v.len() && v[j].id_view() == id;
        lemma_first_exists(v, id, j0);
    }
}

proof fn lemma_first_exists<T: Identified>(v: Seq<T>, id: Seq<char>, j: int)
    requires
        0 <= j < v.len(),
        v[j].id_view() == id,
    ensures
        exists|k: int| is_first_id(v, id, k),
    decreases j,
{
    if forall|i: int| 0 <= i < j ==> v[i].id_view() != id {
        assert(is_first_id(v, id, j));
    } else {
        let i = choose|i: int| 0 <= i < j && v[i].id_view() == id;
        lemma_first_exists(v, id, i);
    }
}

/// The first position in `v` whose identifier is `id`.
pub fn find_by_id<T: Identified>(v: &Vec<T>, id: &str) -> (r: Option<usize>)
    ensures
        r matches Some(k) ==> is_first_id(v@, id@, k as int),
        r matches Some(k) ==> find_id(v@, id@) == Some(k as int),
        r is None ==> find_id(v@, id@) is None,
        r is None ==> forall|j: int| 0 <= j < v@.len() ==> v@[j].id_view() != id@,
{
    let mut i: usize = 0;
    while i < v.len()
        invariant
            i <= v@.len(),
            forall|j: int| 0 <= j < i ==> v@[j].id_view() != id@,
        decreases v@.len() - i,
    {
        if crate::text::str_eq(v[i].id_str(), id) {
            proof {
                lemma_find_id(v@, id@, i as int);
            }
            return Some(i);
        }
        i = i + 1;
    }
    proof {
        lemma_find_id(v@, id@, 0);
    }
    None
}

/// `k` is the first room in `rooms` whose identifier is `id`.
pub open spec fn is_first_room(rooms: Seq<Room>, id: usize, k: int) -> bool {
    &&& 0 <= k < rooms.len()
    &&& rooms[k].id == id
    &&& forall|j: int| 0 <= j < k ==> rooms[j].id != id
}

/// The first room in `rooms` whose identifier is `id`.
pub fn find_room(rooms: &Vec<Room>, id: usize) -> (r: Option<usize>)
    ensures
        r matches Some(k) ==> is_first_room(rooms@, id, k as int),
        r is None ==> forall|j: int| 0 <= j < rooms@.len() ==> rooms@[j].id != id,
{
    let mut i: usize = 0;
    while i < rooms.len()
        invariant
            i <= rooms@.len(),
            forall|j: int| 0 <= j < i ==> rooms@[j].id != id,
        decreases rooms@.len() - i,
    {
        if rooms[i].id == id {
            return Some(i);
        }
        i = i + 1;
    }
    None
}

/// The value a modifier adds: its number, or nothing when it is absent.
pub open spec fn modifier(m: Option<i32>) -> int {
    match m {
        Some(v) => v as int,
        None => 0,
    }
}

impl QuestStep {
    /// A field-by-field copy.
    pub fn duplicate(&self) -> (r: QuestStep)
        ensures
            r == *self,
    {
        QuestStep {
            id: self.id.clone(),
            description: self.description.clone(),
            action: self.action,
            target_id: self.target_id.clone(),
            completed: self.completed,
        }
    }
}

impl Quest {
    /// `self` and `other` hold the same values.
    pub open spec fn same(&self, other: &Quest) -> bool {
        &&& self.id == other.id
        &&& self.name == other.name
        &&& self.description == other.description
        &&& self.points == other.points
        &&& self.current_step == other.current_step
        &&& self.completed == other.completed
        &&& self.steps@ == other.steps@
        &&& self.required_for_ending == other.required_for_ending
    }

    /// A field-by-field copy.
    pub fn duplicate(&self) -> (r: Quest)
        ensures
            r.same(self),
    {
        let mut steps: Vec<QuestStep> = Vec::new();
        let mut i: usize = 0;
        while i < self.steps.len()
            invariant
                i <= self.steps@.len(),
                steps@ == self.steps@.take(i as int),
            decreases self.steps@.len() - i,
        {
            steps.push(self.steps[i].duplicate());
            i = i + 1;
            assert(steps@ =~= self.steps@.take(i as int));
        }
        assert(steps@ =~= self.steps@);
        let required_for_ending = match self.required_for_ending {
            Some(b) => Some(b),
            None => None,
        };
        Quest {
            id: self.id.clone(),
            name: self.name.clone(),
            description: self.description.clone(),
            points: self.points,
            current_step: self.current_step,
            completed: self.completed,
            steps,
            required_for_ending,
        }
    }

    /// Every step of the quest is completed.
    pub open spec fn all_steps_done(&self) -> bool {
        forall|i: int| 0 <= i < self.steps@.len() ==> #[trigger] self.steps@[i].completed
    }

    /// Whether every step of the quest is completed.
    pub fn all_done(&self) -> (r: bool)
        ensures
            r == self.all_steps_done(),
    {
        let mut i: usize = 0;
        while i < self.steps.len()
            invariant
                i <= self.steps@.len(),
                forall|j: int| 0 <= j < i ==> #[trigger] self.steps@[j].completed,
            decreases self.steps@.len() - i,
        {
            if !self.steps[i].completed {
                return false;
            }
            i = i + 1;
        }
        true
    }
}

} // verus!
