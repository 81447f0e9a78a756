//! The state of a session: the world, the player, where the player is, the
//! quests taken on, and how a session ends.
use crate::battle::trim_str;
use crate::player::Player;
use crate::quest::{
    count_completing, event_applied, event_awards, handle_event, points_completing, reports,
    QuestProgress,
};
use crate::structs::{Effects, Quest, QuestAction, Room, World};
use crate::text::{lowercase, str_eq, to_lowercase};
use uuid::Uuid;
use vstd::prelude::*;

verus! {

/// A universally unique identifier, naming a session.
#[verifier::external_type_specification]
#[verifier::external_body]
pub struct ExUuid(uuid::Uuid);

/// A game session.
pub struct Game {
    pub world: World,
    pub player: Player,
    /// Position of the current room in the world's rooms.
    pub current_room: usize,
    /// The quests the player has taken on.
    pub quests: Vec<Quest>,
    pub running: bool,
    pub session: Uuid,
}

/// The four ways a session can end.
#[derive(Debug, Clone, Copy, PartialEq, Eq, Structural)]
pub enum Ending {
    Accept,
    Purge,
    Loop,
    Override,
}

/// The ending a choice names, if any.
pub open spec fn ending_named(choice: Seq<char>) -> Option<Ending> {
    if choice == "accept"@ {
        Some(Ending::Accept)
    } else if choice == "purge"@ {
        Some(Ending::Purge)
    } else if choice == "loop"@ {
        Some(Ending::Loop)
    } else if choice == "override"@ {
        Some(Ending::Override)
    } else {
        None
    }
}

/// The ending a line typed at the final terminal picks: its number or its
/// name, in any case, surrounded by any whitespace.
pub open spec fn ending_typed(input: Seq<char>) -> Option<Ending> {
    let t = lowercase(crate::battle::trim(input));
    if t == "1"@ || t == "accept"@ {
        Some(Ending::Accept)
    } else if t == "2"@ || t == "purge"@ {
        Some(Ending::Purge)
    } else if t == "3"@ || t == "loop"@ {
        Some(Ending::Loop)
    } else if t == "4"@ || t == "override"@ {
        Some(Ending::Override)
    } else {
        None
    }
}

impl Ending {
    /// The name of the ending.
    pub open spec fn spec_name(self) -> Seq<char> {
        match self {
            Ending::Accept => "accept"@,
            Ending::Purge => "purge"@,
            Ending::Loop => "loop"@,
            Ending::Override => "override"@,
        }
    }

    /// The name of the ending.
    pub fn name(&self) -> (r: &'static str)
        ensures
            r@ == self.spec_name(),
    {
        match self {
            Ending::Accept => "accept",
            Ending::Purge => "purge",
            Ending::Loop => "loop",
            Ending::Override => "override",
        }
    }

    /// The ending a choice names.
    pub fn from_choice(choice: &str) -> (r: Option<Ending>)
        ensures
            r == ending_named(choice@),
    {
        if str_eq(choice, "accept") {
            Some(Ending::Accept)
        } else if str_eq(choice, "purge") {
            Some(Ending::Purge)
        } else if str_eq(choice, "loop") {
            Some(Ending::Loop)
        } else if str_eq(choice, "override") {
            Some(Ending::Override)
        } else {
            None
        }
    }

    /// The ending a line typed at the final terminal picks.
    pub fn from_input(input: &str) -> (r: Option<Ending>)
        ensures
            r == ending_typed(input@),
    {
        let t = trim_str(input);
        let l = to_lowercase(t.as_str());
        let s = l.as_str();
        if str_eq(s, "1") || str_eq(s, "accept") {
            Some(Ending::Accept)
        } else if str_eq(s, "2") || str_eq(s, "purge") {
            Some(Ending::Purge)
        } else if str_eq(s, "3") || str_eq(s, "loop") {
            Some(Ending::Loop)
        } else if str_eq(s, "4") || str_eq(s, "override") {
            Some(Ending::Override)
        } else {
            None
        }
    }
}

/// Every exit of every room leads to a position among the rooms.
pub open spec fn exits_lead_to_rooms(rooms: Seq<Room>) -> bool {
    forall|r: int, e: int|
        0 <= r < rooms.len() && 0 <= e < rooms[r].exits@.len() ==> #[trigger] rooms[r].exits@[e].to
            < rooms.len()
}

impl Game {
    /// The session is well formed: the current room exists.
    pub open spec fn wf(&self) -> bool {
        self.current_room < self.world.rooms@.len()
    }

    /// The score and the completed quest count can take what the event
    /// awards.
    pub open spec fn event_fits(&self, action: QuestAction, target: Seq<char>) -> bool {
        &&& self.player.points + points_completing(self.quests@, action, target) <= u32::MAX
        &&& self.player.quests_completed + count_completing(self.quests@, action, target)
            <= u32::MAX
    }

    /// The score and the completed quest count can take a won fight with
    /// the enemy defined at `enemy`: its points, then what defeating it
    /// awards.
    pub open spec fn battle_fits(&self, enemy: int) -> bool {
        let e = self.world.enemies@[enemy];
        &&& self.player.points + e.points + points_completing(
            self.quests@,
            QuestAction::DefeatEnemy,
            e.id@,
        ) <= u32::MAX
        &&& self.player.quests_completed + count_completing(
            self.quests@,
            QuestAction::DefeatEnemy,
            e.id@,
        ) <= u32::MAX
    }

    /// Everything except the quests and the player is as in `old`.
    pub open spec fn same_world(&self, old: Game) -> bool {
        &&& self.world == old.world
        &&& self.current_room == old.current_room
        &&& self.running == old.running
        &&& self.session == old.session
    }

    /// A new session in `world`, starting in the first room.
    pub fn new(world: World, session: Uuid) -> (g: Self)
        ensures
            g.world == world,
            g.player.fresh(),
            g.current_room == 0,
            g.quests@.len() == 0,
            g.running,
            g.session == session,
    {
        Self {
            player: Player::new(),
            current_room: 0,
            quests: Vec::new(),
            running: true,
            session,
            world,
        }
    }

    /// The current room.
    pub fn current_room(&self) -> (r: &Room)
        requires
            self.current_room < self.world.rooms@.len(),
        ensures
            *r == self.world.rooms@[self.current_room as int],
    {
        &self.world.rooms[self.current_room]
    }

    /// The current room, to change it.
    pub fn current_room_mut(&mut self) -> (r: &mut Room)
        requires
            old(self).current_room < old(self).world.rooms@.len(),
        ensures
            *r == old(self).world.rooms@[old(self).current_room as int],
            final(self).world.rooms@ == old(self).world.rooms@.update(
                old(self).current_room as int,
                *final(r),
            ),
            final(self).world.items == old(self).world.items,
            final(self).world.enemies == old(self).world.enemies,
            final(self).world.npcs == old(self).world.npcs,
            final(self).world.quests == old(self).world.quests,
            final(self).player == old(self).player,
            final(self).current_room == old(self).current_room,
            final(self).quests == old(self).quests,
            final(self).running == old(self).running,
            final(self).session == old(self).session,
    {
        let i = self.current_room;
        &mut self.world.rooms[i]
    }

    /// Ends the session with the named ending; a choice that names none
    /// changes nothing.
    pub fn finalize_ending(&mut self, choice: &str) -> (r: Option<Ending>)
        ensures
            r == ending_named(choice@),
            final(self).running == (old(self).running && r is None),
            final(self).world == old(self).world,
            final(self).player == old(self).player,
            final(self).current_room == old(self).current_room,
            final(self).quests == old(self).quests,
            final(self).session == old(self).session,
    {
        let r = Ending::from_choice(choice);
        if r.is_some() {
            self.running = false;
        }
        r
    }

    /// Whether the final terminal offers the override ending (the player
    /// holds the compressed sudo token).
    pub fn offers_override(&self) -> (r: bool)
        ensures
            r == self.player.inv_ids().contains("compressed_sudo_token"@),
    {
        self.player.has_item("compressed_sudo_token")
    }

    /// The final terminal, once an ending is chosen: the session ends with
    /// it, and the terminal counts as used for the quests.
    pub fn trigger_final_terminal(&mut self, ending: Ending) -> (progress: Vec<QuestProgress>)
        requires
            old(self).event_fits(QuestAction::UseTerminal, "core_terminal_input"@),
        ensures
            !final(self).running,
            final(self).world == old(self).world,
            final(self).current_room == old(self).current_room,
            final(self).session == old(self).session,
            quest_event(
                *old(self),
                *final(self),
                QuestAction::UseTerminal,
                "core_terminal_input"@,
                progress@,
            ),
    {
        proof {
            reveal_strlit("accept");
            reveal_strlit("purge");
            reveal_strlit("loop");
            reveal_strlit("override");
            assert("accept"@.len() == 6);
            assert("purge"@.len() == 5);
            assert("loop"@.len() == 4);
            assert("override"@.len() == 8);
        }
        let r = self.finalize_ending(ending.name());
        assert(r == Some(ending));
        self.quest_event(QuestAction::UseTerminal, "core_terminal_input")
    }

    /// Runs a quest event against the quests taken on.
    pub fn quest_event(&mut self, action: QuestAction, target: &str) -> (progress: Vec<
        QuestProgress,
    >)
        requires
            old(self).event_fits(action, target@),
        ensures
            quest_event(*old(self), *final(self), action, target@, progress@),
            final(self).same_world(*old(self)),
    {
        handle_event(action, target, &mut self.quests, &mut self.player)
    }

    /// The battle with the enemy defined at position `enemy` is over: a win
    /// scores the enemy's points and counts as defeating it for the quests.
    pub fn conclude_battle(&mut self, enemy: usize, won: bool) -> (progress: Vec<QuestProgress>)
        requires
            enemy < old(self).world.enemies@.len(),
            won ==> old(self).battle_fits(enemy as int),
        ensures
            final(self).same_world(*old(self)),
            won ==> {
                let e = old(self).world.enemies@[enemy as int];
                let mid = Game {
                    player: Player { points: (old(self).player.points + e.points) as u32, ..old(self).player },
                    ..*old(self)
                };
                quest_event(mid, *final(self), QuestAction::DefeatEnemy, e.id@, progress@)
            },
            !won ==> *final(self) == *old(self) && progress@.len() == 0,
    {
        if won {
            let pts = self.world.enemies[enemy].points;
            self.player.add_points(pts);
            let ghost mid = *self;
            let id = self.world.enemies[enemy].id.clone();
            let progress = self.quest_event(QuestAction::DefeatEnemy, id.as_str());
            assert(mid.player == Player { points: (old(self).player.points + pts) as u32, ..old(self).player });
            progress
        } else {
            Vec::new()
        }
    }
}

/// The quests and the player of `new` are those of `old` after the event,
/// which `progress` reports.
pub open spec fn quest_event(
    old: Game,
    new: Game,
    action: QuestAction,
    target: Seq<char>,
    progress: Seq<QuestProgress>,
) -> bool {
    &&& event_applied(new.quests@, old.quests@, action, target)
    &&& reports(progress, old.quests@, action, target)
    &&& new.player.points == old.player.points + crate::quest::points_completing(
        old.quests@,
        action,
        target,
    )
    &&& new.player.quests_completed == old.player.quests_completed
        + crate::quest::count_completing(old.quests@, action, target)
    &&& new.player.hp == old.player.hp
    &&& new.player.same_traits(old.player)
    &&& new.player.inventory == old.player.inventory
    &&& new.player.status == old.player.status
}

/// Whether `v + m` (with `m` taken away when not `up`) stays within `i32`.
fn fits(v: i32, m: Option<i32>, up: bool) -> (r: bool)
    ensures
        r == (i32::MIN <= v + (if up {
            crate::structs::modifier(m)
        } else {
            -crate::structs::modifier(m)
        }) <= i32::MAX),
{
    let d: i64 = match m {
        Some(x) => x as i64,
        None => 0,
    };
    let t: i64 = if up {
        v as i64 + d
    } else {
        v as i64 - d
    };
    i32::MIN as i64 <= t && t <= i32::MAX as i64
}

impl Game {
    /// Whether the player's traits can take the modifiers `e`.
    pub fn mods_fit(&self, e: &Effects) -> (r: bool)
        ensures
            r == self.player.fits_mods(*e, true),
    {
        let p = &self.player;
        fits(p.intelligence, e.intelligence, true) && fits(p.persistence, e.persistence, true)
            && fits(p.agility, e.agility, true) && fits(p.charisma, e.charisma, true) && fits(
            p.luck,
            e.luck,
            true,
        ) && fits(p.wisdom, e.wisdom, true) && fits(p.strength, e.strength, true)
    }

    /// Whether the current room exists.
    pub fn check_wf(&self) -> (r: bool)
        ensures
            r == self.wf(),
    {
        self.current_room < self.world.rooms.len()
    }

    /// Whether the score and the completed quest count can take what the
    /// event awards.
    pub fn check_event_fits(&self, action: QuestAction, target: &str) -> (r: bool)
        ensures
            r == self.event_fits(action, target@),
    {
        let (pts, count) = event_awards(&self.quests, action, target);
        self.player.points as u64 + pts <= u32::MAX as u64 && count as u64 <= u32::MAX as u64
            && (self.player.quests_completed as u64) + (count as u64) <= u32::MAX as u64
    }

    /// Whether a won fight with the enemy defined at `enemy` can be scored.
    pub fn check_battle_award(&self, enemy: usize) -> (r: bool)
        ensures
            r == (enemy < self.world.enemies@.len() && self.battle_fits(enemy as int)),
    {
        if enemy >= self.world.enemies.len() {
            return false;
        }
        let e = &self.world.enemies[enemy];
        let (pts, count) = event_awards(&self.quests, QuestAction::DefeatEnemy, e.id.as_str());
        self.player.points as u64 + e.points as u64 + pts <= u32::MAX as u64 && count as u64
            <= u32::MAX as u64 && (self.player.quests_completed as u64) + (count as u64)
            <= u32::MAX as u64
    }
}

} // verus!
