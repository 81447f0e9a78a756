//! The command language of the game: reading a line into a command, and
//! what a command does to the session.
use crate::actions::{
    check_examine, check_go, check_scan, check_take, check_talk, examine_fits, go_fits,
    scan_fits, take_fits, talk_fits, attack, attack_post, examine, examine_post, go, go_post, hidden_command, hidden_named, inspect,
    inspect_shows, look, look_shows, scan, scan_post, take, take_post, talk, talk_post,
    use_command, use_post, AttackOutcome, ExamineOutcome, GateView, GoOutcome, Hidden, LookView,
    ScanEntry, TakeOutcome, TalkOutcome, UseResult,
};
use crate::game::Game;
use crate::player::{listing_of, InventoryLine};
use crate::player::{clamp_i32, saturating_sub_i32};
use crate::structs::{find_by_id, find_id, find_room, is_first_room, Enemy, IdRef, Npc, Room, World};
use crate::text::{
    contains_str, has_substring, join_space, join_words, lowercase, split_words, str_eq,
    to_lowercase, words,
};
use vstd::string::StringExecFns;
use vstd::prelude::*;

verus! {

/// A command typed at the prompt.
#[derive(Debug)]
pub enum Command {
    Look,
    Go(String),
    Inspect(String),
    Take(String),
    Examine(String),
    Scan,
    Talk(String),
    Attack(String),
    Use(String),
    Inventory,
    Status,
    Quests,
    Help,
    Unknown(String),
}

/// The spec form of a command.
pub enum CommandView {
    Look,
    Go(Seq<char>),
    Inspect(Seq<char>),
    Take(Seq<char>),
    Examine(Seq<char>),
    Scan,
    Talk(Seq<char>),
    Attack(Seq<char>),
    Use(Seq<char>),
    Inventory,
    Status,
    Quests,
    Help,
    Unknown(Seq<char>),
}

impl View for Command {
    type V = CommandView;

    open spec fn view(&self) -> CommandView {
        match self {
            Command::Look => CommandView::Look,
            Command::Go(s) => CommandView::Go(s@),
            Command::Inspect(s) => CommandView::Inspect(s@),
            Command::Take(s) => CommandView::Take(s@),
            Command::Examine(s) => CommandView::Examine(s@),
            Command::Scan => CommandView::Scan,
            Command::Talk(s) => CommandView::Talk(s@),
            Command::Attack(s) => CommandView::Attack(s@),
            Command::Use(s) => CommandView::Use(s@),
            Command::Inventory => CommandView::Inventory,
            Command::Status => CommandView::Status,
            Command::Quests => CommandView::Quests,
            Command::Help => CommandView::Help,
            Command::Unknown(s) => CommandView::Unknown(s@),
        }
    }
}

/// The command a line reads as. The line is split into words at whitespace;
/// the first word, in lower case, picks the command. `go` takes the second
/// word, the other commands with an argument take the remaining words
/// joined by single spaces; a keyword missing its argument, or no keyword,
/// reads as unknown, carrying all the words joined by single spaces.
pub open spec fn parse_words(w: Seq<Seq<char>>) -> CommandView {
    if w.len() == 0 {
        CommandView::Unknown(Seq::empty())
    } else {
        let k = lowercase(w[0]);
        let rest = join_space(w.skip(1));
        if k == "look"@ {
            CommandView::Look
        } else if k == "go"@ && w.len() > 1 {
            CommandView::Go(w[1])
        } else if k == "inspect"@ && w.len() > 1 {
            CommandView::Inspect(rest)
        } else if k == "take"@ && w.len() > 1 {
            CommandView::Take(rest)
        } else if k == "examine"@ && w.len() > 1 {
            CommandView::Examine(rest)
        } else if k == "talk"@ && w.len() > 1 {
            CommandView::Talk(rest)
        } else if k == "attack"@ && w.len() > 1 {
            CommandView::Attack(rest)
        } else if k == "use"@ && w.len() > 1 {
            CommandView::Use(rest)
        } else if k == "inventory"@ {
            CommandView::Inventory
        } else if k == "status"@ {
            CommandView::Status
        } else if k == "quests"@ {
            CommandView::Quests
        } else if k == "help"@ {
            CommandView::Help
        } else if k == "scan"@ {
            CommandView::Scan
        } else {
            CommandView::Unknown(join_space(w))
        }
    }
}

impl Command {
    /// Reads a line as a command.
    pub fn parse(input: &str) -> (c: Self)
        ensures
            c@ == parse_words(words(input@)),
    {
        let ws = split_words(input);
        let ghost w = ws@.map_values(|s: String| s@);
        if ws.len() == 0 {
            return Command::Unknown(String::new());
        }
        assert(w.skip(0) =~= w);
        let first = to_lowercase(ws[0].as_str());
        let k = first.as_str();
        let more = ws.len() > 1;
        if str_eq(k, "look") {
            Command::Look
        } else if str_eq(k, "go") && more {
            Command::Go(ws[1].clone())
        } else if str_eq(k, "inspect") && more {
            Command::Inspect(join_words(&ws, 1))
        } else if str_eq(k, "take") && more {
            Command::Take(join_words(&ws, 1))
        } else if str_eq(k, "examine") && more {
            Command::Examine(join_words(&ws, 1))
        } else if str_eq(k, "talk") && more {
            Command::Talk(join_words(&ws, 1))
        } else if str_eq(k, "attack") && more {
            Command::Attack(join_words(&ws, 1))
        } else if str_eq(k, "use") && more {
            Command::Use(join_words(&ws, 1))
        } else if str_eq(k, "inventory") {
            Command::Inventory
        } else if str_eq(k, "status") {
            Command::Status
        } else if str_eq(k, "quests") {
            Command::Quests
        } else if str_eq(k, "help") {
            Command::Help
        } else if str_eq(k, "scan") {
            Command::Scan
        } else {
            Command::Unknown(join_words(&ws, 0))
        }
    }
}

/// Things with an identifier and a name.
pub trait Named {
    spec fn id_of(&self) -> Seq<char>;

    spec fn name_of(&self) -> Seq<char>;

    fn id_ref(&self) -> (r: &str)
        ensures
            r@ == self.id_of(),
    ;

    fn name_ref(&self) -> (r: &str)
        ensures
            r@ == self.name_of(),
    ;
}

impl<'a> Named for &'a Npc {
    open spec fn id_of(&self) -> Seq<char> {
        self.id@
    }

    open spec fn name_of(&self) -> Seq<char> {
        self.name@
    }

    fn id_ref(&self) -> (r: &str) {
        self.id.as_str()
    }

    fn name_ref(&self) -> (r: &str) {
        self.name.as_str()
    }
}

/// A query matches an identifier and name when, all in lower case, it
/// equals either or occurs in either.
pub open spec fn query_matches(id: Seq<char>, name: Seq<char>, query: Seq<char>) -> bool {
    let i = lowercase(id);
    let n = lowercase(name);
    let q = lowercase(query);
    i == q || n == q || has_substring(i, q) || has_substring(n, q)
}

/// The first of `objects` whose identifier or name matches `query`.
pub fn match_id_or_name<T: Named>(query: &str, objects: &[T]) -> (r: Option<usize>)
    ensures
        match r {
            Some(k) => {
                &&& k < objects@.len()
                &&& query_matches(objects@[k as int].id_of(), objects@[k as int].name_of(), query@)
                &&& forall|j: int|
                    0 <= j < k ==> !query_matches(
                        #[trigger] objects@[j].id_of(),
                        objects@[j].name_of(),
                        query@,
                    )
            },
            None => forall|j: int|
                0 <= j < objects@.len() ==> !query_matches(
                    #[trigger] objects@[j].id_of(),
                    objects@[j].name_of(),
                    query@,
                ),
        },
{
    let q = to_lowercase(query);
    let mut i: usize = 0;
    while i < objects.len()
        invariant
            q@ == lowercase(query@),
            i <= objects@.len(),
            forall|j: int|
                0 <= j < i ==> !query_matches(
                    #[trigger] objects@[j].id_of(),
                    objects@[j].name_of(),
                    query@,
                ),
        decreases objects@.len() - i,
    {
        let id = to_lowercase(objects[i].id_ref());
        let name = to_lowercase(objects[i].name_ref());
        if str_eq(id.as_str(), q.as_str()) || str_eq(name.as_str(), q.as_str()) || contains_str(
            id.as_str(),
            q.as_str(),
        ) || contains_str(name.as_str(), q.as_str()) {
            return Some(i);
        }
        i = i + 1;
    }
    None
}

/// What a lore trigger effect did.
#[derive(Debug, Clone, Copy, PartialEq, Eq, Structural)]
pub enum TriggerOutcome {
    /// A syslog wraith was added to the room with identifier 1 (`spawned`),
    /// or was not because that room has one already or does not exist.
    SpawnWraith { spawned: bool },
    /// The overheating server lost 8 hit points (`weakened`), or does not exist.
    WeakenServer { weakened: bool },
    DevOverride,
    Corruption,
    AlternateEnding,
    Unknown,
}

/// The identifiers a list of references holds, in order.
pub open spec fn ref_ids(refs: Seq<IdRef>) -> Seq<Seq<char>> {
    refs.map_values(|r: IdRef| r.id@)
}

/// `new` is `old` with one more enemy reference, `id`, at the end.
pub open spec fn enemy_added(new: Room, old: Room, id: Seq<char>) -> bool {
    &&& ref_ids(new.enemies@) == ref_ids(old.enemies@).push(id)
    &&& new.id == old.id
    &&& new.name == old.name
    &&& new.description == old.description
    &&& new.points == old.points
    &&& new.exits == old.exits
    &&& new.items == old.items
    &&& new.npcs == old.npcs
    &&& new.lore == old.lore
    &&& new.role == old.role
}

/// What a trigger effect does to the world, and what it reports.
pub open spec fn trigger_post(old: World, new: World, effect: Seq<char>, r: TriggerOutcome) -> bool {
    if effect == "spawn_syslog_wraith"@ {
        &&& r is SpawnWraith
        &&& new.items == old.items
        &&& new.enemies == old.enemies
        &&& new.npcs == old.npcs
        &&& new.quests == old.quests
        &&& if exists|k: int| is_first_room(old.rooms@, 1, k) {
            let k = choose|k: int| is_first_room(old.rooms@, 1, k);
            let present = ref_ids(old.rooms@[k].enemies@).contains("syslog_wraith"@);
            &&& r->spawned == !present
            &&& present ==> new.rooms == old.rooms
            &&& !present ==> {
                &&& new.rooms@.len() == old.rooms@.len()
                &&& forall|i: int|
                    0 <= i < old.rooms@.len() && i != k ==> #[trigger] new.rooms@[i]
                        == old.rooms@[i]
                &&& enemy_added(new.rooms@[k], old.rooms@[k], "syslog_wraith"@)
            }
        } else {
            &&& !r->spawned
            &&& new.rooms == old.rooms
        }
    } else if effect == "weaken_overheating_server"@ {
        &&& r is WeakenServer
        &&& new.rooms == old.rooms
        &&& new.items == old.items
        &&& new.npcs == old.npcs
        &&& new.quests == old.quests
        &&& match find_id(old.enemies@, "overheating_server"@) {
            Some(k) => {
                let e = old.enemies@[k];
                &&& r->weakened
                &&& new.enemies@ == old.enemies@.update(
                    k,
                    Enemy { hp: clamp_i32(e.hp - 8) as i32, ..e },
                )
            },
            None => !r->weakened && new.enemies == old.enemies,
        }
    } else {
        &&& new == old
        &&& r == if effect == "unlock_dev_override"@ {
            TriggerOutcome::DevOverride
        } else if effect == "mark_player_corruption"@ {
            TriggerOutcome::Corruption
        } else if effect == "unlock_alternate_decision"@ {
            TriggerOutcome::AlternateEnding
        } else {
            TriggerOutcome::Unknown
        }
    }
}

/// Whether some reference in `refs` has identifier `id`.
fn has_ref(refs: &Vec<IdRef>, id: &str) -> (r: bool)
    ensures
        r == ref_ids(refs@).contains(id@),
{
    let mut i: usize = 0;
    while i < refs.len()
        invariant
            i <= refs@.len(),
            forall|j: int| 0 <= j < i ==> refs@[j].id@ != id@,
        decreases refs@.len() - i,
    {
        if str_eq(refs[i].id.as_str(), id) {
            assert(ref_ids(refs@)[i as int] == id@);
            return true;
        }
        i = i + 1;
    }
    proof {
        if ref_ids(refs@).contains(id@) {
            let j = choose|j: int| 0 <= j < ref_ids(refs@).len() && ref_ids(refs@)[j] == id@;
            assert(refs@[j].id@ == id@);
        }
    }
    false
}

/// Sets off the effect a piece of lore carries.
pub fn handle_trigger_effect(effect: &str, game: &mut Game) -> (r: TriggerOutcome)
    ensures
        trigger_post(old(game).world, final(game).world, effect@, r),
        final(game).player == old(game).player,
        final(game).current_room == old(game).current_room,
        final(game).quests == old(game).quests,
        final(game).running == old(game).running,
        final(game).session == old(game).session,
{
    if str_eq(effect, "spawn_syslog_wraith") {
        match find_room(&game.world.rooms, 1) {
            Some(k) => {
                if has_ref(&game.world.rooms[k].enemies, "syslog_wraith") {
                    TriggerOutcome::SpawnWraith { spawned: false }
                } else {
                    let ghost r0 = game.world.rooms@;
                    let ghost ids0 = ref_ids(r0[k as int].enemies@);
                    let id = String::from_str("syslog_wraith");
                    game.world.rooms[k].enemies.push(IdRef { id });
                    assert(ref_ids(game.world.rooms@[k as int].enemies@) =~= ids0.push(
                        "syslog_wraith"@,
                    ));
                    TriggerOutcome::SpawnWraith { spawned: true }
                }
            },
            None => TriggerOutcome::SpawnWraith { spawned: false },
        }
    } else if str_eq(effect, "weaken_overheating_server") {
        match find_by_id(&game.world.enemies, "overheating_server") {
            Some(k) => {
                let hp = game.world.enemies[k].hp;
                game.world.enemies[k].hp = saturating_sub_i32(hp, 8);
                TriggerOutcome::WeakenServer { weakened: true }
            },
            None => TriggerOutcome::WeakenServer { weakened: false },
        }
    } else if str_eq(effect, "unlock_dev_override") {
        TriggerOutcome::DevOverride
    } else if str_eq(effect, "mark_player_corruption") {
        TriggerOutcome::Corruption
    } else if str_eq(effect, "unlock_alternate_decision") {
        TriggerOutcome::AlternateEnding
    } else {
        TriggerOutcome::Unknown
    }
}

/// A trigger effect keeps every room's exits and lore, and the number of rooms.
pub proof fn lemma_trigger_keeps_layout(old: World, new: World, effect: Seq<char>, r: TriggerOutcome)
    requires
        trigger_post(old, new, effect, r),
    ensures
        new.rooms@.len() == old.rooms@.len(),
        forall|i: int|
            0 <= i < old.rooms@.len() ==> (#[trigger] new.rooms@[i]).exits == old.rooms@[i].exits
                && new.rooms@[i].lore == old.rooms@[i].lore,
{
    if effect == "spawn_syslog_wraith"@ {
        if exists|k: int| is_first_room(old.rooms@, 1, k) {
            let k = choose|k: int| is_first_room(old.rooms@, 1, k);
            assert forall|i: int| 0 <= i < old.rooms@.len() implies (#[trigger] new.rooms@[i]).exits
                == old.rooms@[i].exits && new.rooms@[i].lore == old.rooms@[i].lore by {
                if i != k {
                }
            }
        }
    }
}

/// What a command did, for the interface to show.
#[derive(Debug)]
pub enum Response {
    Look(LookView),
    Go(GoOutcome),
    Inspect(Option<GateView>),
    Take(TakeOutcome),
    Examine(ExamineOutcome),
    Scan(Vec<ScanEntry>),
    Inventory(Vec<InventoryLine>),
    Status,
    Quests,
    Talk(TalkOutcome),
    /// A fight begins when the outcome says so; the interface runs it and
    /// reports the result with `Game::conclude_battle`.
    Attack(AttackOutcome),
    /// The final terminal opens when the result says so; the interface asks
    /// for the ending and passes it to `Game::trigger_final_terminal`.
    Use(UseResult),
    Help,
    Unknown(Hidden),
}

/// What command `c` does to the session, from `old` to `new`, answering `r`.
pub open spec fn handle_post(old: Game, new: Game, c: CommandView, r: Response) -> bool {
    match c {
        CommandView::Look => r matches Response::Look(v) && look_shows(old, v) && new == old,
        CommandView::Go(d) => r matches Response::Go(o) && go_post(old, new, d, o),
        CommandView::Inspect(d) => r matches Response::Inspect(o) && inspect_shows(old, d, o)
            && new == old,
        CommandView::Take(id) => r matches Response::Take(o) && take_post(old, new, id, o),
        CommandView::Examine(t) => r matches Response::Examine(o) && examine_post(old, new, t, o),
        CommandView::Scan => r matches Response::Scan(es) && scan_post(old, new, es@),
        CommandView::Inventory => r matches Response::Inventory(lines) && listing_of(
            old.player,
            old.world.items@,
            lines@,
        ) && new == old,
        CommandView::Status => r is Status && new == old,
        CommandView::Quests => r is Quests && new == old,
        CommandView::Talk(q) => r matches Response::Talk(o) && talk_post(old, new, q, o),
        CommandView::Attack(id) => r matches Response::Attack(o) && attack_post(old, new, id, o),
        CommandView::Use(n) => r matches Response::Use(o) && use_post(old, new, n, o),
        CommandView::Help => r is Help && new == old,
        CommandView::Unknown(cmd) => r == Response::Unknown(hidden_named(cmd)) && new == old,
    }
}

/// What command `c` adds to `g` fits: the score, the completed quest count
/// and the traits can take it, and a room entered exists.
pub open spec fn command_fits(c: CommandView, g: Game) -> bool {
    match c {
        CommandView::Go(d) => go_fits(g, d),
        CommandView::Take(id) => take_fits(g, id),
        CommandView::Talk(q) => talk_fits(g, q),
        CommandView::Examine(t) => examine_fits(g, t),
        CommandView::Scan => scan_fits(g),
        _ => true,
    }
}

impl Command {
    /// Whether the command can be carried out on `game`: the current room
    /// exists and what the command adds fits.
    pub fn fits(&self, game: &Game) -> (r: bool)
        ensures
            r == (game.wf() && command_fits(self@, *game)),
    {
        if !game.check_wf() {
            return false;
        }
        match self {
            Command::Go(d) => check_go(game, d.as_str()),
            Command::Take(id) => check_take(game, id.as_str()),
            Command::Talk(q) => check_talk(game, q.as_str()),
            Command::Examine(t) => check_examine(game, t.as_str()),
            Command::Scan => check_scan(game),
            _ => true,
        }
    }

    /// Carries out the command when it can be: `None`, with the session
    /// unchanged, when the current room does not exist or what the command
    /// adds does not fit.
    pub fn run(&self, game: &mut Game) -> (r: Option<Response>)
        ensures
            r is None <==> !(old(game).wf() && command_fits(self@, *old(game))),
            r is None ==> *final(game) == *old(game),
            r matches Some(resp) ==> handle_post(*old(game), *final(game), self@, resp),
    {
        if self.fits(game) {
            Some(self.handle(game))
        } else {
            None
        }
    }

    /// Carries out the command.
    pub fn handle(&self, game: &mut Game) -> (r: Response)
        requires
            old(game).wf(),
            command_fits(self@, *old(game)),
        ensures
            handle_post(*old(game), *final(game), self@, r),
            final(game).wf(),
    {
        match self {
            Command::Look => Response::Look(look(game)),
            Command::Go(d) => Response::Go(go(game, d.as_str())),
            Command::Inspect(d) => Response::Inspect(inspect(game, d.as_str())),
            Command::Take(id) => Response::Take(take(game, id.as_str())),
            Command::Examine(t) => Response::Examine(examine(game, t.as_str())),
            Command::Scan => Response::Scan(scan(game)),
            Command::Inventory => Response::Inventory(game.player.list_inventory(&game.world)),
            Command::Status => Response::Status,
            Command::Quests => Response::Quests,
            Command::Talk(q) => Response::Talk(talk(game, q.as_str())),
            Command::Attack(id) => Response::Attack(attack(game, id.as_str())),
            Command::Use(n) => Response::Use(use_command(game, n.as_str())),
            Command::Help => Response::Help,
            Command::Unknown(cmd) => Response::Unknown(hidden_command(cmd.as_str())),
        }
    }
}

} // verus!
