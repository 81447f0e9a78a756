//! The queries behind the commands that only read the session: what a room
//! shows, where its exits lead, and the state of its gates.
use crate::commands::{handle_trigger_effect, match_id_or_name, Named, query_matches, trigger_post, TriggerOutcome};
use crate::game::{quest_event, Game};
use crate::player::{effects_of, use_item_post, UseOutcome};
use crate::quest::{
    all_same, completes_now, count_completing, event_applied, event_awards, event_like,
    handle_event, lemma_applied_like, lemma_awards_same, lemma_event_like, lemma_reads_fit_same,
    points_completing, reads_fit, reports, QuestProgress,
};
use crate::text::{contains_lowercase, has_substring};
use crate::structs::{
    find_by_id, find_id, find_room, is_first_room, Exit, IdRef, Identified,
    Item, LoreObject, Npc, Quest, QuestAction, Room,
};
use crate::text::{eq_ignore_ascii, eq_ignore_ascii_case, eq_lowercase, lowercase, str_eq};
use vstd::prelude::*;
use vstd::string::StrSliceExecFns;

verus! {

/// For each reference in order, the position of the first definition with
/// its identifier; references without a definition are skipped.
pub open spec fn resolved<T: Identified>(refs: Seq<IdRef>, defs: Seq<T>) -> Seq<usize>
    decreases refs.len(),
{
    if refs.len() == 0 {
        Seq::empty()
    } else {
        resolved(refs.drop_last(), defs) + match find_id(defs, refs.last().id@) {
            Some(k) => seq![k as usize],
            None => Seq::empty(),
        }
    }
}

/// The definitions the references resolve to.
pub fn resolve_refs<T: Identified>(refs: &Vec<IdRef>, defs: &Vec<T>) -> (r: Vec<usize>)
    ensures
        r@ == resolved(refs@, defs@),
        forall|i: int| 0 <= i < r@.len() ==> #[trigger] r@[i] < defs@.len(),
{
    let mut r: Vec<usize> = Vec::new();
    let mut i: usize = 0;
    while i < refs.len()
        invariant
            i <= refs@.len(),
            r@ == resolved(refs@.take(i as int), defs@),
            forall|j: int| 0 <= j < r@.len() ==> #[trigger] r@[j] < defs@.len(),
        decreases refs@.len() - i,
    {
        assert(refs@.take(i + 1).drop_last() =~= refs@.take(i as int));
        assert(refs@.take(i + 1).last() == refs@[i as int]);
        match find_by_id(defs, refs[i].id.as_str()) {
            Some(k) => {
                let ghost before = r@;
                r.push(k);
                assert(r@ =~= before + seq![k]);
            },
            None => {
                assert(r@ =~= r@ + Seq::<usize>::empty());
            },
        }
        i = i + 1;
    }
    assert(refs@.take(refs@.len() as int) =~= refs@);
    r
}

/// For each exit in order, its position and the position of the first room
/// with the exit's destination as identifier; exits to no such room are
/// skipped.
pub open spec fn exits_shown(exits: Seq<Exit>, rooms: Seq<Room>) -> Seq<(usize, usize)>
    decreases exits.len(),
{
    if exits.len() == 0 {
        Seq::empty()
    } else {
        let e = (exits.len() - 1) as usize;
        exits_shown(exits.drop_last(), rooms) + if exists|k: int|
            is_first_room(rooms, exits.last().to, k) {
            seq![(e, (choose|k: int| is_first_room(rooms, exits.last().to, k)) as usize)]
        } else {
            Seq::empty()
        }
    }
}

/// The positions of the lore that is not hidden (`hidden == false`) or that
/// is hidden (`hidden == true`), in order.
pub open spec fn lore_where(lore: Seq<LoreObject>, hidden: bool) -> Seq<usize>
    decreases lore.len(),
{
    if lore.len() == 0 {
        Seq::empty()
    } else {
        lore_where(lore.drop_last(), hidden) + if lore.last().hidden == hidden {
            seq![(lore.len() - 1) as usize]
        } else {
            Seq::empty()
        }
    }
}

/// The positions of the lore with the given `hidden` flag.
pub fn lore_positions(lore: &Vec<LoreObject>, hidden: bool) -> (r: Vec<usize>)
    ensures
        r@ == lore_where(lore@, hidden),
        forall|i: int| 0 <= i < r@.len() ==> #[trigger] r@[i] < lore@.len(),
{
    let mut r: Vec<usize> = Vec::new();
    let mut i: usize = 0;
    while i < lore.len()
        invariant
            i <= lore@.len(),
            r@ == lore_where(lore@.take(i as int), hidden),
            forall|j: int| 0 <= j < r@.len() ==> #[trigger] r@[j] < i,
        decreases lore@.len() - i,
    {
        assert(lore@.take(i + 1).drop_last() =~= lore@.take(i as int));
        assert(lore@.take(i + 1).last() == lore@[i as int]);
        if lore[i].hidden == hidden {
            let ghost before = r@;
            r.push(i);
            assert(r@ =~= before + seq![i]);
        } else {
            assert(r@ =~= r@ + Seq::<usize>::empty());
        }
        i = i + 1;
    }
    assert(lore@.take(lore@.len() as int) =~= lore@);
    r
}

/// What `look` shows of the current room: the positions of the world items,
/// enemies and NPCs its references resolve to, its exits with the rooms
/// they lead to, and its visible lore.
#[derive(Debug)]
pub struct LookView {
    pub room: usize,
    pub items: Vec<usize>,
    pub enemies: Vec<usize>,
    pub npcs: Vec<usize>,
    pub exits: Vec<(usize, usize)>,
    pub lore: Vec<usize>,
}

/// `v` is what `look` shows in session `g`.
pub open spec fn look_shows(g: Game, v: LookView) -> bool {
    let room = g.world.rooms@[g.current_room as int];
    &&& v.room == g.current_room
    &&& v.items@ == resolved(room.items@, g.world.items@)
    &&& v.enemies@ == resolved(room.enemies@, g.world.enemies@)
    &&& v.npcs@ == resolved(room.npcs@, g.world.npcs@)
    &&& v.exits@ == exits_shown(room.exits@, g.world.rooms@)
    &&& v.lore@ == lore_where(room.lore@, false)
}

/// What `look` shows of the current room.
pub fn look(game: &Game) -> (v: LookView)
    requires
        game.current_room < game.world.rooms@.len(),
    ensures
        look_shows(*game, v),
{
    let room = game.current_room();
    let items = resolve_refs(&room.items, &game.world.items);
    let enemies = resolve_refs(&room.enemies, &game.world.enemies);
    let npcs = resolve_refs(&room.npcs, &game.world.npcs);
    let lore = lore_positions(&room.lore, false);
    let mut exits: Vec<(usize, usize)> = Vec::new();
    let mut i: usize = 0;
    while i < room.exits.len()
        invariant
            *room == game.world.rooms@[game.current_room as int],
            i <= room.exits@.len(),
            exits@ == exits_shown(room.exits@.take(i as int), game.world.rooms@),
        decreases room.exits@.len() - i,
    {
        let ghost ex = room.exits@.take(i + 1);
        assert(ex.drop_last() =~= room.exits@.take(i as int));
        assert(ex.last() == room.exits@[i as int]);
        match find_room(&game.world.rooms, room.exits[i].to) {
            Some(k) => {
                proof {
                    let c = choose|c: int| is_first_room(game.world.rooms@, ex.last().to, c);
                    assert(c == k as int) by {
                        if c < k {
                            assert(game.world.rooms@[c].id != ex.last().to);
                        }
                        if k < c {
                            assert(game.world.rooms@[k as int].id != ex.last().to);
                        }
                    }
                }
                let ghost before = exits@;
                exits.push((i, k));
                assert(exits@ =~= before + seq![(i, k)]);
            },
            None => {
                assert(exits@ =~= exits@ + Seq::<(usize, usize)>::empty());
            },
        }
        i = i + 1;
    }
    assert(room.exits@.take(room.exits@.len() as int) =~= room.exits@);
    LookView { room: game.current_room, items, enemies, npcs, exits, lore }
}

/// The first exit whose direction has the same lower-case form as `dir`.
pub open spec fn is_first_exit_lower(exits: Seq<Exit>, dir: Seq<char>, k: int) -> bool {
    &&& 0 <= k < exits.len()
    &&& lowercase(exits[k].direction@) == lowercase(dir)
    &&& forall|j: int| 0 <= j < k ==> lowercase(#[trigger] exits[j].direction@) != lowercase(dir)
}

/// The first exit whose direction equals `dir` up to ASCII case.
pub open spec fn is_first_exit_ascii(exits: Seq<Exit>, dir: Seq<char>, k: int) -> bool {
    &&& 0 <= k < exits.len()
    &&& eq_ignore_ascii(exits[k].direction@, dir)
    &&& forall|j: int| 0 <= j < k ==> !eq_ignore_ascii(#[trigger] exits[j].direction@, dir)
}

/// Quest `q` has a completed step with identifier `sid`.
pub open spec fn has_done_step(q: Quest, sid: Seq<char>) -> bool {
    exists|j: int| 0 <= j < q.steps@.len() && #[trigger] q.steps@[j].id@ == sid && q.steps@[j].completed
}

/// Some quest taken on with identifier `qid` has a completed step with
/// identifier `sid`.
pub open spec fn step_done(quests: Seq<Quest>, qid: Seq<char>, sid: Seq<char>) -> bool {
    exists|i: int| 0 <= i < quests.len() && #[trigger] quests[i].id@ == qid && has_done_step(quests[i], sid)
}

/// An exit is closed to `g`'s player: it is locked, and the player lacks
/// the item it requires, or the quest step it requires is not done.
pub open spec fn exit_locked(g: Game, e: Exit) -> bool {
    &&& e.locked == Some(true)
    &&& {
        ||| (e.required_item_id matches Some(id) && !g.player.inv_ids().contains(id@))
        ||| (e.required_quest_id matches Some(q) && e.required_step matches Some(s)
            && !step_done(g.quests@, q@, s@))
    }
}

/// Whether quest `q` has a completed step with identifier `sid`.
fn quest_has_done_step(q: &Quest, sid: &str) -> (r: bool)
    ensures
        r == has_done_step(*q, sid@),
{
    let mut j: usize = 0;
    while j < q.steps.len()
        invariant
            j <= q.steps@.len(),
            forall|b: int| 0 <= b < j ==> !(#[trigger] q.steps@[b].id@ == sid@ && q.steps@[b].completed),
        decreases q.steps@.len() - j,
    {
        if str_eq(q.steps[j].id.as_str(), sid) && q.steps[j].completed {
            return true;
        }
        j = j + 1;
    }
    false
}

/// Whether the required quest step is done.
pub fn quest_step_done(quests: &Vec<Quest>, qid: &str, sid: &str) -> (r: bool)
    ensures
        r == step_done(quests@, qid@, sid@),
{
    let mut i: usize = 0;
    while i < quests.len()
        invariant
            i <= quests@.len(),
            forall|a: int| 0 <= a < i ==> !(#[trigger] quests@[a].id@ == qid@ && has_done_step(quests@[a], sid@)),
        decreases quests@.len() - i,
    {
        if str_eq(quests[i].id.as_str(), qid) && quest_has_done_step(&quests[i], sid) {
            return true;
        }
        i = i + 1;
    }
    false
}

/// Whether the exit is closed to the player.
pub fn is_exit_locked(game: &Game, e: &Exit) -> (r: bool)
    ensures
        r == exit_locked(*game, *e),
{
    let locked = match e.locked {
        Some(b) => b,
        None => false,
    };
    if !locked {
        return false;
    }
    let mut closed = false;
    if let Some(id) = &e.required_item_id {
        if !game.player.has_item(id.as_str()) {
            closed = true;
        }
    }
    if let (Some(q), Some(st)) = (&e.required_quest_id, &e.required_step) {
        if !quest_step_done(&game.quests, q.as_str(), st.as_str()) {
            closed = true;
        }
    }
    closed
}

/// The first exit whose direction has the same lower-case form as `dir`.
pub fn find_exit_lower(exits: &Vec<Exit>, dir: &str) -> (r: Option<usize>)
    ensures
        r matches Some(k) ==> is_first_exit_lower(exits@, dir@, k as int),
        r is None ==> forall|j: int|
            0 <= j < exits@.len() ==> lowercase(#[trigger] exits@[j].direction@) != lowercase(dir@),
{
    let mut i: usize = 0;
    while i < exits.len()
        invariant
            i <= exits@.len(),
            forall|j: int| 0 <= j < i ==> lowercase(#[trigger] exits@[j].direction@) != lowercase(dir@),
        decreases exits@.len() - i,
    {
        if eq_lowercase(exits[i].direction.as_str(), dir) {
            return Some(i);
        }
        i = i + 1;
    }
    None
}

/// The first exit whose direction equals `dir` up to ASCII case.
pub fn find_exit_ascii(exits: &Vec<Exit>, dir: &str) -> (r: Option<usize>)
    ensures
        r matches Some(k) ==> is_first_exit_ascii(exits@, dir@, k as int),
        r is None ==> forall|j: int|
            0 <= j < exits@.len() ==> !eq_ignore_ascii(#[trigger] exits@[j].direction@, dir@),
{
    let mut i: usize = 0;
    while i < exits.len()
        invariant
            i <= exits@.len(),
            forall|j: int| 0 <= j < i ==> !eq_ignore_ascii(#[trigger] exits@[j].direction@, dir@),
        decreases exits@.len() - i,
    {
        if eq_ignore_ascii_case(exits[i].direction.as_str(), dir) {
            return Some(i);
        }
        i = i + 1;
    }
    None
}

/// What `go` did.
#[derive(Debug, Clone, Copy, PartialEq, Eq, Structural)]
pub enum GoOutcome {
    /// No exit goes that way.
    NoExit,
    /// The exit at this position of the current room is closed.
    Blocked { exit: usize },
    /// The player went through the exit at position `exit` into room `room`.
    Moved { exit: usize, room: usize },
}

/// What `go` in direction `dir` does, from `old` to `new`.
pub open spec fn go_post(old: Game, new: Game, dir: Seq<char>, r: GoOutcome) -> bool {
    let exits = old.world.rooms@[old.current_room as int].exits@;
    match r {
        GoOutcome::NoExit => {
            &&& forall|j: int|
                0 <= j < exits.len() ==> lowercase(#[trigger] exits[j].direction@) != lowercase(dir)
            &&& new == old
        },
        GoOutcome::Blocked { exit } => {
            &&& is_first_exit_lower(exits, dir, exit as int)
            &&& exit_locked(old, exits[exit as int])
            &&& new == old
        },
        GoOutcome::Moved { exit, room } => {
            &&& is_first_exit_lower(exits, dir, exit as int)
            &&& !exit_locked(old, exits[exit as int])
            &&& room == exits[exit as int].to
            &&& room < old.world.rooms@.len()
            &&& new.current_room == room
            &&& new.player.points == old.player.points + old.world.rooms@[room as int].points
            &&& new.player.hp == old.player.hp
            &&& new.player.same_traits(old.player)
            &&& new.player.inventory == old.player.inventory
            &&& new.player.quests_completed == old.player.quests_completed
            &&& new.player.status == old.player.status
            &&& new.world == old.world
            &&& new.quests == old.quests
            &&& new.running == old.running
            &&& new.session == old.session
        },
    }
}

/// What `go` in direction `dir` adds fits: through the first exit that
/// matches, when it is open, the room it leads to exists and the score can
/// take its points.
pub open spec fn go_fits(g: Game, dir: Seq<char>) -> bool {
    let exits = g.world.rooms@[g.current_room as int].exits@;
    forall|k: int|
        #[trigger] is_first_exit_lower(exits, dir, k) && !exit_locked(g, exits[k]) ==> {
            &&& exits[k].to < g.world.rooms@.len()
            &&& g.player.points + g.world.rooms@[exits[k].to as int].points <= u32::MAX
        }
}

/// Whether `go` in direction `dir` can be carried out.
pub fn check_go(game: &Game, dir: &str) -> (r: bool)
    requires
        game.wf(),
    ensures
        r == go_fits(*game, dir@),
{
    let cur = game.current_room;
    match find_exit_lower(&game.world.rooms[cur].exits, dir) {
        None => true,
        Some(k) => {
            if is_exit_locked(game, &game.world.rooms[cur].exits[k]) {
                true
            } else {
                let to = game.world.rooms[cur].exits[k].to;
                to < game.world.rooms.len() && game.player.points as u64
                    + game.world.rooms[to].points as u64 <= u32::MAX as u64
            }
        },
    }
}

/// Moves through the first exit whose direction matches `dir` (in lower
/// case), unless it is closed; entering a room scores its points.
pub fn go(game: &mut Game, dir: &str) -> (r: GoOutcome)
    requires
        old(game).wf(),
        go_fits(*old(game), dir@),
    ensures
        go_post(*old(game), *final(game), dir@, r),
        final(game).wf(),
{
    let cur = game.current_room;
    match find_exit_lower(&game.world.rooms[cur].exits, dir) {
        None => GoOutcome::NoExit,
        Some(k) => {
            if is_exit_locked(game, &game.world.rooms[cur].exits[k]) {
                GoOutcome::Blocked { exit: k }
            } else {
                let to = game.world.rooms[cur].exits[k].to;
                game.current_room = to;
                let pts = game.world.rooms[to].points;
                game.player.add_points(pts);
                GoOutcome::Moved { exit: k, room: to }
            }
        },
    }
}

/// What `inspect` shows of an exit: its position, the item it lacks (the
/// position of its definition, if any) when one is required and not held,
/// whether a required quest step is not done, and the destination room.
#[derive(Debug, Clone, Copy, PartialEq, Eq, Structural)]
pub struct GateView {
    pub exit: usize,
    pub missing_item: Option<Option<usize>>,
    pub step_incomplete: bool,
    pub dest: Option<usize>,
}

/// The player holds an entry whose identifier has the same lower-case form
/// as `id`.
pub open spec fn holds_lower(g: Game, id: Seq<char>) -> bool {
    exists|i: int|
        0 <= i < g.player.inventory@.len() && lowercase(#[trigger] g.player.inventory@[i].id@)
            == lowercase(id)
}

/// `v` is what `inspect` shows of the exit at `v.exit` of the current room.
pub open spec fn gate_shows(g: Game, v: GateView) -> bool {
    let e = g.world.rooms@[g.current_room as int].exits@[v.exit as int];
    &&& v.missing_item == match e.required_item_id {
        Some(id) => if holds_lower(g, id@) {
            None
        } else {
            Some(
                match find_id(g.world.items@, id@) {
                    Some(k) => Some(k as usize),
                    None => None,
                },
            )
        },
        None => None,
    }
    &&& v.step_incomplete == (e.required_quest_id matches Some(q) && e.required_step matches Some(
        s,
    ) && !step_done(g.quests@, q@, s@))
    &&& match v.dest {
        Some(k) => is_first_room(g.world.rooms@, e.to, k as int),
        None => forall|j: int| 0 <= j < g.world.rooms@.len() ==> #[trigger] g.world.rooms@[j].id != e.to,
    }
}

/// `r` describes, for session `g`, the first exit whose direction equals
/// `dir` up to ASCII case, if any.
pub open spec fn inspect_shows(g: Game, dir: Seq<char>, r: Option<GateView>) -> bool {
    let exits = g.world.rooms@[g.current_room as int].exits@;
    match r {
        Some(v) => is_first_exit_ascii(exits, dir, v.exit as int) && gate_shows(g, v),
        None => forall|j: int|
            0 <= j < exits.len() ==> !eq_ignore_ascii(#[trigger] exits[j].direction@, dir),
    }
}

/// Whether the player holds an entry with the same lower-case identifier.
fn holds_lowercase(game: &Game, id: &str) -> (r: bool)
    ensures
        r == holds_lower(*game, id@),
{
    let inv = &game.player.inventory;
    let mut i: usize = 0;
    while i < inv.len()
        invariant
            *inv == game.player.inventory,
            i <= inv@.len(),
            forall|j: int| 0 <= j < i ==> lowercase(#[trigger] inv@[j].id@) != lowercase(id@),
        decreases inv@.len() - i,
    {
        if eq_lowercase(inv[i].id.as_str(), id) {
            return true;
        }
        i = i + 1;
    }
    false
}

/// What `inspect` shows of the first exit whose direction equals `dir` up
/// to ASCII case, if there is one.
pub fn inspect(game: &Game, dir: &str) -> (r: Option<GateView>)
    requires
        game.current_room < game.world.rooms@.len(),
    ensures
        inspect_shows(*game, dir@, r),
{
    let room = game.current_room();
    match find_exit_ascii(&room.exits, dir) {
        None => None,
        Some(k) => {
            let e = &room.exits[k];
            let missing_item = match &e.required_item_id {
                Some(id) => if holds_lowercase(game, id.as_str()) {
                    None
                } else {
                    Some(find_by_id(&game.world.items, id.as_str()))
                },
                None => None,
            };
            let step_incomplete = match (&e.required_quest_id, &e.required_step) {
                (Some(q), Some(st)) => !quest_step_done(&game.quests, q.as_str(), st.as_str()),
                _ => false,
            };
            let dest = find_room(&game.world.rooms, e.to);
            Some(GateView { exit: k, missing_item, step_incomplete, dest })
        },
    }
}

/// `k` is the first of `v` whose identifier has the same lower-case form as `id`.
pub open spec fn is_first_lower<T: Identified>(v: Seq<T>, id: Seq<char>, k: int) -> bool {
    &&& 0 <= k < v.len()
    &&& lowercase(v[k].id_view()) == lowercase(id)
    &&& forall|j: int| 0 <= j < k ==> lowercase(#[trigger] v[j].id_view()) != lowercase(id)
}

/// The first of `v` whose identifier has the same lower-case form as `id`.
pub fn find_lower<T: Identified>(v: &Vec<T>, id: &str) -> (r: Option<usize>)
    ensures
        r matches Some(k) ==> is_first_lower(v@, id@, k as int),
        r is None ==> forall|j: int|
            0 <= j < v@.len() ==> lowercase(#[trigger] v@[j].id_view()) != lowercase(id@),
{
    let mut i: usize = 0;
    while i < v.len()
        invariant
            i <= v@.len(),
            forall|j: int| 0 <= j < i ==> lowercase(#[trigger] v@[j].id_view()) != lowercase(id@),
        decreases v@.len() - i,
    {
        if eq_lowercase(v[i].id_str(), id) {
            return Some(i);
        }
        i = i + 1;
    }
    None
}

/// `k` is the first of `v` whose identifier equals `id` up to ASCII case.
pub open spec fn is_first_ascii<T: Identified>(v: Seq<T>, id: Seq<char>, k: int) -> bool {
    &&& 0 <= k < v.len()
    &&& eq_ignore_ascii(v[k].id_view(), id)
    &&& forall|j: int| 0 <= j < k ==> !eq_ignore_ascii(#[trigger] v[j].id_view(), id)
}

/// The first of `v` whose identifier equals `id` up to ASCII case.
pub fn find_ascii<T: Identified>(v: &Vec<T>, id: &str) -> (r: Option<usize>)
    ensures
        r matches Some(k) ==> is_first_ascii(v@, id@, k as int),
        r is None ==> forall|j: int| 0 <= j < v@.len() ==> !eq_ignore_ascii(#[trigger] v@[j].id_view(), id@),
{
    let mut i: usize = 0;
    while i < v.len()
        invariant
            i <= v@.len(),
            forall|j: int| 0 <= j < i ==> !eq_ignore_ascii(#[trigger] v@[j].id_view(), id@),
        decreases v@.len() - i,
    {
        if eq_ignore_ascii_case(v[i].id_str(), id) {
            return Some(i);
        }
        i = i + 1;
    }
    None
}

/// The rooms other than the one at `cur` are unchanged, and there are as many.
pub open spec fn others_kept(new: Seq<Room>, old: Seq<Room>, cur: int) -> bool {
    &&& new.len() == old.len()
    &&& forall|i: int| 0 <= i < old.len() && i != cur ==> #[trigger] new[i] == old[i]
}

/// `new` is `old` without the item reference at `slot`.
pub open spec fn item_ref_removed(new: Room, old: Room, slot: int) -> bool {
    &&& new.items@ == old.items@.remove(slot)
    &&& new.id == old.id
    &&& new.name == old.name
    &&& new.description == old.description
    &&& new.points == old.points
    &&& new.exits == old.exits
    &&& new.enemies == old.enemies
    &&& new.npcs == old.npcs
    &&& new.lore == old.lore
    &&& new.role == old.role
}

/// `new` is `old` without the enemy reference at `slot`.
pub open spec fn enemy_ref_removed(new: Room, old: Room, slot: int) -> bool {
    &&& new.enemies@ == old.enemies@.remove(slot)
    &&& new.id == old.id
    &&& new.name == old.name
    &&& new.description == old.description
    &&& new.points == old.points
    &&& new.exits == old.exits
    &&& new.items == old.items
    &&& new.npcs == old.npcs
    &&& new.lore == old.lore
    &&& new.role == old.role
}

/// What `take` did.
#[derive(Debug)]
pub enum TakeOutcome {
    /// The room holds no such item.
    NotHere,
    /// The reference at `slot` was taken out of the room, but no item is
    /// defined for it.
    Undefined { slot: usize },
    /// The reference at `slot` was taken out of the room into the
    /// inventory; `item` is the position of its definition.
    Taken { slot: usize, item: usize, progress: Vec<QuestProgress> },
}

/// What `take` of `id` does, from `old` to `new`.
pub open spec fn take_post(old: Game, new: Game, id: Seq<char>, r: TakeOutcome) -> bool {
    let cur = old.current_room as int;
    let refs = old.world.rooms@[cur].items@;
    match r {
        TakeOutcome::NotHere => {
            &&& forall|j: int|
                0 <= j < refs.len() ==> lowercase(#[trigger] refs[j].id_view()) != lowercase(id)
            &&& new == old
        },
        TakeOutcome::Undefined { slot } => {
            &&& is_first_lower(refs, id, slot as int)
            &&& forall|j: int|
                0 <= j < old.world.items@.len() ==> lowercase(
                    #[trigger] old.world.items@[j].id_view(),
                ) != lowercase(refs[slot as int].id@)
            &&& others_kept(new.world.rooms@, old.world.rooms@, cur)
            &&& item_ref_removed(new.world.rooms@[cur], old.world.rooms@[cur], slot as int)
            &&& new.world.items == old.world.items
            &&& new.world.enemies == old.world.enemies
            &&& new.world.npcs == old.world.npcs
            &&& new.world.quests == old.world.quests
            &&& new.player == old.player
            &&& new.quests == old.quests
            &&& new.current_room == old.current_room
            &&& new.running == old.running
            &&& new.session == old.session
        },
        TakeOutcome::Taken { slot, item, progress } => {
            let rid = refs[slot as int].id@;
            &&& is_first_lower(refs, id, slot as int)
            &&& is_first_lower(old.world.items@, rid, item as int)
            &&& others_kept(new.world.rooms@, old.world.rooms@, cur)
            &&& item_ref_removed(new.world.rooms@[cur], old.world.rooms@[cur], slot as int)
            &&& new.world.items == old.world.items
            &&& new.world.enemies == old.world.enemies
            &&& new.world.npcs == old.world.npcs
            &&& new.world.quests == old.world.quests
            &&& new.player.inv_ids() == old.player.inv_ids().push(rid)
            &&& match effects_of(old.world.items@, rid) {
                Some(e) => new.player.traits_moved(old.player, e, true),
                None => new.player.same_traits(old.player),
            }
            &&& new.player.points == old.player.points + old.world.items@[item as int].points
                + points_completing(old.quests@, QuestAction::CollectItem, rid)
            &&& new.player.quests_completed == old.player.quests_completed + count_completing(
                old.quests@,
                QuestAction::CollectItem,
                rid,
            )
            &&& new.player.hp == old.player.hp
            &&& new.player.status == old.player.status
            &&& event_applied(new.quests@, old.quests@, QuestAction::CollectItem, rid)
            &&& reports(progress@, old.quests@, QuestAction::CollectItem, rid)
            &&& new.current_room == old.current_room
            &&& new.running == old.running
            &&& new.session == old.session
        },
    }
}

/// What `take` of `id` adds fits: when the first matching item of the
/// current room has a definition, the traits can take its modifiers, and
/// the score and the completed count what taking it awards.
pub open spec fn take_fits(g: Game, id: Seq<char>) -> bool {
    let refs = g.world.rooms@[g.current_room as int].items@;
    forall|p: int, d: int|
        #![trigger is_first_lower(refs, id, p), is_first_lower(g.world.items@, refs[p].id@, d)]
        is_first_lower(refs, id, p) && is_first_lower(g.world.items@, refs[p].id@, d) ==> {
            let rid = refs[p].id@;
            &&& g.player.can_take(g.world.items@, rid)
            &&& g.player.points + g.world.items@[d].points + points_completing(
                g.quests@,
                QuestAction::CollectItem,
                rid,
            ) <= u32::MAX
            &&& g.player.quests_completed + count_completing(
                g.quests@,
                QuestAction::CollectItem,
                rid,
            ) <= u32::MAX
        }
}

/// Whether `take` of `id` can be carried out.
pub fn check_take(game: &Game, id: &str) -> (r: bool)
    requires
        game.wf(),
    ensures
        r == take_fits(*game, id@),
{
    let cur = game.current_room;
    let refs = &game.world.rooms[cur].items;
    let p = match find_lower(refs, id) {
        None => {
            return true;
        },
        Some(p) => p,
    };
    let rid = refs[p].id.as_str();
    let d = match find_lower(&game.world.items, rid) {
        None => {
            return true;
        },
        Some(d) => d,
    };
    assert(refs@[p as int].id@ == refs@[p as int].id_view());
    let traits_ok = match find_by_id(&game.world.items, rid) {
        Some(k) => match &game.world.items[k].effects {
            Some(e) => game.mods_fit(e),
            None => true,
        },
        None => true,
    };
    let (pts, count) = event_awards(&game.quests, QuestAction::CollectItem, rid);
    traits_ok && game.player.points as u64 + game.world.items[d].points as u64 + pts
        <= u32::MAX as u64 && count as u64 <= u32::MAX as u64 && (
    game.player.quests_completed as u64) + (count as u64) <= u32::MAX as u64
}

/// Takes the first item of the current room whose identifier matches `id`
/// in lower case: it leaves the room and, when it is defined, enters the
/// inventory with its modifiers, scores its points and counts as collected
/// for the quests.
pub fn take(game: &mut Game, id: &str) -> (r: TakeOutcome)
    requires
        old(game).wf(),
        take_fits(*old(game), id@),
    ensures
        take_post(*old(game), *final(game), id@, r),
        final(game).wf(),
{
    let cur = game.current_room;
    match find_lower(&game.world.rooms[cur].items, id) {
        None => TakeOutcome::NotHere,
        Some(p) => {
            let ghost r0 = game.world.rooms@;
            let ghost g0 = *game;
            let item_ref = game.world.rooms[cur].items.remove(p);
            assert(item_ref == r0[cur as int].items@[p as int]);
            assert(others_kept(game.world.rooms@, r0, cur as int));
            assert(item_ref_removed(game.world.rooms@[cur as int], r0[cur as int], p as int));
            match find_lower(&game.world.items, item_ref.id.as_str()) {
                None => TakeOutcome::Undefined { slot: p },
                Some(d) => {
                    let rid = item_ref.id.as_str();
                    assert(is_first_lower(g0.world.rooms@[cur as int].items@, id@, p as int));
                    assert(is_first_lower(
                        g0.world.items@,
                        g0.world.rooms@[cur as int].items@[p as int].id@,
                        d as int,
                    ));
                    game.player.add_item(rid, &game.world);
                    let pts = game.world.items[d].points;
                    game.player.add_points(pts);
                    let progress = game.quest_event(QuestAction::CollectItem, rid);
                    TakeOutcome::Taken { slot: p, item: d, progress }
                },
            }
        },
    }
}

/// What `attack` did.
#[derive(Debug, Clone, Copy, PartialEq, Eq, Structural)]
pub enum AttackOutcome {
    /// The room holds no such enemy.
    NoEnemy,
    /// The reference at `slot` was taken out of the room, but no enemy is
    /// defined for it.
    Undefined { slot: usize },
    /// The reference at `slot` was taken out of the room and a fight with
    /// the enemy defined at `enemy` begins.
    Fight { slot: usize, enemy: usize },
}

/// What `attack` of `id` does, from `old` to `new`.
pub open spec fn attack_post(old: Game, new: Game, id: Seq<char>, r: AttackOutcome) -> bool {
    let cur = old.current_room as int;
    let refs = old.world.rooms@[cur].enemies@;
    let removed = |slot: usize|
        {
            &&& is_first_lower(refs, id, slot as int)
            &&& others_kept(new.world.rooms@, old.world.rooms@, cur)
            &&& enemy_ref_removed(new.world.rooms@[cur], old.world.rooms@[cur], slot as int)
            &&& new.world.items == old.world.items
            &&& new.world.enemies == old.world.enemies
            &&& new.world.npcs == old.world.npcs
            &&& new.world.quests == old.world.quests
            &&& new.player == old.player
            &&& new.quests == old.quests
            &&& new.current_room == old.current_room
            &&& new.running == old.running
            &&& new.session == old.session
        };
    match r {
        AttackOutcome::NoEnemy => {
            &&& forall|j: int|
                0 <= j < refs.len() ==> lowercase(#[trigger] refs[j].id_view()) != lowercase(id)
            &&& new == old
        },
        AttackOutcome::Undefined { slot } => {
            &&& removed(slot)
            &&& find_id(old.world.enemies@, refs[slot as int].id@) is None
        },
        AttackOutcome::Fight { slot, enemy } => {
            &&& removed(slot)
            &&& find_id(old.world.enemies@, refs[slot as int].id@) == Some(enemy as int)
        },
    }
}

/// Picks a fight with the first enemy of the current room whose identifier
/// matches `id` in lower case: it leaves the room, and the fight is with its
/// definition when there is one.
pub fn attack(game: &mut Game, id: &str) -> (r: AttackOutcome)
    requires
        old(game).wf(),
    ensures
        attack_post(*old(game), *final(game), id@, r),
        final(game).wf(),
{
    let cur = game.current_room;
    match find_lower(&game.world.rooms[cur].enemies, id) {
        None => AttackOutcome::NoEnemy,
        Some(p) => {
            let ghost r0 = game.world.rooms@;
            let enemy_ref = game.world.rooms[cur].enemies.remove(p);
            assert(enemy_ref == r0[cur as int].enemies@[p as int]);
            assert(others_kept(game.world.rooms@, r0, cur as int));
            match find_by_id(&game.world.enemies, enemy_ref.id.as_str()) {
                None => AttackOutcome::Undefined { slot: p },
                Some(d) => AttackOutcome::Fight { slot: p, enemy: d },
            }
        },
    }
}

/// What `use` did.
#[derive(Debug, Clone, Copy, PartialEq, Eq, Structural)]
pub enum UseResult {
    /// An item of the inventory was used.
    Used(UseOutcome),
    /// No inventory item was used (`attempt` says why); the room holds the
    /// core terminal input.
    Terminal { attempt: UseOutcome },
    /// No inventory item was used; the room item defined at `item` cannot
    /// be used.
    CannotUse { attempt: UseOutcome, item: usize },
    /// No inventory item was used, and the room holds no such item.
    NotFound { attempt: UseOutcome },
}

/// What `use` of `name` does, from `old` to `new`.
pub open spec fn use_post(old: Game, new: Game, name: Seq<char>, r: UseResult) -> bool {
    let refs = old.world.rooms@[old.current_room as int].items@;
    let defs = old.world.items@;
    let fallback = |attempt: UseOutcome|
        {
            &&& !(attempt is Used)
            &&& use_item_post(old.player, new.player, defs, name, attempt)
        };
    &&& new.world == old.world
    &&& new.quests == old.quests
    &&& new.current_room == old.current_room
    &&& new.running == old.running
    &&& new.session == old.session
    &&& match r {
        UseResult::Used(o) => o is Used && use_item_post(old.player, new.player, defs, name, o),
        UseResult::Terminal { attempt } => fallback(attempt) && exists|p: int, d: int|
            #[trigger] is_first_ascii(refs, name, p) && #[trigger] is_first_ascii(defs, refs[p].id@, d)
                && defs[d].id@ == "core_terminal_input"@,
        UseResult::CannotUse { attempt, item } => fallback(attempt) && exists|p: int|
            #[trigger] is_first_ascii(refs, name, p) && is_first_ascii(defs, refs[p].id@, item as int)
                && defs[item as int].id@ != "core_terminal_input"@,
        UseResult::NotFound { attempt } => fallback(attempt) && forall|p: int|
            #[trigger] is_first_ascii(refs, name, p) ==> forall|d: int|
                0 <= d < defs.len() ==> !eq_ignore_ascii(#[trigger] defs[d].id_view(), refs[p].id@),
    }
}

/// Uses an inventory item whose name matches; failing that, the first room
/// item whose identifier equals `name` up to ASCII case: the core terminal
/// input opens the final terminal, anything else cannot be used.
pub fn use_command(game: &mut Game, name: &str) -> (r: UseResult)
    requires
        old(game).wf(),
    ensures
        use_post(*old(game), *final(game), name@, r),
        final(game).wf(),
{
    let attempt = game.player.use_item(name, &game.world);
    if attempt.is_used() {
        return UseResult::Used(attempt);
    }
    let room = game.current_room();
    match find_ascii(&room.items, name) {
        None => UseResult::NotFound { attempt },
        Some(p) => match find_ascii(&game.world.items, room.items[p].id.as_str()) {
            None => UseResult::NotFound { attempt },
            Some(d) => {
                assert(is_first_ascii(room.items@, name@, p as int));
                if str_eq(game.world.items[d].id.as_str(), "core_terminal_input") {
                    UseResult::Terminal { attempt }
                } else {
                    UseResult::CannotUse { attempt, item: d }
                }
            },
        },
    }
}

/// The hidden commands: what an unknown line of words does.
#[derive(Debug, Clone, Copy, PartialEq, Eq, Structural)]
pub enum Hidden {
    Reboot,
    WhoAmI,
    Listing,
    Grep,
    NotRecognized,
}

/// The hidden command a line of words names.
pub open spec fn hidden_named(cmd: Seq<char>) -> Hidden {
    if cmd == "sudo reboot"@ {
        Hidden::Reboot
    } else if cmd == "echo $USER"@ {
        Hidden::WhoAmI
    } else if cmd == "ls"@ {
        Hidden::Listing
    } else if cmd.len() >= 7 && cmd.take(7) == "grep -r"@ {
        Hidden::Grep
    } else {
        Hidden::NotRecognized
    }
}

/// The hidden command a line of words names.
pub fn hidden_command(cmd: &str) -> (r: Hidden)
    ensures
        r == hidden_named(cmd@),
{
    if str_eq(cmd, "sudo reboot") {
        Hidden::Reboot
    } else if str_eq(cmd, "echo $USER") {
        Hidden::WhoAmI
    } else if str_eq(cmd, "ls") {
        Hidden::Listing
    } else {
        let n = cmd.unicode_len();
        if n >= 7 && str_eq(cmd.substring_char(0, 7), "grep -r") {
            Hidden::Grep
        } else {
            proof {
                if cmd@.len() >= 7 {
                    assert(cmd@.subrange(0, 7) =~= cmd@.take(7));
                }
            }
            Hidden::NotRecognized
        }
    }
}

/// `item` is what `examine` of `target` finds among the items.
pub open spec fn item_matches(item: Item, target: Seq<char>) -> bool {
    item.id@ == target || has_substring(lowercase(item.name@), lowercase(target))
}

/// `l` is visible lore that `examine` of `target` finds.
pub open spec fn lore_matches(l: LoreObject, target: Seq<char>) -> bool {
    !l.hidden && (l.id@ == target || has_substring(lowercase(l.name@), lowercase(target)))
}

/// What `examine` did.
#[derive(Debug)]
pub enum ExamineOutcome {
    /// The target is held; `item` is the first world item it matches.
    Item { item: Option<usize> },
    /// The lore at position `lore` of the current room was read: its effect
    /// went off, if it has one, and it counted as read for the quests.
    Lore { lore: usize, effect: Option<TriggerOutcome>, progress: Vec<QuestProgress> },
    /// Nothing matches.
    Nothing,
}

/// Lore `l` was read, taking the session from `old` to `new`.
pub open spec fn lore_read(
    old: Game,
    new: Game,
    l: LoreObject,
    effect: Option<TriggerOutcome>,
    progress: Seq<QuestProgress>,
) -> bool {
    &&& match l.trigger_effect {
        Some(t) => effect is Some && trigger_post(old.world, new.world, t@, effect->0),
        None => effect is None && new.world == old.world,
    }
    &&& quest_event(old, new, QuestAction::ReadLore, l.id@, progress)
    &&& new.current_room == old.current_room
    &&& new.running == old.running
    &&& new.session == old.session
}

/// What `examine` of `target` does, from `old` to `new`.
pub open spec fn examine_post(old: Game, new: Game, target: Seq<char>, r: ExamineOutcome) -> bool {
    let items = old.world.items@;
    let lore = old.world.rooms@[old.current_room as int].lore@;
    if old.player.inv_ids().contains(target) {
        &&& r is Item
        &&& new == old
        &&& match r->item {
            Some(k) => {
                &&& k < items.len()
                &&& item_matches(items[k as int], target)
                &&& forall|j: int| 0 <= j < k ==> !item_matches(#[trigger] items[j], target)
            },
            None => forall|j: int| 0 <= j < items.len() ==> !item_matches(#[trigger] items[j], target),
        }
    } else {
        match r {
            ExamineOutcome::Nothing => {
                &&& forall|j: int| 0 <= j < lore.len() ==> !lore_matches(#[trigger] lore[j], target)
                &&& new == old
            },
            ExamineOutcome::Lore { lore: k, effect, progress } => {
                &&& k < lore.len()
                &&& lore_matches(lore[k as int], target)
                &&& forall|j: int| 0 <= j < k ==> !lore_matches(#[trigger] lore[j], target)
                &&& lore_read(old, new, lore[k as int], effect, progress@)
            },
            ExamineOutcome::Item { .. } => false,
        }
    }
}

/// Reads lore `k` of the current room: its effect, then the quest event.
fn read_lore(game: &mut Game, k: usize) -> (r: (Option<TriggerOutcome>, Vec<QuestProgress>))
    requires
        old(game).wf(),
        k < old(game).world.rooms@[old(game).current_room as int].lore@.len(),
        old(game).event_fits(
            QuestAction::ReadLore,
            old(game).world.rooms@[old(game).current_room as int].lore@[k as int].id@,
        ),
    ensures
        lore_read(
            *old(game),
            *final(game),
            old(game).world.rooms@[old(game).current_room as int].lore@[k as int],
            r.0,
            r.1@,
        ),
        final(game).wf(),
        final(game).world.rooms@.len() == old(game).world.rooms@.len(),
        forall|i: int|
            0 <= i < old(game).world.rooms@.len() ==> (#[trigger] final(game).world.rooms@[i]).exits
                == old(game).world.rooms@[i].exits && final(game).world.rooms@[i].lore
                == old(game).world.rooms@[i].lore,
{
    let ghost g0 = *game;
    let cur = game.current_room;
    let lore_id = game.world.rooms[cur].lore[k].id.clone();
    let effect_name: Option<String> = match &game.world.rooms[cur].lore[k].trigger_effect {
        Some(e) => Some(e.clone()),
        None => None,
    };
    let effect = match effect_name {
        Some(e) => {
            let o = handle_trigger_effect(e.as_str(), game);
            proof {
                crate::commands::lemma_trigger_keeps_layout(g0.world, game.world, e@, o);
            }
            Some(o)
        },
        None => None,
    };
    let progress = game.quest_event(QuestAction::ReadLore, lore_id.as_str());
    (effect, progress)
}

/// `k` is the first lore of `lore` that `examine` of `target` finds.
pub open spec fn is_first_lore(lore: Seq<LoreObject>, target: Seq<char>, k: int) -> bool {
    &&& 0 <= k < lore.len()
    &&& lore_matches(lore[k], target)
    &&& forall|j: int| 0 <= j < k ==> !lore_matches(#[trigger] lore[j], target)
}

/// What `examine` of `target` adds fits: when the target is not held, the
/// score and the completed count can take what reading the first lore it
/// finds awards.
pub open spec fn examine_fits(g: Game, target: Seq<char>) -> bool {
    let lore = g.world.rooms@[g.current_room as int].lore@;
    !g.player.inv_ids().contains(target) ==> forall|k: int|
        #[trigger] is_first_lore(lore, target, k) ==> g.event_fits(
            QuestAction::ReadLore,
            lore[k].id@,
        )
}

/// The first visible lore of the current room that `examine` of `target`
/// finds.
fn find_lore(game: &Game, target: &str) -> (r: Option<usize>)
    requires
        game.wf(),
    ensures
        r matches Some(k) ==> is_first_lore(
            game.world.rooms@[game.current_room as int].lore@,
            target@,
            k as int,
        ),
        r is None ==> forall|j: int|
            0 <= j < game.world.rooms@[game.current_room as int].lore@.len() ==> !lore_matches(
                #[trigger] game.world.rooms@[game.current_room as int].lore@[j],
                target@,
            ),
{
    let lore = &game.world.rooms[game.current_room].lore;
    let mut i: usize = 0;
    while i < lore.len()
        invariant
            *lore == game.world.rooms@[game.current_room as int].lore,
            i <= lore@.len(),
            forall|j: int| 0 <= j < i ==> !lore_matches(#[trigger] lore@[j], target@),
        decreases lore@.len() - i,
    {
        let l = &lore[i];
        if !l.hidden && (str_eq(l.id.as_str(), target) || contains_lowercase(l.name.as_str(), target)) {
            return Some(i);
        }
        i = i + 1;
    }
    None
}

/// Whether `examine` of `target` can be carried out.
pub fn check_examine(game: &Game, target: &str) -> (r: bool)
    requires
        game.wf(),
    ensures
        r == examine_fits(*game, target@),
{
    if game.player.has_item(target) {
        return true;
    }
    match find_lore(game, target) {
        None => true,
        Some(k) => game.check_event_fits(
            QuestAction::ReadLore,
            game.world.rooms[game.current_room].lore[k].id.as_str(),
        ),
    }
}

/// Examines `target`: an item held is described by the first world item it
/// matches; otherwise the first visible lore of the current room it matches
/// is read.
pub fn examine(game: &mut Game, target: &str) -> (r: ExamineOutcome)
    requires
        old(game).wf(),
        examine_fits(*old(game), target@),
    ensures
        examine_post(*old(game), *final(game), target@, r),
        final(game).wf(),
{
    if game.player.has_item(target) {
        let mut i: usize = 0;
        while i < game.world.items.len()
            invariant
                *game == *old(game),
                old(game).wf(),
                old(game).player.inv_ids().contains(target@),
                i <= game.world.items@.len(),
                forall|j: int| 0 <= j < i ==> !item_matches(#[trigger] game.world.items@[j], target@),
            decreases game.world.items@.len() - i,
        {
            if str_eq(game.world.items[i].id.as_str(), target) || contains_lowercase(
                game.world.items[i].name.as_str(),
                target,
            ) {
                return ExamineOutcome::Item { item: Some(i) };
            }
            i = i + 1;
        }
        return ExamineOutcome::Item { item: None };
    }
    match find_lore(game, target) {
        None => ExamineOutcome::Nothing,
        Some(k) => {
            let (effect, progress) = read_lore(game, k);
            ExamineOutcome::Lore { lore: k, effect, progress }
        },
    }
}

/// What `talk` did.
#[derive(Debug)]
pub enum TalkOutcome {
    /// No NPC of the current room matches.
    NoInterface,
    /// The player talked to the NPC defined at `npc`; `new_quest` is the
    /// world quest it handed out, if any.
    Talked { npc: usize, new_quest: Option<usize>, progress: Vec<QuestProgress> },
}

/// The world quest an NPC hands out to `g`'s player: the first world quest
/// with the identifier it gives, unless a quest with that identifier is
/// already taken on.
pub open spec fn quest_given(g: Game, n: Npc) -> Option<usize> {
    match n.quest_to_give {
        Some(qid) => if find_id(g.quests@, qid@) is Some {
            None
        } else {
            match find_id(g.world.quests@, qid@) {
                Some(w) => Some(w as usize),
                None => None,
            }
        },
        None => None,
    }
}

/// After talking to `n`, with the quests `q1` taken on, the event of
/// talking to it took the player and quests from `old` to `new`.
pub open spec fn talk_event(
    old: Game,
    new: Game,
    q1: Seq<Quest>,
    n: Npc,
    progress: Seq<QuestProgress>,
) -> bool {
    &&& event_applied(new.quests@, q1, QuestAction::TalkNpc, n.id@)
    &&& reports(progress, q1, QuestAction::TalkNpc, n.id@)
    &&& new.player.points == old.player.points + n.points + points_completing(
        q1,
        QuestAction::TalkNpc,
        n.id@,
    )
    &&& new.player.quests_completed == old.player.quests_completed + count_completing(
        q1,
        QuestAction::TalkNpc,
        n.id@,
    )
    &&& new.player.hp == old.player.hp
    &&& new.player.same_traits(old.player)
    &&& new.player.inventory == old.player.inventory
    &&& new.player.status == old.player.status
}

/// `npc` is the first of the candidate NPCs `c` (positions in `npcs`) that
/// matches `query`.
pub open spec fn picked(c: Seq<usize>, npcs: Seq<Npc>, npc: usize, query: Seq<char>) -> bool {
    exists|m: int|
        0 <= m < c.len() && #[trigger] c[m] == npc && query_matches(
            npcs[npc as int].id@,
            npcs[npc as int].name@,
            query,
        ) && forall|m2: int|
            0 <= m2 < m ==> !query_matches(
                npcs[#[trigger] c[m2] as int].id@,
                npcs[c[m2] as int].name@,
                query,
            )
}

/// What `talk` to `query` does, from `old` to `new`.
pub open spec fn talk_post(old: Game, new: Game, query: Seq<char>, r: TalkOutcome) -> bool {
    let npcs = old.world.npcs@;
    let c = resolved(old.world.rooms@[old.current_room as int].npcs@, npcs);
    match r {
        TalkOutcome::NoInterface => {
            &&& forall|m: int|
                0 <= m < c.len() ==> !query_matches(npcs[#[trigger] c[m] as int].id@, npcs[c[m] as int].name@, query)
            &&& new == old
        },
        TalkOutcome::Talked { npc, new_quest, progress } => {
            let n = npcs[npc as int];
            &&& picked(c, npcs, npc, query)
            &&& new_quest == quest_given(old, n)
            &&& new.world == old.world
            &&& new.current_room == old.current_room
            &&& new.running == old.running
            &&& new.session == old.session
            &&& talk_quests(old, new, new_quest, n, progress@)
        },
    }
}

/// The quests after talking to `n`: the quest handed out (the world quest
/// at `new_quest`, copied) joins those taken on, then the event of talking
/// to `n` applies.
pub open spec fn talk_quests(
    old: Game,
    new: Game,
    new_quest: Option<usize>,
    n: Npc,
    progress: Seq<QuestProgress>,
) -> bool {
    match new_quest {
        Some(w) => exists|q: Quest|
            q.same(&old.world.quests@[w as int]) && #[trigger] talk_event(
                old,
                new,
                old.quests@.push(q),
                n,
                progress,
            ),
        None => talk_event(old, new, old.quests@, n, progress),
    }
}

/// `m` is the first of the candidate NPCs `c` (positions in `npcs`) that
/// matches `query`.
pub open spec fn is_first_candidate(c: Seq<usize>, npcs: Seq<Npc>, query: Seq<char>, m: int) -> bool {
    &&& 0 <= m < c.len()
    &&& query_matches(npcs[c[m] as int].id@, npcs[c[m] as int].name@, query)
    &&& forall|m2: int|
        0 <= m2 < m ==> !query_matches(
            npcs[#[trigger] c[m2] as int].id@,
            npcs[c[m2] as int].name@,
            query,
        )
}

/// The quests taken on once `n` has handed out its quest, if it does.
pub open spec fn talk_taken(g: Game, n: Npc) -> Seq<Quest> {
    match quest_given(g, n) {
        Some(w) => g.quests@.push(g.world.quests@[w as int]),
        None => g.quests@,
    }
}

/// What `talk` to `query` adds fits: the score can take the points of the
/// first NPC that matches and what talking to it awards, and the completed
/// count what it awards.
pub open spec fn talk_fits(g: Game, query: Seq<char>) -> bool {
    let npcs = g.world.npcs@;
    let c = resolved(g.world.rooms@[g.current_room as int].npcs@, npcs);
    forall|m: int|
        #[trigger] is_first_candidate(c, npcs, query, m) ==> {
            let n = npcs[c[m] as int];
            let q1 = talk_taken(g, n);
            &&& g.player.points + n.points + points_completing(q1, QuestAction::TalkNpc, n.id@)
                <= u32::MAX
            &&& g.player.quests_completed + count_completing(q1, QuestAction::TalkNpc, n.id@)
                <= u32::MAX
        }
}

/// The NPCs of the current room (positions among the world's NPCs), and
/// the first of them that matches `query`.
fn find_npc(game: &Game, query: &str) -> (r: (Vec<usize>, Option<usize>))
    requires
        game.wf(),
    ensures
        r.0@ == resolved(game.world.rooms@[game.current_room as int].npcs@, game.world.npcs@),
        forall|j: int| 0 <= j < r.0@.len() ==> #[trigger] r.0@[j] < game.world.npcs@.len(),
        r.1 matches Some(m) ==> is_first_candidate(r.0@, game.world.npcs@, query@, m as int),
        r.1 is None ==> forall|m: int|
            0 <= m < r.0@.len() ==> !query_matches(
                game.world.npcs@[#[trigger] r.0@[m] as int].id@,
                game.world.npcs@[r.0@[m] as int].name@,
                query@,
            ),
{
    let cur = game.current_room;
    let cands = resolve_refs(&game.world.rooms[cur].npcs, &game.world.npcs);
    let mut refs: Vec<&Npc> = Vec::new();
    let mut i: usize = 0;
    while i < cands.len()
        invariant
            i <= cands@.len(),
            refs@.len() == i,
            forall|j: int| 0 <= j < cands@.len() ==> #[trigger] cands@[j] < game.world.npcs@.len(),
            forall|j: int| 0 <= j < i ==> *#[trigger] refs@[j] == game.world.npcs@[cands@[j] as int],
        decreases cands@.len() - i,
    {
        refs.push(&game.world.npcs[cands[i]]);
        i = i + 1;
    }
    match match_id_or_name(query, refs.as_slice()) {
        Some(m) => {
            assert(*refs@[m as int] == game.world.npcs@[cands@[m as int] as int]);
            assert forall|m2: int| 0 <= m2 < m implies !query_matches(
                game.world.npcs@[#[trigger] cands@[m2] as int].id@,
                game.world.npcs@[cands@[m2] as int].name@,
                query@,
            ) by {
                assert(*refs@[m2] == game.world.npcs@[cands@[m2] as int]);
                assert(!query_matches(refs@[m2].id_of(), refs@[m2].name_of(), query@));
            }
            (cands, Some(m))
        },
        None => {
            assert forall|m2: int| 0 <= m2 < cands@.len() implies !query_matches(
                game.world.npcs@[#[trigger] cands@[m2] as int].id@,
                game.world.npcs@[cands@[m2] as int].name@,
                query@,
            ) by {
                assert(*refs@[m2] == game.world.npcs@[cands@[m2] as int]);
                assert(!query_matches(refs@[m2].id_of(), refs@[m2].name_of(), query@));
            }
            (cands, None)
        },
    }
}

/// What the event awards once quest `q` joins `qs`.
proof fn lemma_awards_push(qs: Seq<Quest>, q: Quest, action: QuestAction, target: Seq<char>)
    ensures
        points_completing(qs.push(q), action, target) == points_completing(qs, action, target)
            + if crate::quest::completes(q, action, target) {
            q.points as nat
        } else {
            0nat
        },
        count_completing(qs.push(q), action, target) == count_completing(qs, action, target)
            + if crate::quest::completes(q, action, target) {
            1nat
        } else {
            0nat
        },
{
    assert(qs.push(q).drop_last() =~= qs);
}

/// Whether `talk` to `query` can be carried out.
pub fn check_talk(game: &Game, query: &str) -> (r: bool)
    requires
        game.wf(),
    ensures
        r == talk_fits(*game, query@),
{
    let (cands, found) = find_npc(game, query);
    let m = match found {
        None => {
            return true;
        },
        Some(m) => m,
    };
    let n = &game.world.npcs[cands[m]];
    let (pts, count) = event_awards(&game.quests, QuestAction::TalkNpc, n.id.as_str());
    let mut extra_pts: u64 = 0;
    let mut extra_count: u64 = 0;
    let ghost q1 = game.quests@;
    if let Some(qid) = &n.quest_to_give {
        if find_by_id(&game.quests, qid.as_str()).is_none() {
            if let Some(w) = find_by_id(&game.world.quests, qid.as_str()) {
                let wq = &game.world.quests[w];
                if completes_now(wq, QuestAction::TalkNpc, n.id.as_str()) {
                    extra_pts = wq.points as u64;
                    extra_count = 1;
                }
                proof {
                    lemma_awards_push(game.quests@, *wq, QuestAction::TalkNpc, n.id@);
                    q1 = game.quests@.push(*wq);
                }
            }
        }
    }
    assert(q1 == talk_taken(*game, *n));
    game.player.points as u64 + n.points as u64 + pts + extra_pts <= u32::MAX as u64 && count
        as u64 <= u32::MAX as u64 && (game.player.quests_completed as u64) + (count as u64)
        + extra_count <= u32::MAX as u64
}

/// Talks to the first NPC of the current room whose identifier or name
/// matches `query`: it scores the NPC's points, takes on the quest it hands
/// out (unless one with that identifier is already taken on) and counts as
/// talking to it for the quests.
pub fn talk(game: &mut Game, query: &str) -> (r: TalkOutcome)
    requires
        old(game).wf(),
        talk_fits(*old(game), query@),
    ensures
        talk_post(*old(game), *final(game), query@, r),
        final(game).wf(),
{
    let (cands, found) = find_npc(game, query);
    let m = match found {
        None => {
            return TalkOutcome::NoInterface;
        },
        Some(m) => m,
    };
    let ni = cands[m];
    assert(cands@[m as int] == ni);
    let ghost g0 = *game;
    let ghost n0 = g0.world.npcs@[ni as int];
    assert(is_first_candidate(cands@, g0.world.npcs@, query@, m as int));
    let pts = game.world.npcs[ni].points;
    game.player.add_points(pts);
    let mut new_quest: Option<usize> = None;
    let ghost mut pushed: Quest = arbitrary();
    if let Some(qid) = &game.world.npcs[ni].quest_to_give {
        let already = find_by_id(&game.quests, qid.as_str()).is_some();
        if !already {
            if let Some(w) = find_by_id(&game.world.quests, qid.as_str()) {
                let q = game.world.quests[w].duplicate();
                let ghost q0 = game.quests@;
                proof {
                    pushed = q;
                }
                game.quests.push(q);
                assert(game.quests@.drop_last() =~= q0);
                new_quest = Some(w);
            }
        }
    }
    let ghost g1 = *game;
    assert(new_quest is Some ==> pushed.same(&g0.world.quests@[new_quest.unwrap() as int])
        && g1.quests@ == g0.quests@.push(pushed));
    assert(new_quest is None ==> g1.quests@ == g0.quests@);
    proof {
        let t = talk_taken(g0, n0);
        assert(all_same(g1.quests@, t)) by {
            assert forall|i: int| 0 <= i < g1.quests@.len() implies (#[trigger] g1.quests@[i]).same(
                &t[i],
            ) by {
                if i < g0.quests@.len() {
                    assert(g1.quests@[i] == g0.quests@[i]);
                    assert(t[i] == g0.quests@[i]);
                    assert(g1.quests@[i].steps@ =~= t[i].steps@);
                }
            }
        }
        lemma_awards_same(g1.quests@, t, QuestAction::TalkNpc, n0.id@);
    }
    let npc_id = game.world.npcs[ni].id.clone();
    let progress = game.quest_event(QuestAction::TalkNpc, npc_id.as_str());
    proof {
        let n = old(game).world.npcs@[ni as int];
        if new_quest is Some {
            assert(talk_event(*old(game), *game, old(game).quests@.push(pushed), n, progress@));
        } else {
            assert(talk_event(*old(game), *game, old(game).quests@, n, progress@));
        }
        assert(talk_quests(*old(game), *game, new_quest, n, progress@));
        assert(cands@[m as int] == ni);
        assert(picked(cands@, old(game).world.npcs@, ni, query@));
    }
    let r = TalkOutcome::Talked { npc: ni, new_quest, progress };
    assert(talk_post(*old(game), *game, query@, r));
    r
}

/// A piece of hidden lore that `scan` read.
#[derive(Debug)]
pub struct ScanEntry {
    /// Position of the lore in the current room.
    pub lore: usize,
    pub effect: Option<TriggerOutcome>,
    pub progress: Vec<QuestProgress>,
}

/// `states` runs from `old` to `new`, each step reading the lore of its entry.
pub open spec fn scan_chain(
    states: Seq<Game>,
    old: Game,
    new: Game,
    lore: Seq<LoreObject>,
    entries: Seq<ScanEntry>,
) -> bool {
    &&& states.len() == entries.len() + 1
    &&& states[0] == old
    &&& states[entries.len() as int] == new
    &&& forall|k: int|
        0 <= k < entries.len() ==> lore_read(
            #[trigger] states[k],
            states[k + 1],
            lore[entries[k].lore as int],
            entries[k].effect,
            entries[k].progress@,
        )
}

/// What `scan` does, from `old` to `new`: it reads every piece of hidden
/// lore of the current room, in order.
pub open spec fn scan_post(old: Game, new: Game, entries: Seq<ScanEntry>) -> bool {
    let lore = old.world.rooms@[old.current_room as int].lore@;
    let hidden = lore_where(lore, true);
    &&& entries.len() == hidden.len()
    &&& forall|k: int| 0 <= k < entries.len() ==> #[trigger] entries[k].lore == hidden[k]
    &&& exists|states: Seq<Game>| scan_chain(states, old, new, lore, entries)
}

/// The identifiers of the hidden lore of `lore`, in order.
pub open spec fn hidden_ids(lore: Seq<LoreObject>) -> Seq<Seq<char>> {
    lore_where(lore, true).map_values(|k: usize| lore[k as int].id@)
}

/// What `scan` adds fits: the score and the completed count can take what
/// reading each piece of hidden lore of the current room awards, in turn.
pub open spec fn scan_fits(g: Game) -> bool {
    reads_fit(
        g.player.points as int,
        g.player.quests_completed as int,
        g.quests@,
        hidden_ids(g.world.rooms@[g.current_room as int].lore@),
    )
}

/// Whether `scan` can be carried out: the reads are tried in turn on a copy
/// of the quests.
pub fn check_scan(game: &Game) -> (r: bool)
    requires
        game.wf(),
    ensures
        r == scan_fits(*game),
{
    let lore = &game.world.rooms[game.current_room].lore;
    let hidden = lore_positions(lore, true);
    let ghost ids = hidden_ids(lore@);
    let mut qs: Vec<Quest> = Vec::new();
    let mut i: usize = 0;
    while i < game.quests.len()
        invariant
            i <= game.quests@.len(),
            qs@.len() == i,
            forall|j: int| 0 <= j < i ==> (#[trigger] qs@[j]).same(&game.quests@[j]),
        decreases game.quests@.len() - i,
    {
        qs.push(game.quests[i].duplicate());
        i = i + 1;
    }
    proof {
        lemma_reads_fit_same(
            game.player.points as int,
            game.player.quests_completed as int,
            qs@,
            game.quests@,
            ids,
        );
        assert(ids.skip(0) =~= ids);
    }
    let mut sim = crate::player::Player::new();
    sim.points = game.player.points;
    sim.quests_completed = game.player.quests_completed;
    let mut i: usize = 0;
    while i < hidden.len()
        invariant
            hidden@ == lore_where(lore@, true),
            forall|j: int| 0 <= j < hidden@.len() ==> #[trigger] hidden@[j] < lore@.len(),
            ids == hidden_ids(lore@),
            i <= hidden@.len(),
            scan_fits(*game) == reads_fit(
                sim.points as int,
                sim.quests_completed as int,
                qs@,
                ids.skip(i as int),
            ),
        decreases hidden@.len() - i,
    {
        let id = lore[hidden[i]].id.as_str();
        let ghost rest = ids.skip(i as int);
        assert(rest[0] == id@);
        assert(rest.drop_first() =~= ids.skip(i + 1));
        let (pts, count) = event_awards(&qs, QuestAction::ReadLore, id);
        if !(sim.points as u64 + pts <= u32::MAX as u64 && count as u64 <= u32::MAX as u64 && (
        sim.quests_completed as u64) + (count as u64) <= u32::MAX as u64) {
            return false;
        }
        let ghost q0 = qs@;
        let ghost p0 = sim.points as int;
        let ghost c0 = sim.quests_completed as int;
        let _ = handle_event(QuestAction::ReadLore, id, &mut qs, &mut sim);
        proof {
            lemma_applied_like(qs@, q0, QuestAction::ReadLore, id@);
            assert(all_same(q0, q0)) by {
                assert forall|j: int| 0 <= j < q0.len() implies (#[trigger] q0[j]).same(&q0[j]) by {
                }
            }
            assert forall|q2: Seq<Quest>| #[trigger]
                event_like(q2, q0, QuestAction::ReadLore, id@) implies reads_fit(
                sim.points as int,
                sim.quests_completed as int,
                q2,
                rest.drop_first(),
            ) == reads_fit(
                sim.points as int,
                sim.quests_completed as int,
                qs@,
                rest.drop_first(),
            ) by {
                lemma_event_like(qs@, q2, q0, q0, QuestAction::ReadLore, id@);
                lemma_reads_fit_same(
                    sim.points as int,
                    sim.quests_completed as int,
                    qs@,
                    q2,
                    rest.drop_first(),
                );
            }
            assert(reads_fit(p0, c0, q0, rest) == reads_fit(
                sim.points as int,
                sim.quests_completed as int,
                qs@,
                rest.drop_first(),
            ));
        }
        i = i + 1;
    }
    true
}

/// Reads every piece of hidden lore of the current room, in order: its
/// effect goes off and it counts as read for the quests.
pub fn scan(game: &mut Game) -> (entries: Vec<ScanEntry>)
    requires
        old(game).wf(),
        scan_fits(*old(game)),
    ensures
        scan_post(*old(game), *final(game), entries@),
        final(game).wf(),
{
    let cur = game.current_room;
    let hidden = lore_positions(&game.world.rooms[cur].lore, true);
    let ghost lore_vec = game.world.rooms@[cur as int].lore;
    let ghost lore0 = lore_vec@;
    let ghost ids = hidden_ids(lore0);
    let ghost mut states: Seq<Game> = seq![*game];
    let mut entries: Vec<ScanEntry> = Vec::new();
    assert(ids.skip(0) =~= ids);
    let mut i: usize = 0;
    while i < hidden.len()
        invariant
            hidden@ == lore_where(lore0, true),
            forall|j: int| 0 <= j < hidden@.len() ==> #[trigger] hidden@[j] < lore0.len(),
            lore0 == lore_vec@,
            ids == hidden_ids(lore0),
            lore_vec == old(game).world.rooms@[cur as int].lore,
            cur == old(game).current_room,
            game.current_room == cur,
            game.wf(),
            reads_fit(
                game.player.points as int,
                game.player.quests_completed as int,
                game.quests@,
                ids.skip(i as int),
            ),
            game.world.rooms@[cur as int].lore == lore_vec,
            i <= hidden@.len(),
            entries@.len() == i,
            forall|k: int| 0 <= k < i ==> #[trigger] entries@[k].lore == hidden@[k],
            states.len() == i + 1,
            states[0] == *old(game),
            states[i as int] == *game,
            forall|k: int|
                0 <= k < i ==> lore_read(
                    #[trigger] states[k],
                    states[k + 1],
                    lore0[entries@[k].lore as int],
                    entries@[k].effect,
                    entries@[k].progress@,
                ),
        decreases hidden@.len() - i,
    {
        let h = hidden[i];
        let ghost rest = ids.skip(i as int);
        let ghost q0 = game.quests@;
        assert(rest[0] == lore0[h as int].id@);
        assert(rest.drop_first() =~= ids.skip(i + 1));
        let (effect, progress) = read_lore(game, h);
        proof {
            lemma_applied_like(game.quests@, q0, QuestAction::ReadLore, rest[0]);
            states = states.push(*game);
        }
        entries.push(ScanEntry { lore: h, effect, progress });
        i = i + 1;
    }
    assert(scan_chain(states, *old(game), *game, lore0, entries@));
    entries
}

} // verus!
