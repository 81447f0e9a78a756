//! Properties of the game that relate several operations or hold of every
//! state, proved over the contracts of the operations.
use crate::actions::{lore_read, scan_chain, talk_event, ScanEntry};
use crate::battle::{enemy_damage, strike_damage};
use crate::commands::{handle_post, parse_words, CommandView, Response};
use crate::game::{ending_named, ending_typed, exits_lead_to_rooms, Ending, Game};
use crate::commands::{ref_ids, trigger_post, TriggerOutcome};
use crate::player::{add_item_post, clamp_i32, effects_of, remove_item_post, use_item_post, Player, UseOutcome};
use crate::quest::{
    advances, count_completing, event_applied, points_completing,
};
use crate::structs::{find_id, is_first_id, is_first_room, lemma_find_id, Identified, Item, Quest, QuestAction, World};
use crate::text::{has_substring, is_ws, join_space, lemma_join_split, lemma_words_are_words, lowercase, words};
use crate::actions::examine_post;
use crate::battle::trim;
use vstd::prelude::*;

verus! {

broadcast use vstd::seq_lib::group_to_multiset_ensures;

/// Dropping an item undoes taking it: after `add_item(id)` and then
/// `remove_item(id)`, the traits, hit points, score, completed quest count
/// and status are as before, and the inventory holds the same identifiers
/// (counted with multiplicity).
pub proof fn law_remove_undoes_add(
    p0: Player,
    p1: Player,
    p2: Player,
    items: Seq<Item>,
    id: Seq<char>,
)
    requires
        add_item_post(p0, p1, items, id),
        remove_item_post(p1, p2, items, id),
    ensures
        p2.same_traits(p0),
        p2.same_record(p0),
        p2.inv_ids().to_multiset() =~= p0.inv_ids().to_multiset(),
{
    let last = p0.inv_ids().len() as int;
    assert(p1.inv_ids().len() == last + 1);
    assert(p1.inventory@.len() == p1.inv_ids().len());
    assert(p1.inv_ids()[last] == id);
    assert(p1.inventory@[last].id_view() == id);
    lemma_find_id(p1.inventory@, id, 0);
    let k = find_id(p1.inventory@, id).unwrap();
    assert(is_first_id(p1.inventory@, id, k));
    assert(p2.inv_ids() =~= p1.inv_ids().remove(k));
    assert(p1.inv_ids()[k] == id);
    assert(p1.inv_ids().to_multiset() =~= p0.inv_ids().to_multiset().insert(id));
    assert(p2.inv_ids().to_multiset() =~= p1.inv_ids().to_multiset().remove(id));
}

/// An event never reopens a quest and never moves a quest back: a quest
/// completed before is left exactly as it was, and every quest's current
/// step only grows.
pub proof fn law_event_monotone(
    new: Seq<Quest>,
    old: Seq<Quest>,
    action: QuestAction,
    target: Seq<char>,
)
    requires
        event_applied(new, old, action, target),
    ensures
        forall|i: int| 0 <= i < old.len() && (#[trigger] old[i]).completed ==> new[i] == old[i],
        forall|i: int|
            0 <= i < old.len() ==> (#[trigger] new[i]).current_step >= old[i].current_step,
        forall|i: int| 0 <= i < old.len() && (#[trigger] old[i]).completed ==> new[i].completed,
{
    assert forall|i: int| 0 <= i < old.len() implies (#[trigger] new[i]).current_step
        >= old[i].current_step by {
        if advances(old[i], action, target) {
        }
    }
}

proof fn lemma_nothing_completes(qs: Seq<Quest>, action: QuestAction, target: Seq<char>)
    requires
        forall|i: int| 0 <= i < qs.len() ==> !advances(#[trigger] qs[i], action, target),
    ensures
        points_completing(qs, action, target) == 0,
        count_completing(qs, action, target) == 0,
    decreases qs.len(),
{
    if qs.len() > 0 {
        let d = qs.drop_last();
        assert forall|i: int| 0 <= i < d.len() implies !advances(#[trigger] d[i], action, target) by {
            assert(d[i] == qs[i]);
        }
        lemma_nothing_completes(d, action, target);
        assert(!advances(qs[qs.len() - 1], action, target));
    }
}

/// An event that no open quest waits for changes no quest and awards
/// nothing.
pub proof fn law_unmatched_event_changes_nothing(
    new: Seq<Quest>,
    old: Seq<Quest>,
    action: QuestAction,
    target: Seq<char>,
)
    requires
        event_applied(new, old, action, target),
        forall|i: int| 0 <= i < old.len() ==> !advances(#[trigger] old[i], action, target),
    ensures
        new =~= old,
        points_completing(old, action, target) == 0,
        count_completing(old, action, target) == 0,
{
    lemma_nothing_completes(old, action, target);
}

/// The first room with identifier 1, when there is one, is unique.
proof fn lemma_first_room_unique(rooms: Seq<crate::structs::Room>, k: int)
    requires
        is_first_room(rooms, 1, k),
    ensures
        (choose|c: int| is_first_room(rooms, 1, c)) == k,
{
    let c = choose|c: int| is_first_room(rooms, 1, c);
    assert(is_first_room(rooms, 1, c));
    if c < k {
        assert(rooms[c].id != 1);
    }
    if k < c {
        assert(rooms[k].id != 1);
    }
}

/// The syslog wraith spawns at most once: setting off the spawn effect a
/// second time spawns nothing and changes no room.
pub proof fn law_wraith_spawns_once(
    w0: World,
    w1: World,
    w2: World,
    r1: TriggerOutcome,
    r2: TriggerOutcome,
)
    requires
        trigger_post(w0, w1, "spawn_syslog_wraith"@, r1),
        trigger_post(w1, w2, "spawn_syslog_wraith"@, r2),
    ensures
        r2 == (TriggerOutcome::SpawnWraith { spawned: false }),
        w2.rooms == w1.rooms,
{
    if exists|k: int| is_first_room(w0.rooms@, 1, k) {
        let k = choose|k: int| is_first_room(w0.rooms@, 1, k);
        let present = ref_ids(w0.rooms@[k].enemies@).contains("syslog_wraith"@);
        assert(is_first_room(w1.rooms@, 1, k)) by {
            if present {
            } else {
                assert forall|j: int| 0 <= j < k implies w1.rooms@[j].id != 1 by {
                    assert(w1.rooms@[j] == w0.rooms@[j]);
                }
            }
        }
        lemma_first_room_unique(w1.rooms@, k);
        if !present {
            let ids = ref_ids(w1.rooms@[k].enemies@);
            assert(ids[ids.len() - 1] == "syslog_wraith"@);
        }
        assert(ref_ids(w1.rooms@[k].enemies@).contains("syslog_wraith"@));
    } else {
        assert(w1.rooms == w0.rooms);
    }
}

/// A strike never heals the enemy while the player's strength is at least
/// -7: its damage is not negative, so the enemy's hit points do not grow.
pub proof fn law_strike_never_heals(roll: int, strength: int, crit: bool, enemy_hp: i32)
    requires
        3 <= roll < 8,
        strength >= -7,
    ensures
        strike_damage(roll, strength, crit) >= 0,
        clamp_i32(enemy_hp - strike_damage(roll, strength, crit)) <= enemy_hp,
{
}

/// Blocking never makes an enemy's blow hurt more.
pub proof fn law_block_never_hurts_more(roll: int)
    requires
        roll >= 0,
    ensures
        0 <= enemy_damage(roll, true) <= enemy_damage(roll, false),
{
}

/// Whitespace in front of a line does not change its words, and so not the
/// command it reads as.
pub proof fn law_leading_whitespace_ignored(c: char, s: Seq<char>)
    requires
        is_ws(c),
    ensures
        words(seq![c] + s) == words(s),
{
    assert((seq![c] + s).drop_first() =~= s);
}

/// A line of whitespace alone has no words, and reads as an unknown command
/// with nothing in it.
pub proof fn law_blank_line_has_no_words(s: Seq<char>)
    requires
        forall|i: int| 0 <= i < s.len() ==> is_ws(#[trigger] s[i]),
    ensures
        words(s) == Seq::<Seq<char>>::empty(),
    decreases s.len(),
{
    if s.len() > 0 {
        let t = s.drop_first();
        assert forall|i: int| 0 <= i < t.len() implies is_ws(#[trigger] t[i]) by {
            assert(t[i] == s[i + 1]);
        }
        law_blank_line_has_no_words(t);
    }
}

proof fn lemma_lore_read_keeps_counts(a: Game, b: Game, l: crate::structs::LoreObject, e: Option<TriggerOutcome>, p: Seq<crate::quest::QuestProgress>)
    requires
        lore_read(a, b, l, e, p),
    ensures
        b.player.points >= a.player.points,
        b.player.quests_completed >= a.player.quests_completed,
{
}

proof fn lemma_chain_keeps_counts(
    states: Seq<Game>,
    old: Game,
    new: Game,
    lore: Seq<crate::structs::LoreObject>,
    entries: Seq<ScanEntry>,
    k: int,
)
    requires
        scan_chain(states, old, new, lore, entries),
        0 <= k <= entries.len(),
    ensures
        states[k].player.points >= old.player.points,
        states[k].player.quests_completed >= old.player.quests_completed,
    decreases k,
{
    if k > 0 {
        lemma_chain_keeps_counts(states, old, new, lore, entries, k - 1);
        let j = k - 1;
        assert(lore_read(
            states[j],
            states[j + 1],
            lore[entries[j].lore as int],
            entries[j].effect,
            entries[j].progress@,
        ));
    }
}

/// No command lowers the score or the count of completed quests.
pub proof fn law_score_never_drops(old: Game, new: Game, c: CommandView, r: Response)
    requires
        handle_post(old, new, c, r),
    ensures
        new.player.points >= old.player.points,
        new.player.quests_completed >= old.player.quests_completed,
{
    match c {
        CommandView::Scan => {
            let lore = old.world.rooms@[old.current_room as int].lore@;
            let es = r->Scan_0@;
            let states = choose|states: Seq<Game>| scan_chain(states, old, new, lore, es);
            lemma_chain_keeps_counts(states, old, new, lore, es, es.len() as int);
        },
        CommandView::Talk(q) => {
            if let Response::Talk(crate::actions::TalkOutcome::Talked { npc, new_quest, progress }) = r {
                let n = old.world.npcs@[npc as int];
                if let Some(w) = new_quest {
                    let qq = choose|qq: Quest|
                        qq.same(&old.world.quests@[w as int]) && #[trigger] talk_event(
                            old,
                            new,
                            old.quests@.push(qq),
                            n,
                            progress@,
                        );
                    assert(talk_event(old, new, old.quests@.push(qq), n, progress@));
                }
            }
        },
        _ => {},
    }
}

/// The rooms of `b` are those of `a`, in number, and each keeps its exits
/// and its lore.
pub open spec fn layout_kept(a: Game, b: Game) -> bool {
    &&& b.world.rooms@.len() == a.world.rooms@.len()
    &&& forall|i: int|
        0 <= i < a.world.rooms@.len() ==> (#[trigger] b.world.rooms@[i]).exits
            == a.world.rooms@[i].exits && b.world.rooms@[i].lore == a.world.rooms@[i].lore
}

proof fn lemma_chain_keeps_layout(
    states: Seq<Game>,
    old: Game,
    new: Game,
    lore: Seq<crate::structs::LoreObject>,
    entries: Seq<ScanEntry>,
    k: int,
)
    requires
        scan_chain(states, old, new, lore, entries),
        0 <= k <= entries.len(),
    ensures
        layout_kept(old, states[k]),
        states[k].current_room == old.current_room,
    decreases k,
{
    if k > 0 {
        lemma_chain_keeps_layout(states, old, new, lore, entries, k - 1);
        let j = k - 1;
        let l = lore[entries[j].lore as int];
        assert(lore_read(states[j], states[j + 1], l, entries[j].effect, entries[j].progress@));
        if let Some(t) = l.trigger_effect {
            crate::commands::lemma_trigger_keeps_layout(
                states[j].world,
                states[j + 1].world,
                t@,
                entries[j].effect->0,
            );
        }
    }
}

/// No command changes the map: the rooms stay as many and keep their exits
/// and lore, so exits that all led to rooms still do, and the player stays
/// in a room that exists.
pub proof fn law_map_kept(old: Game, new: Game, c: CommandView, r: Response)
    requires
        old.wf(),
        handle_post(old, new, c, r),
    ensures
        layout_kept(old, new),
        exits_lead_to_rooms(old.world.rooms@) ==> exits_lead_to_rooms(new.world.rooms@),
        new.wf(),
{
    let cur = old.current_room as int;
    match c {
        CommandView::Scan => {
            let lore = old.world.rooms@[cur].lore@;
            let es = r->Scan_0@;
            let states = choose|states: Seq<Game>| scan_chain(states, old, new, lore, es);
            lemma_chain_keeps_layout(states, old, new, lore, es, es.len() as int);
        },
        CommandView::Examine(t) => {
            if let Response::Examine(crate::actions::ExamineOutcome::Lore { lore: k, effect, progress }) = r {
                let l = old.world.rooms@[cur].lore@[k as int];
                if let Some(e) = l.trigger_effect {
                    crate::commands::lemma_trigger_keeps_layout(old.world, new.world, e@, effect->0);
                }
            }
        },
        CommandView::Take(id) => {
            assert forall|i: int| 0 <= i < old.world.rooms@.len() implies (#[trigger] new.world.rooms@[i]).exits
                == old.world.rooms@[i].exits && new.world.rooms@[i].lore == old.world.rooms@[i].lore by {
                if i != cur {
                }
            }
        },
        CommandView::Attack(id) => {
            assert forall|i: int| 0 <= i < old.world.rooms@.len() implies (#[trigger] new.world.rooms@[i]).exits
                == old.world.rooms@[i].exits && new.world.rooms@[i].lore == old.world.rooms@[i].lore by {
                if i != cur {
                }
            }
        },
        _ => {},
    }
    if exits_lead_to_rooms(old.world.rooms@) {
        assert forall|a: int, e: int|
            0 <= a < new.world.rooms@.len() && 0 <= e < new.world.rooms@[a].exits@.len()
            implies #[trigger] new.world.rooms@[a].exits@[e].to < new.world.rooms@.len() by {
            assert(new.world.rooms@[a].exits == old.world.rooms@[a].exits);
        }
    }
}

/// Parsing a line reads the same command as parsing its words joined by
/// single spaces: extra, leading and trailing whitespace change nothing.
pub proof fn law_parse_ignores_spacing(line: Seq<char>)
    ensures
        words(join_space(words(line))) == words(line),
        parse_words(words(join_space(words(line)))) == parse_words(words(line)),
{
    lemma_words_are_words(line);
    lemma_join_split(words(line));
}

/// The final terminal's menu: the line `1`, `2`, `3` or `4` (trimmed, in any
/// case) picks the first, second, third or fourth ending of the menu
/// (ACCEPT, PURGE, LOOP, OVERRIDE), and so does the ending's name; any other
/// line picks nothing. The ending picked is the one finalizing it names.
pub proof fn law_terminal_menu(input: Seq<char>)
    ensures
        lowercase(trim(input)) == "1"@ ==> ending_typed(input) == Some(Ending::Accept),
        lowercase(trim(input)) == "2"@ ==> ending_typed(input) == Some(Ending::Purge),
        lowercase(trim(input)) == "3"@ ==> ending_typed(input) == Some(Ending::Loop),
        lowercase(trim(input)) == "4"@ ==> ending_typed(input) == Some(Ending::Override),
        lowercase(trim(input)) == "accept"@ ==> ending_typed(input) == Some(Ending::Accept),
        lowercase(trim(input)) == "purge"@ ==> ending_typed(input) == Some(Ending::Purge),
        lowercase(trim(input)) == "loop"@ ==> ending_typed(input) == Some(Ending::Loop),
        lowercase(trim(input)) == "override"@ ==> ending_typed(input) == Some(Ending::Override),
        ending_typed(input) is None <==> !(lowercase(trim(input)) == "1"@ || lowercase(trim(input))
            == "2"@ || lowercase(trim(input)) == "3"@ || lowercase(trim(input)) == "4"@
            || lowercase(trim(input)) == "accept"@ || lowercase(trim(input)) == "purge"@
            || lowercase(trim(input)) == "loop"@ || lowercase(trim(input)) == "override"@),
        ending_typed(input) matches Some(e) ==> ending_named(e.spec_name()) == Some(e),
{
    reveal_strlit("1");
    reveal_strlit("2");
    reveal_strlit("3");
    reveal_strlit("4");
    reveal_strlit("accept");
    reveal_strlit("purge");
    reveal_strlit("loop");
    reveal_strlit("override");
    assert("1"@.len() == 1 && "1"@[0] == '1');
    assert("2"@.len() == 1 && "2"@[0] == '2');
    assert("3"@.len() == 1 && "3"@[0] == '3');
    assert("4"@.len() == 1 && "4"@[0] == '4');
    assert("accept"@.len() == 6);
    assert("purge"@.len() == 5);
    assert("loop"@.len() == 4);
    assert("override"@.len() == 8);
}

/// A command's argument, for every keyword that takes one: `go` takes the
/// single word after it; `inspect`, `take`, `examine`, `talk`, `attack` and
/// `use` take all the words after the keyword, so that their argument
/// splits back into exactly those words. A keyword with words after it
/// always reads as its command.
pub proof fn law_command_arguments(line: Seq<char>)
    ensures
        ({
            let w = words(line);
            &&& parse_words(w) matches CommandView::Go(a) ==> w.len() > 1 && a == w[1]
            &&& parse_words(w) matches CommandView::Inspect(a) ==> words(a) == w.drop_first()
            &&& parse_words(w) matches CommandView::Take(a) ==> words(a) == w.drop_first()
            &&& parse_words(w) matches CommandView::Examine(a) ==> words(a) == w.drop_first()
            &&& parse_words(w) matches CommandView::Talk(a) ==> words(a) == w.drop_first()
            &&& parse_words(w) matches CommandView::Attack(a) ==> words(a) == w.drop_first()
            &&& parse_words(w) matches CommandView::Use(a) ==> words(a) == w.drop_first()
            &&& parse_words(w) matches CommandView::Unknown(a) ==> words(a) == w
            &&& w.len() > 1 && lowercase(w[0]) == "go"@ ==> parse_words(w) is Go
            &&& w.len() > 1 && lowercase(w[0]) == "inspect"@ ==> parse_words(w) is Inspect
            &&& w.len() > 1 && lowercase(w[0]) == "take"@ ==> parse_words(w) is Take
            &&& w.len() > 1 && lowercase(w[0]) == "examine"@ ==> parse_words(w) is Examine
            &&& w.len() > 1 && lowercase(w[0]) == "talk"@ ==> parse_words(w) is Talk
            &&& w.len() > 1 && lowercase(w[0]) == "attack"@ ==> parse_words(w) is Attack
            &&& w.len() > 1 && lowercase(w[0]) == "use"@ ==> parse_words(w) is Use
        }),
{
    let w = words(line);
    lemma_words_are_words(line);
    if w.len() > 0 {
        let r = w.skip(1);
        assert forall|i: int| 0 <= i < r.len() implies crate::text::is_word(#[trigger] r[i]) by {
            assert(r[i] == w[i + 1]);
        }
        lemma_join_split(r);
        assert(r =~= w.drop_first());
    }
    lemma_join_split(w);
    reveal_strlit("look");
    reveal_strlit("go");
    reveal_strlit("inspect");
    reveal_strlit("take");
    reveal_strlit("examine");
    reveal_strlit("talk");
    reveal_strlit("attack");
    reveal_strlit("use");
    assert("look"@.len() == 4 && "look"@[0] == 'l');
    assert("go"@.len() == 2);
    assert("inspect"@.len() == 7 && "inspect"@[0] == 'i');
    assert("take"@.len() == 4 && "take"@[0] == 't' && "take"@[2] == 'k');
    assert("examine"@.len() == 7 && "examine"@[0] == 'e');
    assert("talk"@.len() == 4 && "talk"@[0] == 't' && "talk"@[2] == 'l');
    assert("attack"@.len() == 6);
    assert("use"@.len() == 3);
}

/// Only artifacts, consumables and cursed items are consumed by use: a used
/// item is of one of those three kinds and leaves the inventory (one entry
/// fewer); an item of any other kind is reported as not usable, and
/// whenever nothing is used the inventory is as it was.
pub proof fn law_only_usable_items_are_consumed(
    old: Player,
    new: Player,
    items: Seq<Item>,
    name: Seq<char>,
    outcome: UseOutcome,
)
    requires
        use_item_post(old, new, items, name, outcome),
    ensures
        outcome matches UseOutcome::Used { item, .. } ==> {
            let t = items[item as int].item_type@;
            &&& t == "artifact"@ || t == "consumable"@ || t == "cursed"@
            &&& new.inventory@.len() + 1 == old.inventory@.len()
        },
        outcome matches UseOutcome::CannotUse { item } ==> {
            let t = items[item as int].item_type@;
            t != "artifact"@ && t != "consumable"@ && t != "cursed"@
        },
        !(outcome is Used) ==> new.inventory@ == old.inventory@,
        outcome matches UseOutcome::Used { item, .. } ==> exists|i: int|
            0 <= i < old.inventory@.len() && #[trigger] old.inventory@[i].id@
                == items[item as int].id@ && new.inventory@ == old.inventory@.remove(i),
        outcome matches UseOutcome::CannotUse { item } ==> exists|i: int|
            0 <= i < old.inventory@.len() && #[trigger] old.inventory@[i].id@
                == items[item as int].id@,
{
    match outcome {
        UseOutcome::Used { item, .. } => {
            let i = choose|i: int|
                crate::player::first_named(items, old.inventory@, name, i) && find_id(
                    items,
                    #[trigger] old.inventory@[i].id@,
                ) == Some(item as int) && new.inventory@ == old.inventory@.remove(i);
            let id = old.inventory@[i].id@;
            let c = choose|c: int| is_first_id(items, id, c);
            assert(is_first_id(items, id, c));
            assert(items[item as int].id_view() == id);
        },
        UseOutcome::CannotUse { item } => {
            let i = choose|i: int|
                crate::player::first_named(items, old.inventory@, name, i) && find_id(
                    items,
                    #[trigger] old.inventory@[i].id@,
                ) == Some(item as int);
            let id = old.inventory@[i].id@;
            let c = choose|c: int| is_first_id(items, id, c);
            assert(is_first_id(items, id, c));
            assert(items[item as int].id_view() == id);
        },
        _ => {},
    }
}

/// Taking an item moves each of the seven traits by that trait's modifier
/// of the first world item with the identifier (nothing when it has none),
/// and dropping it moves each back.
pub proof fn law_item_modifiers_per_trait(
    old: Player,
    new: Player,
    back: Player,
    items: Seq<Item>,
    id: Seq<char>,
)
    requires
        add_item_post(old, new, items, id),
        remove_item_post(new, back, items, id),
    ensures
        ({
            let m = |o: Option<i32>|
                match o {
                    Some(x) => x as int,
                    None => 0int,
                };
            match effects_of(items, id) {
                Some(e) => {
                    &&& new.intelligence == old.intelligence + m(e.intelligence)
                    &&& new.persistence == old.persistence + m(e.persistence)
                    &&& new.agility == old.agility + m(e.agility)
                    &&& new.charisma == old.charisma + m(e.charisma)
                    &&& new.luck == old.luck + m(e.luck)
                    &&& new.wisdom == old.wisdom + m(e.wisdom)
                    &&& new.strength == old.strength + m(e.strength)
                },
                None => {
                    &&& new.intelligence == old.intelligence
                    &&& new.persistence == old.persistence
                    &&& new.agility == old.agility
                    &&& new.charisma == old.charisma
                    &&& new.luck == old.luck
                    &&& new.wisdom == old.wisdom
                    &&& new.strength == old.strength
                },
            }
        }),
        back.intelligence == old.intelligence,
        back.persistence == old.persistence,
        back.agility == old.agility,
        back.charisma == old.charisma,
        back.luck == old.luck,
        back.wisdom == old.wisdom,
        back.strength == old.strength,
{
    law_remove_undoes_add(old, new, back, items, id);
}

/// Examining a held item whose identifier a world item has exactly always
/// describes a world item: the first one whose identifier is the target or
/// whose name contains it, which comes no later than any item with that
/// identifier.
pub proof fn law_examine_finds_held_item(old: Game, new: Game, target: Seq<char>, r: crate::actions::ExamineOutcome, j: int)
    requires
        examine_post(old, new, target, r),
        old.player.inv_ids().contains(target),
        0 <= j < old.world.items@.len(),
        old.world.items@[j].id@ == target,
    ensures
        r matches crate::actions::ExamineOutcome::Item { item: Some(k) } && k <= j && (
        old.world.items@[k as int].id@ == target || has_substring(
            lowercase(old.world.items@[k as int].name@),
            lowercase(target),
        )),
        new == old,
{
}

} // verus!
