use serverness::game::Game;
use serverness::structs::{
    Effects, Enemy, Exit, IdRef, Item, LoreObject, Npc, Quest, QuestAction, QuestStep, Room, World,
};

fn s(x: &str) -> String {
    x.to_string()
}

fn idref(x: &str) -> IdRef {
    IdRef { id: s(x) }
}

fn no_effects() -> Effects {
    Effects {
        hp: None,
        strength: None,
        intelligence: None,
        persistence: None,
        agility: None,
        charisma: None,
        luck: None,
        wisdom: None,
    }
}

fn exit(direction: &str, to: usize) -> Exit {
    Exit {
        direction: s(direction),
        to,
        locked: None,
        required_item_id: None,
        required_quest_id: None,
        required_step: None,
        locked_msg: None,
        unlock_hint: None,
    }
}

fn lore(id: &str, name: &str, hidden: bool, effect: Option<&str>) -> LoreObject {
    LoreObject {
        id: s(id),
        name: s(name),
        description: s("a fragment"),
        logs: vec![s("line")],
        hidden,
        generated: None,
        trigger_effect: effect.map(s),
    }
}

fn step(id: &str, action: QuestAction, target: &str) -> QuestStep {
    QuestStep {
        id: s(id),
        description: s("do it"),
        action,
        target_id: s(target),
        completed: false,
    }
}

fn build_world() -> World {
    let mut gate = exit("north", 1);
    gate.locked = Some(true);
    gate.required_item_id = Some(s("keycard"));
    gate.locked_msg = Some(s("Badge required."));
    let mut vault = exit("east", 2);
    vault.locked = Some(true);
    vault.required_quest_id = Some(s("q_boot"));
    vault.required_step = Some(s("s_talk"));
    let lobby = Room {
        id: 0,
        name: s("Lobby"),
        description: s("A quiet lobby."),
        points: 0,
        exits: vec![gate, vault, exit("West", 1)],
        items: vec![idref("keycard"), idref("Potion"), idref("core_terminal_input"), idref("ghost")],
        enemies: vec![idref("rat"), idref("phantom")],
        npcs: vec![idref("admin"), idref("nobody")],
        lore: vec![
            lore("memo", "Old Memo", false, Some("unlock_dev_override")),
            lore("cache", "Hidden Cache", true, Some("spawn_syslog_wraith")),
            lore("dump", "Core Dump", true, Some("weaken_overheating_server")),
        ],
        role: Some(s("boot")),
    };
    let wing = Room {
        id: 1,
        name: s("IT Wing"),
        description: s("Racks hum."),
        points: 10,
        exits: vec![exit("south", 0)],
        items: vec![],
        enemies: vec![],
        npcs: vec![],
        lore: vec![],
        role: None,
    };
    let vault_room = Room {
        id: 2,
        name: s("Vault"),
        description: s("Cold."),
        points: 25,
        exits: vec![exit("west", 0)],
        items: vec![],
        enemies: vec![],
        npcs: vec![],
        lore: vec![],
        role: Some(s("storage")),
    };
    let mut potion_fx = no_effects();
    potion_fx.hp = Some(10);
    let mut card_fx = no_effects();
    card_fx.intelligence = Some(2);
    card_fx.luck = Some(-1);
    World {
        rooms: vec![lobby, wing, vault_room],
        items: vec![
            Item {
                id: s("keycard"),
                name: s("Access Keycard"),
                description: s("Opens doors."),
                item_type: s("key"),
                points: 5,
                effects: Some(card_fx),
            },
            Item {
                id: s("potion"),
                name: s("Memory Potion"),
                description: s("Restores."),
                item_type: s("consumable"),
                points: 3,
                effects: Some(potion_fx),
            },
            Item {
                id: s("core_terminal_input"),
                name: s("Core Terminal"),
                description: s("The end."),
                item_type: s("terminal"),
                points: 0,
                effects: None,
            },
        ],
        enemies: vec![
            Enemy {
                id: s("rat"),
                name: s("Packet Rat"),
                description: s("Small."),
                hp: 6,
                strength: 2,
                points: 15,
            },
            Enemy {
                id: s("overheating_server"),
                name: s("Overheating Server"),
                description: s("Hot."),
                hp: 20,
                strength: 4,
                points: 30,
            },
        ],
        npcs: vec![Npc {
            id: s("admin"),
            name: s("Old Admin"),
            dialogue: s("Hello."),
            quest_to_give: Some(s("q_boot")),
            points: 7,
        }],
        quests: vec![Quest {
            id: s("q_boot"),
            name: s("Reboot"),
            description: s("Bring it back."),
            points: 50,
            current_step: 0,
            completed: false,
            steps: vec![
                step("s_talk", QuestAction::TalkNpc, "admin"),
                step("s_key", QuestAction::CollectItem, "keycard"),
            ],
            required_for_ending: Some(true),
        }],
    }
}

// A session in a small world of three rooms.
pub fn new_game() -> Game {
    Game::new(build_world(), uuid::Uuid::nil())
}

use serverness::actions::{
    check_examine, check_go, check_scan, check_take, check_talk, AttackOutcome, ExamineOutcome,
    GoOutcome, Hidden, TakeOutcome, TalkOutcome, UseResult,
};
use serverness::commands::{handle_trigger_effect, Command, Response, TriggerOutcome};
use serverness::game::Ending;
use serverness::player::UseOutcome;

fn run(game: &mut Game, line: &str) -> Response {
    let cmd = Command::parse(line);
    assert!(cmd.fits(game));
    cmd.run(game).expect("the command fits")
}

#[test]
fn new_game_is_well_formed_and_ready() {
    let game = new_game();
    assert!(game.check_wf());
    assert!(check_go(&game, "west"));
    assert!(check_take(&game, "keycard"));
    assert!(check_talk(&game, "admin"));
    assert!(check_examine(&game, "memo"));
    assert!(check_scan(&game));
    assert_eq!(game.current_room, 0);
    assert!(game.running);
    assert_eq!(game.player.hp, 35);
}

#[test]
fn look_lists_resolved_things_and_visible_lore() {
    let mut game = new_game();
    match run(&mut game, "look") {
        Response::Look(v) => {
            assert_eq!(v.room, 0);
            // "Potion" and "ghost" have no definition with that exact id.
            assert_eq!(v.items, vec![0, 2]);
            // "phantom" has no definition.
            assert_eq!(v.enemies, vec![0]);
            assert_eq!(v.npcs, vec![0]);
            assert_eq!(v.exits, vec![(0, 1), (1, 2), (2, 1)]);
            assert_eq!(v.lore, vec![0]);
        }
        _ => panic!("expected a look"),
    }
}

#[test]
fn go_is_blocked_without_the_required_item() {
    let mut game = new_game();
    match run(&mut game, "go NORTH") {
        Response::Go(GoOutcome::Blocked { exit }) => assert_eq!(exit, 0),
        _ => panic!("expected a blocked exit"),
    }
    assert_eq!(game.current_room, 0);
    assert_eq!(game.player.points, 0);
}

#[test]
fn go_passes_with_the_item_and_scores_the_room() {
    let mut game = new_game();
    game.player.inventory.push(IdRef { id: s("keycard") });
    match run(&mut game, "go north") {
        Response::Go(GoOutcome::Moved { exit, room }) => {
            assert_eq!(exit, 0);
            assert_eq!(room, 1);
        }
        _ => panic!("expected a move"),
    }
    assert_eq!(game.current_room, 1);
    assert_eq!(game.player.points, 10);
}

#[test]
fn go_unlocked_exit_matches_case_insensitively() {
    let mut game = new_game();
    match run(&mut game, "go west") {
        Response::Go(GoOutcome::Moved { exit, room }) => {
            assert_eq!(exit, 2);
            assert_eq!(room, 1);
        }
        _ => panic!("expected a move"),
    }
}

#[test]
fn go_nowhere() {
    let mut game = new_game();
    assert!(matches!(run(&mut game, "go up"), Response::Go(GoOutcome::NoExit)));
}

#[test]
fn quest_gate_opens_after_the_step_is_done() {
    let mut game = new_game();
    assert!(matches!(
        run(&mut game, "go east"),
        Response::Go(GoOutcome::Blocked { exit: 1 })
    ));
    match run(&mut game, "talk admin") {
        Response::Talk(TalkOutcome::Talked { npc, new_quest, progress }) => {
            assert_eq!(npc, 0);
            assert_eq!(new_quest, Some(0));
            assert_eq!(progress.len(), 1);
            assert_eq!(progress[0].quest, 0);
            assert!(!progress[0].finished);
        }
        _ => panic!("expected a talk"),
    }
    assert_eq!(game.player.points, 7);
    assert_eq!(game.quests.len(), 1);
    assert_eq!(game.quests[0].current_step, 1);
    assert!(game.quests[0].steps[0].completed);
    match run(&mut game, "go east") {
        Response::Go(GoOutcome::Moved { room, .. }) => assert_eq!(room, 2),
        _ => panic!("expected a move"),
    }
    assert_eq!(game.player.points, 32);
}

#[test]
fn talking_twice_does_not_take_the_quest_twice() {
    let mut game = new_game();
    run(&mut game, "talk old admin");
    match run(&mut game, "talk ADMIN") {
        Response::Talk(TalkOutcome::Talked { new_quest, progress, .. }) => {
            assert_eq!(new_quest, None);
            assert!(progress.is_empty());
        }
        _ => panic!("expected a talk"),
    }
    assert_eq!(game.quests.len(), 1);
    assert_eq!(game.player.points, 14);
}

#[test]
fn talk_to_no_one() {
    let mut game = new_game();
    assert!(matches!(
        run(&mut game, "talk stranger"),
        Response::Talk(TalkOutcome::NoInterface)
    ));
    assert_eq!(game.player.points, 0);
}

#[test]
fn inspect_reports_what_a_gate_lacks() {
    let mut game = new_game();
    match run(&mut game, "inspect North") {
        Response::Inspect(Some(v)) => {
            assert_eq!(v.exit, 0);
            assert_eq!(v.missing_item, Some(Some(0)));
            assert!(!v.step_incomplete);
            assert_eq!(v.dest, Some(1));
        }
        _ => panic!("expected a gate"),
    }
    match run(&mut game, "inspect east") {
        Response::Inspect(Some(v)) => {
            assert_eq!(v.missing_item, None);
            assert!(v.step_incomplete);
            assert_eq!(v.dest, Some(2));
        }
        _ => panic!("expected a gate"),
    }
    assert!(matches!(run(&mut game, "inspect down"), Response::Inspect(None)));
}

#[test]
fn take_moves_the_item_applies_modifiers_and_advances_quests() {
    let mut game = new_game();
    run(&mut game, "talk admin");
    let before_int = game.player.intelligence;
    let before_luck = game.player.luck;
    match run(&mut game, "take KEYCARD") {
        Response::Take(TakeOutcome::Taken { slot, item, progress }) => {
            assert_eq!(slot, 0);
            assert_eq!(item, 0);
            assert_eq!(progress.len(), 1);
            assert!(progress[0].finished);
        }
        _ => panic!("expected a take"),
    }
    assert!(game.player.has_item("keycard"));
    assert_eq!(game.player.intelligence, before_int + 2);
    assert_eq!(game.player.luck, before_luck - 1);
    // 7 for talking, 5 for the keycard, 50 for the quest.
    assert_eq!(game.player.points, 62);
    assert_eq!(game.player.quests_completed, 1);
    assert!(game.quests[0].completed);
    assert!(game.quests[0].all_done());
    assert_eq!(game.world.rooms[0].items.len(), 3);
}

#[test]
fn take_of_an_undefined_item_still_empties_the_slot() {
    let mut game = new_game();
    match run(&mut game, "take ghost") {
        Response::Take(TakeOutcome::Undefined { slot }) => assert_eq!(slot, 3),
        _ => panic!("expected an undefined item"),
    }
    assert_eq!(game.world.rooms[0].items.len(), 3);
    assert!(game.player.inventory.is_empty());
}

#[test]
fn take_of_a_missing_item() {
    let mut game = new_game();
    assert!(matches!(run(&mut game, "take sword"), Response::Take(TakeOutcome::NotHere)));
}

#[test]
fn examine_held_item_and_visible_lore() {
    let mut game = new_game();
    game.player.inventory.push(IdRef { id: s("potion") });
    match run(&mut game, "examine potion") {
        Response::Examine(ExamineOutcome::Item { item }) => assert_eq!(item, Some(1)),
        _ => panic!("expected an item"),
    }
    match run(&mut game, "examine memo") {
        Response::Examine(ExamineOutcome::Lore { lore, effect, progress }) => {
            assert_eq!(lore, 0);
            assert_eq!(effect, Some(TriggerOutcome::DevOverride));
            assert!(progress.is_empty());
        }
        _ => panic!("expected lore"),
    }
    // Hidden lore cannot be examined.
    assert!(matches!(
        run(&mut game, "examine cache"),
        Response::Examine(ExamineOutcome::Nothing)
    ));
}

#[test]
fn scan_reads_hidden_lore_and_sets_off_its_effects() {
    let mut game = new_game();
    match run(&mut game, "scan") {
        Response::Scan(entries) => {
            assert_eq!(entries.len(), 2);
            assert_eq!(entries[0].lore, 1);
            assert_eq!(entries[0].effect, Some(TriggerOutcome::SpawnWraith { spawned: true }));
            assert_eq!(entries[1].lore, 2);
            assert_eq!(entries[1].effect, Some(TriggerOutcome::WeakenServer { weakened: true }));
        }
        _ => panic!("expected a scan"),
    }
    assert_eq!(game.world.rooms[1].enemies.len(), 1);
    assert_eq!(game.world.rooms[1].enemies[0].id, "syslog_wraith");
    assert_eq!(game.world.enemies[1].hp, 12);
    // The wraith spawns only once.
    match run(&mut game, "scan") {
        Response::Scan(entries) => {
            assert_eq!(entries[0].effect, Some(TriggerOutcome::SpawnWraith { spawned: false }));
        }
        _ => panic!("expected a scan"),
    }
    assert_eq!(game.world.rooms[1].enemies.len(), 1);
    assert_eq!(game.world.enemies[1].hp, 4);
}

#[test]
fn attack_removes_the_enemy_and_a_win_scores() {
    let mut game = new_game();
    match run(&mut game, "attack RAT") {
        Response::Attack(AttackOutcome::Fight { slot, enemy }) => {
            assert_eq!(slot, 0);
            assert_eq!(enemy, 0);
            assert!(game.check_battle_award(enemy));
            let progress = game.conclude_battle(enemy, true);
            assert!(progress.is_empty());
        }
        _ => panic!("expected a fight"),
    }
    assert_eq!(game.world.rooms[0].enemies.len(), 1);
    assert_eq!(game.player.points, 15);
    match run(&mut game, "attack phantom") {
        Response::Attack(AttackOutcome::Undefined { slot }) => assert_eq!(slot, 0),
        _ => panic!("expected an undefined enemy"),
    }
    assert!(game.world.rooms[0].enemies.is_empty());
    assert!(matches!(
        run(&mut game, "attack rat"),
        Response::Attack(AttackOutcome::NoEnemy)
    ));
}

#[test]
fn a_lost_fight_scores_nothing() {
    let mut game = new_game();
    let progress = game.conclude_battle(0, false);
    assert!(progress.is_empty());
    assert_eq!(game.player.points, 0);
}

#[test]
fn use_falls_back_to_the_room_and_opens_the_terminal() {
    let mut game = new_game();
    match run(&mut game, "use CORE_TERMINAL_INPUT") {
        Response::Use(UseResult::Terminal { attempt }) => {
            assert_eq!(attempt, UseOutcome::NotFound)
        }
        _ => panic!("expected the terminal"),
    }
    match run(&mut game, "use keycard") {
        Response::Use(UseResult::CannotUse { attempt, item }) => {
            assert_eq!(attempt, UseOutcome::NotFound);
            assert_eq!(item, 0);
        }
        _ => panic!("expected an unusable item"),
    }
    match run(&mut game, "use sword") {
        Response::Use(UseResult::NotFound { .. }) => {}
        _ => panic!("expected nothing to use"),
    }
}

#[test]
fn use_of_a_held_consumable_heals() {
    let mut game = new_game();
    game.player.inventory.push(IdRef { id: s("potion") });
    match run(&mut game, "use memory") {
        Response::Use(UseResult::Used(UseOutcome::Used { item, hp, cursed })) => {
            assert_eq!(item, 1);
            assert_eq!(hp, Some(10));
            assert!(!cursed);
        }
        _ => panic!("expected a use"),
    }
    assert_eq!(game.player.hp, 45);
    assert!(game.player.inventory.is_empty());
}

#[test]
fn hidden_commands() {
    let mut game = new_game();
    assert!(matches!(run(&mut game, "sudo   reboot"), Response::Unknown(Hidden::Reboot)));
    assert!(matches!(run(&mut game, "echo $USER"), Response::Unknown(Hidden::WhoAmI)));
    assert!(matches!(run(&mut game, "ls"), Response::Unknown(Hidden::Listing)));
    assert!(matches!(run(&mut game, "grep -r secrets"), Response::Unknown(Hidden::Grep)));
    assert!(matches!(run(&mut game, "dance"), Response::Unknown(Hidden::NotRecognized)));
    assert!(matches!(run(&mut game, "help"), Response::Help));
    assert!(matches!(run(&mut game, "status"), Response::Status));
    assert!(matches!(run(&mut game, "quests"), Response::Quests));
}

#[test]
fn inventory_listing_resolves_entries() {
    let mut game = new_game();
    game.player.inventory.push(IdRef { id: s("potion") });
    game.player.inventory.push(IdRef { id: s("mystery") });
    match run(&mut game, "inventory") {
        Response::Inventory(lines) => {
            assert_eq!(lines.len(), 2);
            assert_eq!(lines[0].slot, 0);
            assert_eq!(lines[0].item, Some(1));
            assert_eq!(lines[1].item, None);
        }
        _ => panic!("expected a listing"),
    }
}

#[test]
fn final_terminal_ends_the_session() {
    let mut game = new_game();
    assert!(!game.offers_override());
    assert_eq!(game.finalize_ending("reboot"), None);
    assert!(game.running);
    assert!(game.check_event_fits(QuestAction::UseTerminal, "core_terminal_input"));
    let progress = game.trigger_final_terminal(Ending::Loop);
    assert!(progress.is_empty());
    assert!(!game.running);
}

#[test]
fn trigger_effect_outcomes() {
    let mut game = new_game();
    assert_eq!(
        handle_trigger_effect("mark_player_corruption", &mut game),
        TriggerOutcome::Corruption
    );
    assert_eq!(
        handle_trigger_effect("unlock_alternate_decision", &mut game),
        TriggerOutcome::AlternateEnding
    );
    assert_eq!(handle_trigger_effect("nonsense", &mut game), TriggerOutcome::Unknown);
    assert_eq!(
        handle_trigger_effect("spawn_syslog_wraith", &mut game),
        TriggerOutcome::SpawnWraith { spawned: true }
    );
    assert_eq!(
        handle_trigger_effect("spawn_syslog_wraith", &mut game),
        TriggerOutcome::SpawnWraith { spawned: false }
    );
    game.world.enemies.clear();
    assert_eq!(
        handle_trigger_effect("weaken_overheating_server", &mut game),
        TriggerOutcome::WeakenServer { weakened: false }
    );
}

#[test]
fn readiness_checks_detect_overflow_risks() {
    let mut game = new_game();
    game.player.points = u32::MAX - 4;
    // Entering the wing (10 points) would overflow; a locked exit or no exit adds nothing.
    assert!(!check_go(&game, "west"));
    assert!(check_go(&game, "north"));
    assert!(check_go(&game, "up"));
    assert!(!Command::parse("go west").fits(&game));
    assert!(Command::parse("go north").fits(&game));
    assert!(Command::parse("look").fits(&game));
    // The keycard scores 5, the potion 3; an undefined or absent item adds nothing.
    assert!(!check_take(&game, "keycard"));
    assert!(check_take(&game, "potion"));
    assert!(check_take(&game, "ghost"));
    assert!(check_take(&game, "nothing"));
    // The admin scores 7; no NPC matches "nobody".
    assert!(!check_talk(&game, "admin"));
    assert!(check_talk(&game, "nobody"));
    assert!(check_examine(&game, "memo"));
    assert!(check_scan(&game));
    assert!(game.check_event_fits(QuestAction::UseTerminal, "core_terminal_input"));
    let mut game = new_game();
    game.player.intelligence = i32::MAX;
    assert!(!check_take(&game, "keycard"));
    assert!(check_take(&game, "potion"));
    assert!(check_talk(&game, "admin"));
    let mut game = new_game();
    game.world.rooms[0].exits[2].to = 9;
    assert!(game.check_wf());
    assert!(!check_go(&game, "west"));
    assert!(check_go(&game, "north"));
    let mut game = new_game();
    game.current_room = 3;
    assert!(!game.check_wf());
    assert!(!Command::parse("look").fits(&game));
    assert!(Command::parse("look").run(&mut game).is_none());
}

#[test]
fn refusals_add_nothing_even_at_the_top_of_the_score() {
    let mut game = new_game();
    game.player.points = u32::MAX;
    match run(&mut game, "go north") {
        Response::Go(GoOutcome::Blocked { exit }) => assert_eq!(exit, 0),
        _ => panic!("expected a blocked exit"),
    }
    match run(&mut game, "take ghost") {
        Response::Take(TakeOutcome::Undefined { slot }) => assert_eq!(slot, 3),
        _ => panic!("expected an undefined item"),
    }
    match run(&mut game, "take nothing") {
        Response::Take(TakeOutcome::NotHere) => {}
        _ => panic!("expected no item"),
    }
    assert_eq!(game.player.points, u32::MAX);
    assert!(Command::parse("go west").run(&mut game).is_none());
    assert_eq!(game.current_room, 0);
}

#[test]
fn quest_awards_count_towards_the_checks() {
    let mut game = new_game();
    game.quests.push(Quest {
        id: s("q_read"),
        name: s("Archivist"),
        description: s("Read everything."),
        points: 50,
        current_step: 0,
        completed: false,
        steps: vec![
            step("s_memo", QuestAction::ReadLore, "memo"),
        ],
        required_for_ending: None,
    });
    game.quests.push(Quest {
        id: s("q_dump"),
        name: s("Forensics"),
        description: s("Read the dump."),
        points: 40,
        current_step: 0,
        completed: false,
        steps: vec![
            step("s_cache", QuestAction::ReadLore, "cache"),
            step("s_dump", QuestAction::ReadLore, "dump"),
        ],
        required_for_ending: None,
    });
    game.player.points = u32::MAX - 45;
    // Reading the memo completes the first quest (50 points): too much.
    assert!(!check_examine(&game, "memo"));
    // Scanning reads the cache, then the dump, completing the second quest (40 points).
    assert!(check_scan(&game));
    game.player.points = u32::MAX - 39;
    assert!(!check_scan(&game));
    game.player.points = u32::MAX - 40;
    match run(&mut game, "scan") {
        Response::Scan(entries) => assert_eq!(entries.len(), 2),
        _ => panic!("expected a scan"),
    }
    assert_eq!(game.player.points, u32::MAX);
    assert_eq!(game.player.quests_completed, 1);
    let mut game = new_game();
    game.player.quests_completed = u32::MAX;
    game.player.points = 0;
    // Talking to the admin hands out the reboot quest, whose first step is that talk.
    assert!(check_talk(&game, "admin"));
    assert!(game.check_battle_award(0));
    assert!(!game.check_battle_award(7));
}

#[test]
fn current_room_mut_edits_the_current_room() {
    let mut game = new_game();
    game.current_room_mut().name = s("Foyer");
    assert_eq!(game.current_room().name, "Foyer");
    assert_eq!(game.world.rooms[0].name, "Foyer");
}
