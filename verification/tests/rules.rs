use serverness::battle::{
    battle_round, enemy_round, enemy_turn, player_turn, trim_str, BattleAction, Draws, EnemyMove,
    TurnOutcome,
};
use serverness::commands::{match_id_or_name, Command};
use serverness::game::Ending;
use serverness::player::{saturating_add_i32, saturating_sub_i32, Player, UseOutcome};
use serverness::quest::handle_event;
use serverness::structs::{
    Effects, Enemy, IdRef, Item, LoreObject, Npc, Quest, QuestAction, QuestStep, Room, World,
};
use serverness::text::{contains_str, eq_ignore_ascii_case, is_whitespace, join_words, split_words};
use serverness::world::{inject_dynamic_logs, LogPool};

fn s(x: &str) -> String {
    x.to_string()
}

fn effects(hp: Option<i32>, intelligence: Option<i32>, strength: Option<i32>) -> Effects {
    Effects {
        hp,
        strength,
        intelligence,
        persistence: None,
        agility: None,
        charisma: None,
        luck: None,
        wisdom: None,
    }
}

fn item(id: &str, name: &str, kind: &str, fx: Option<Effects>) -> Item {
    Item {
        id: s(id),
        name: s(name),
        description: s("-"),
        item_type: s(kind),
        points: 1,
        effects: fx,
    }
}

fn items_world(items: Vec<Item>) -> World {
    World { rooms: vec![], items, enemies: vec![], npcs: vec![], quests: vec![] }
}

fn quest(id: &str, points: u32, steps: Vec<(QuestAction, &str)>) -> Quest {
    Quest {
        id: s(id),
        name: s(id),
        description: s("-"),
        points,
        current_step: 0,
        completed: false,
        steps: steps
            .into_iter()
            .enumerate()
            .map(|(i, (action, target))| QuestStep {
                id: format!("step{}", i),
                description: s("-"),
                action,
                target_id: s(target),
                completed: false,
            })
            .collect(),
        required_for_ending: None,
    }
}

#[test]
fn whitespace_agrees_with_std_on_every_char() {
    for code in 0u32..0x110000 {
        if let Some(c) = char::from_u32(code) {
            assert_eq!(is_whitespace(c), c.is_whitespace(), "at {:#x}", code);
        }
    }
}

#[test]
fn split_words_matches_split_whitespace() {
    let lines = ["", "  ", "look", "  go   north  ", "a\u{3000}b\tc\nd", "take red key "];
    for line in lines {
        let expected: Vec<String> = line.split_whitespace().map(|w| w.to_string()).collect();
        assert_eq!(split_words(line), expected);
    }
}

#[test]
fn parse_commands() {
    assert!(matches!(Command::parse("look"), Command::Look));
    assert!(matches!(Command::parse("  LOOK  "), Command::Look));
    assert!(matches!(Command::parse("\u{3000}scan"), Command::Scan));
    match Command::parse("go north east") {
        Command::Go(d) => assert_eq!(d, "north"),
        _ => panic!("expected go"),
    }
    match Command::parse("TaKe   red    key") {
        Command::Take(t) => assert_eq!(t, "red key"),
        _ => panic!("expected take"),
    }
    match Command::parse("talk Old Admin") {
        Command::Talk(t) => assert_eq!(t, "Old Admin"),
        _ => panic!("expected talk"),
    }
    match Command::parse("use potion") {
        Command::Use(t) => assert_eq!(t, "potion"),
        _ => panic!("expected use"),
    }
    match Command::parse("attack rat") {
        Command::Attack(t) => assert_eq!(t, "rat"),
        _ => panic!("expected attack"),
    }
    match Command::parse("examine memo") {
        Command::Examine(t) => assert_eq!(t, "memo"),
        _ => panic!("expected examine"),
    }
    match Command::parse("inspect west") {
        Command::Inspect(t) => assert_eq!(t, "west"),
        _ => panic!("expected inspect"),
    }
    assert!(matches!(Command::parse("inventory"), Command::Inventory));
    assert!(matches!(Command::parse("status"), Command::Status));
    assert!(matches!(Command::parse("quests"), Command::Quests));
    assert!(matches!(Command::parse("help"), Command::Help));
}

#[test]
fn parse_keyword_without_argument_is_unknown() {
    match Command::parse("go") {
        Command::Unknown(t) => assert_eq!(t, "go"),
        _ => panic!("expected unknown"),
    }
    match Command::parse("  sudo    reboot ") {
        Command::Unknown(t) => assert_eq!(t, "sudo reboot"),
        _ => panic!("expected unknown"),
    }
}

#[test]
fn parse_blank_line_is_empty_unknown() {
    match Command::parse(" \t\n ") {
        Command::Unknown(t) => assert_eq!(t, ""),
        _ => panic!("expected unknown"),
    }
    match Command::parse("") {
        Command::Unknown(t) => assert_eq!(t, ""),
        _ => panic!("expected unknown"),
    }
}

#[test]
fn text_helpers() {
    assert!(contains_str("memory potion", "potion"));
    assert!(contains_str("abc", ""));
    assert!(!contains_str("ab", "abc"));
    assert!(!contains_str("abc", "cb"));
    assert!(eq_ignore_ascii_case("North", "nORTH"));
    assert!(!eq_ignore_ascii_case("North", "Nort"));
    assert!(!eq_ignore_ascii_case("Ä", "ä"));
    assert_eq!(trim_str("  use  x \u{2003}"), "use  x");
    assert_eq!(trim_str("   "), "");
}

#[test]
fn match_id_or_name_finds_first_match() {
    let a = Npc { id: s("admin"), name: s("Old Admin"), dialogue: s("-"), quest_to_give: None, points: 0 };
    let b = Npc { id: s("oracle"), name: s("The Oracle"), dialogue: s("-"), quest_to_give: None, points: 0 };
    let list = vec![&a, &b];
    assert_eq!(match_id_or_name("ORACLE", &list), Some(1));
    assert_eq!(match_id_or_name("old", &list), Some(0));
    assert_eq!(match_id_or_name("the", &list), Some(1));
    assert_eq!(match_id_or_name("x", &list), None);
    assert_eq!(match_id_or_name("", &list), Some(0));
}

#[test]
fn new_player_and_damage() {
    let mut p = Player::new();
    assert_eq!(p.hp, 35);
    assert_eq!(p.strength, 5);
    assert_eq!(p.points, 0);
    assert!(p.is_alive());
    p.take_damage(10);
    assert_eq!(p.hp, 25);
    p.take_damage(100);
    assert_eq!(p.hp, 0);
    assert!(!p.is_alive());
    p.add_points(12);
    assert_eq!(p.points, 12);
}

#[test]
fn saturating_arithmetic() {
    assert_eq!(saturating_add_i32(i32::MAX, 5), i32::MAX);
    assert_eq!(saturating_add_i32(i32::MIN, -5), i32::MIN);
    assert_eq!(saturating_add_i32(3, -5), -2);
    assert_eq!(saturating_sub_i32(i32::MIN, 8), i32::MIN);
    assert_eq!(saturating_sub_i32(i32::MAX, -1), i32::MAX);
    assert_eq!(saturating_sub_i32(10, 8), 2);
}

#[test]
fn removing_undoes_adding() {
    let world = items_world(vec![item("ring", "Ring", "artifact", Some(effects(None, Some(3), Some(-2))))]);
    let mut p = Player::new();
    p.add_item("ring", &world);
    p.add_item("ring", &world);
    assert_eq!(p.intelligence, 11);
    assert_eq!(p.strength, 1);
    p.remove_item("ring", &world);
    assert_eq!(p.intelligence, 8);
    assert_eq!(p.strength, 3);
    assert_eq!(p.inventory.len(), 1);
    p.remove_item("ring", &world);
    assert_eq!(p.intelligence, 5);
    assert_eq!(p.strength, 5);
    assert!(p.inventory.is_empty());
    // Removing what is not held changes nothing.
    p.remove_item("ring", &world);
    assert_eq!(p.intelligence, 5);
}

#[test]
fn adding_an_unknown_item_changes_no_trait() {
    let world = items_world(vec![]);
    let mut p = Player::new();
    p.add_item("stone", &world);
    assert!(p.has_item("stone"));
    assert!(!p.has_item("Stone"));
    assert_eq!(p.intelligence, 5);
}

#[test]
fn using_items() {
    let world = items_world(vec![
        item("rock", "Plain Rock", "junk", None),
        item("idol", "Cursed Idol", "cursed", Some(effects(Some(-40), None, None))),
        item("tonic", "Tonic", "consumable", Some(effects(Some(i32::MAX), None, None))),
        item("charm", "Charm", "artifact", None),
    ]);
    let mut p = Player::new();
    for id in ["rock", "idol", "tonic", "charm"] {
        p.inventory.push(IdRef { id: s(id) });
    }
    // Not usable: stays in its slot.
    assert_eq!(p.use_item("ROCK", &world), UseOutcome::CannotUse { item: 0 });
    assert_eq!(p.inventory[0].id, "rock");
    assert_eq!(p.inventory.len(), 4);
    assert_eq!(
        p.use_item("idol", &world),
        UseOutcome::Used { item: 1, hp: Some(-40), cursed: true }
    );
    assert_eq!(p.hp, -5);
    assert_eq!(
        p.use_item("ton", &world),
        UseOutcome::Used { item: 2, hp: Some(i32::MAX), cursed: false }
    );
    assert_eq!(p.hp, i32::MAX - 5);
    assert_eq!(p.use_item("charm", &world), UseOutcome::Used { item: 3, hp: None, cursed: false });
    assert_eq!(p.use_item("charm", &world), UseOutcome::NotFound);
    assert_eq!(p.inventory.len(), 1);
    assert!(p.use_item("tonic", &world).is_used() == false);
}

#[test]
fn quest_steps_complete_in_order() {
    let mut quests = vec![
        quest("a", 20, vec![(QuestAction::TalkNpc, "npc"), (QuestAction::CollectItem, "key")]),
        quest("b", 5, vec![(QuestAction::TalkNpc, "npc")]),
    ];
    let mut p = Player::new();
    // Out of order: nothing happens.
    let progress = handle_event(QuestAction::CollectItem, "key", &mut quests, &mut p);
    assert!(progress.is_empty());
    assert_eq!(quests[0].current_step, 0);
    let progress = handle_event(QuestAction::TalkNpc, "npc", &mut quests, &mut p);
    assert_eq!(progress.len(), 2);
    assert_eq!((progress[0].quest, progress[0].finished), (0, false));
    assert_eq!((progress[1].quest, progress[1].finished), (1, true));
    assert_eq!(p.points, 5);
    assert_eq!(p.quests_completed, 1);
    assert!(quests[1].completed);
    let progress = handle_event(QuestAction::CollectItem, "key", &mut quests, &mut p);
    assert_eq!(progress.len(), 1);
    assert!(progress[0].finished);
    assert_eq!(p.points, 25);
    assert_eq!(p.quests_completed, 2);
    // A completed quest never pays again.
    let progress = handle_event(QuestAction::TalkNpc, "npc", &mut quests, &mut p);
    assert!(progress.is_empty());
    assert_eq!(p.points, 25);
}

#[test]
fn quest_events_match_targets_exactly() {
    let mut quests = vec![quest("a", 1, vec![(QuestAction::DefeatEnemy, "rat")])];
    let mut p = Player::new();
    assert!(handle_event(QuestAction::DefeatEnemy, "Rat", &mut quests, &mut p).is_empty());
    assert!(handle_event(QuestAction::TalkNpc, "rat", &mut quests, &mut p).is_empty());
    assert_eq!(handle_event(QuestAction::DefeatEnemy, "rat", &mut quests, &mut p).len(), 1);
}

#[test]
fn battle_actions_parse() {
    assert!(matches!(BattleAction::parse("  Attack\n"), BattleAction::Attack));
    assert!(matches!(BattleAction::parse("BLOCK"), BattleAction::Block));
    assert!(matches!(BattleAction::parse("flee"), BattleAction::Flee));
    match BattleAction::parse("use   Memory Potion ") {
        BattleAction::Use(n) => assert_eq!(n, "memory potion"),
        _ => panic!("expected use"),
    }
    assert!(matches!(BattleAction::parse("use"), BattleAction::Unknown));
    assert!(matches!(BattleAction::parse("dance"), BattleAction::Unknown));
}

#[test]
fn player_turns() {
    let world = items_world(vec![]);
    let mut rng = rand::rng();
    let mut p = Player::new();
    let mut seen = Vec::new();
    for _ in 0..50 {
        let mut hp = 100;
        let draws = Draws { hit: true, crit: false, escape: false };
        let (end, out) = player_turn(&mut p, &mut hp, &BattleAction::Attack, draws, &mut rng, &world);
        assert_eq!(end, None);
        match out {
            TurnOutcome::Strike { damage, crit } => {
                assert!(!crit);
                // 3..=7 plus half of strength 5.
                assert!((5..=9).contains(&damage));
                assert_eq!(hp, 100 - damage);
                if !seen.contains(&damage) {
                    seen.push(damage);
                }
            }
            _ => panic!("expected a strike"),
        }
        let mut hp = 100;
        let draws = Draws { hit: true, crit: true, escape: false };
        match player_turn(&mut p, &mut hp, &BattleAction::Attack, draws, &mut rng, &world).1 {
            TurnOutcome::Strike { damage, crit } => {
                assert!(crit);
                assert!((10..=18).contains(&damage) && damage % 2 == 0);
            }
            _ => panic!("expected a strike"),
        }
    }
    // The roll varies from strike to strike.
    assert!(seen.len() > 1);
    let mut hp = 100;
    let miss = Draws { hit: false, crit: true, escape: false };
    assert_eq!(
        player_turn(&mut p, &mut hp, &BattleAction::Attack, miss, &mut rng, &world),
        (None, TurnOutcome::Missed)
    );
    assert_eq!(hp, 100);
    let run = Draws { hit: false, crit: false, escape: true };
    assert_eq!(
        player_turn(&mut p, &mut hp, &BattleAction::Flee, run, &mut rng, &world),
        (Some(false), TurnOutcome::Escaped)
    );
    assert_eq!(
        player_turn(&mut p, &mut hp, &BattleAction::Flee, miss, &mut rng, &world),
        (None, TurnOutcome::EscapeFailed)
    );
    assert_eq!(
        player_turn(&mut p, &mut hp, &BattleAction::Block, miss, &mut rng, &world),
        (None, TurnOutcome::Blocking)
    );
    assert!(p.status.blocking);
    assert_eq!(
        player_turn(&mut p, &mut hp, &BattleAction::Use(s("x")), miss, &mut rng, &world),
        (None, TurnOutcome::Item(UseOutcome::NotFound))
    );
}

#[test]
fn weak_players_still_never_heal_enemies() {
    let world = items_world(vec![]);
    let mut rng = rand::rng();
    let mut p = Player::new();
    p.strength = -7;
    for _ in 0..50 {
        let mut hp = 10;
        let draws = Draws { hit: true, crit: true, escape: false };
        player_turn(&mut p, &mut hp, &BattleAction::Attack, draws, &mut rng, &world);
        assert!(hp <= 10);
    }
}

#[test]
fn enemy_turns() {
    let mut rng = rand::rng();
    let enemy = Enemy { id: s("rat"), name: s("Rat"), description: s("-"), hp: 5, strength: 6, points: 1 };
    for _ in 0..50 {
        let mut p = Player::new();
        p.status.blocking = true;
        let (alive, mv) = enemy_turn(&mut p, &enemy, true, &mut rng);
        assert!(!p.status.blocking);
        match mv {
            EnemyMove::Struck { damage, blocked } => {
                assert!(blocked);
                // 2..=9, halved.
                assert!((1..=4).contains(&damage));
                assert_eq!(p.hp, 35 - damage);
                assert!(alive);
            }
            _ => panic!("expected a blow"),
        }
        let mut p = Player::new();
        match enemy_turn(&mut p, &enemy, true, &mut rng).1 {
            EnemyMove::Struck { damage, blocked } => {
                assert!(!blocked);
                assert!((2..=9).contains(&damage));
            }
            _ => panic!("expected a blow"),
        }
    }
    let mut p = Player::new();
    p.hp = 1;
    p.status.blocking = true;
    assert_eq!(enemy_turn(&mut p, &enemy, false, &mut rng), (true, EnemyMove::Hung));
    assert_eq!(p.hp, 1);
    assert!(!p.status.blocking);
}

#[test]
fn endings() {
    assert_eq!(Ending::from_input(" 1 "), Some(Ending::Accept));
    assert_eq!(Ending::from_input("PURGE"), Some(Ending::Purge));
    assert_eq!(Ending::from_input("3"), Some(Ending::Loop));
    assert_eq!(Ending::from_input("Override\n"), Some(Ending::Override));
    assert_eq!(Ending::from_input("5"), None);
    assert_eq!(Ending::from_choice("accept"), Some(Ending::Accept));
    assert_eq!(Ending::from_choice("Accept"), None);
    assert_eq!(Ending::Purge.name(), "purge");
}

fn lore(id: &str, generated: Option<bool>) -> LoreObject {
    LoreObject {
        id: s(id),
        name: s(id),
        description: s("-"),
        logs: vec![s("kept line")],
        hidden: false,
        generated,
        trigger_effect: None,
    }
}

fn room(id: usize, role: Option<&str>, lore: Vec<LoreObject>) -> Room {
    Room {
        id,
        name: s("r"),
        description: s("-"),
        points: 0,
        exits: vec![],
        items: vec![],
        enemies: vec![],
        npcs: vec![],
        lore,
        role: role.map(s),
    }
}

#[test]
fn generated_lore_draws_from_the_pool_of_its_role() {
    let mut world = World {
        rooms: vec![
            room(0, Some("boot"), vec![lore("a", Some(true)), lore("b", None), lore("c", Some(false))]),
            room(1, None, vec![lore("d", Some(true))]),
            room(2, Some("storage"), vec![lore("e", Some(true))]),
        ],
        items: vec![],
        enemies: vec![],
        npcs: vec![],
        quests: vec![],
    };
    let boot: Vec<String> = (0..10).map(|i| format!("boot{}", i)).collect();
    let random = vec![s("r1"), s("r2")];
    let pools = vec![
        LogPool { role: s("boot"), lines: boot.clone() },
        LogPool { role: s("random"), lines: random.clone() },
    ];
    let mut rng = rand::rng();
    inject_dynamic_logs(&mut world, &pools, &mut rng);
    let a = &world.rooms[0].lore[0].logs;
    assert_eq!(a.len(), 4);
    for line in a {
        assert!(boot.contains(line));
    }
    let mut sorted = a.clone();
    sorted.sort();
    sorted.dedup();
    assert_eq!(sorted.len(), 4);
    assert_eq!(world.rooms[0].lore[1].logs, vec![s("kept line")]);
    assert_eq!(world.rooms[0].lore[2].logs, vec![s("kept line")]);
    // No role and an unknown role both fall back to "random".
    for r in [1, 2] {
        let mut got = world.rooms[r].lore[0].logs.clone();
        got.sort();
        assert_eq!(got, random);
    }
}

#[test]
fn generated_lore_without_a_pool_keeps_its_logs() {
    let mut world = World {
        rooms: vec![room(0, Some("core"), vec![lore("a", Some(true))])],
        items: vec![],
        enemies: vec![],
        npcs: vec![],
        quests: vec![],
    };
    let pools = vec![LogPool { role: s("boot"), lines: vec![s("x")] }];
    let mut rng = rand::rng();
    inject_dynamic_logs(&mut world, &pools, &mut rng);
    assert_eq!(world.rooms[0].lore[0].logs, vec![s("kept line")]);
}

#[test]
fn battle_rounds_decide_the_fight() {
    let world = items_world(vec![]);
    let mut rng = rand::rng();
    let miss = Draws { hit: false, crit: false, escape: false };
    let run = Draws { hit: false, crit: false, escape: true };
    let hit = Draws { hit: true, crit: true, escape: false };
    // An escape ends the fight lost.
    let mut p = Player::new();
    let mut hp = 50;
    assert_eq!(
        battle_round(&mut p, &mut hp, &BattleAction::Flee, run, &mut rng, &world),
        (Some(false), TurnOutcome::Escaped)
    );
    // An enemy left with no hit points ends it won.
    let mut hp = 1;
    let (end, out) = battle_round(&mut p, &mut hp, &BattleAction::Attack, hit, &mut rng, &world);
    assert_eq!(end, Some(true));
    assert!(matches!(out, TurnOutcome::Strike { .. }));
    assert!(hp <= 0);
    // Otherwise the enemy takes its turn.
    let mut hp = 50;
    assert_eq!(
        battle_round(&mut p, &mut hp, &BattleAction::Attack, miss, &mut rng, &world),
        (None, TurnOutcome::Missed)
    );
    let enemy = Enemy { id: s("rat"), name: s("Rat"), description: s("-"), hp: 5, strength: 6, points: 1 };
    let mut p = Player::new();
    assert_eq!(enemy_round(&mut p, &enemy, false, &mut rng), (None, EnemyMove::Hung));
    let (end, mv) = enemy_round(&mut p, &enemy, true, &mut rng);
    assert_eq!(end, None);
    assert!(matches!(mv, EnemyMove::Struck { .. }));
    // A player out of hit points loses.
    p.hp = 1;
    let (end, _) = enemy_round(&mut p, &enemy, true, &mut rng);
    assert_eq!(end, Some(false));
    assert_eq!(p.hp, 0);
}

#[test]
fn parsing_ignores_spacing() {
    for line in ["  go   north ", "take\tred   key", "\u{3000}talk  Old\nAdmin  ", "look"] {
        let joined = join_words(&split_words(line), 0);
        assert_eq!(
            format!("{:?}", Command::parse(line)),
            format!("{:?}", Command::parse(&joined))
        );
    }
    assert_eq!(join_words(&split_words("  go   north "), 0), "go north");
}
