//! Combat: what a turn of the player and a turn of the enemy do to the two
//! fighters. The chances of hitting, of a critical hit and of escaping are
//! fractional probabilities, drawn by the caller; the damage rolls are drawn
//! here from the game's random number generator.
use crate::player::{clamp_i32, saturating_sub_i32, use_item_post, Player, UseOutcome};
use crate::structs::{Enemy, Item, World};
use crate::text::{is_ws, lowercase, str_eq, to_lowercase};
use rand::rngs::ThreadRng;
use rand::Rng;
use vstd::prelude::*;
use vstd::string::StrSliceExecFns;
use vstd::string::StringExecFns;

verus! {

/// The thread-local random number generator of `rand`.
#[verifier::external_type_specification]
#[verifier::external_body]
pub struct ExThreadRng(rand::rngs::ThreadRng);

/// Calls `Rng::random_range` on `low..high`, which draws uniformly from the
/// half-open range; the contract claims only that the result lies in it.
/// The call panics on an empty range, which `requires` leaves out.
#[verifier::external_body]
pub(crate) fn random_in(rng: &mut ThreadRng, low: i32, high: i32) -> (r: i32)
    requires
        low < high,
    ensures
        low <= r < high,
{
    rng.random_range(low..high)
}

/// `x / 2` rounded toward zero, as Rust's integer division does.
pub open spec fn half_toward_zero(x: int) -> int {
    if x >= 0 {
        x / 2
    } else {
        -((-x) / 2)
    }
}

/// `x / 2` rounded toward zero.
pub fn halve(x: i32) -> (r: i32)
    ensures
        r == half_toward_zero(x as int),
{
    if x >= 0 {
        x / 2
    } else {
        let y: i64 = -(x as i64);
        let h: i64 = y / 2;
        -(h as i32)
    }
}

/// `s` without its leading whitespace.
pub open spec fn trim_start(s: Seq<char>) -> Seq<char>
    decreases s.len(),
{
    if s.len() > 0 && is_ws(s[0]) {
        trim_start(s.drop_first())
    } else {
        s
    }
}

/// `s` without its trailing whitespace.
pub open spec fn trim_end(s: Seq<char>) -> Seq<char>
    decreases s.len(),
{
    if s.len() > 0 && is_ws(s.last()) {
        trim_end(s.drop_last())
    } else {
        s
    }
}

/// `s` without leading and trailing whitespace (what `str::trim` yields).
pub open spec fn trim(s: Seq<char>) -> Seq<char> {
    trim_end(trim_start(s))
}

proof fn lemma_trim_start_skip(s: Seq<char>, i: int)
    requires
        0 <= i <= s.len(),
        forall|k: int| 0 <= k < i ==> is_ws(#[trigger] s[k]),
    ensures
        trim_start(s) == trim_start(s.skip(i)),
    decreases i,
{
    if i > 0 {
        let t = s.drop_first();
        assert forall|k: int| 0 <= k < i - 1 implies is_ws(#[trigger] t[k]) by {
            assert(t[k] == s[k + 1]);
        }
        lemma_trim_start_skip(t, i - 1);
        assert(t.skip(i - 1) =~= s.skip(i));
    } else {
        assert(s.skip(0) =~= s);
    }
}

proof fn lemma_trim_end_take(s: Seq<char>, j: int)
    requires
        0 <= j <= s.len(),
        forall|k: int| j <= k < s.len() ==> is_ws(#[trigger] s[k]),
    ensures
        trim_end(s) == trim_end(s.take(j)),
    decreases s.len() - j,
{
    if j < s.len() {
        let t = s.drop_last();
        lemma_trim_end_take(t, j);
        assert(t.take(j) =~= s.take(j));
    } else {
        assert(s.take(j) =~= s);
    }
}

/// `s` without leading and trailing whitespace.
pub fn trim_str(s: &str) -> (r: String)
    ensures
        r@ == trim(s@),
{
    let cs = crate::text::chars_of(s);
    let n = cs.len();
    let mut i: usize = 0;
    while i < n && crate::text::is_whitespace(cs[i])
        invariant
            cs@ == s@,
            n == cs@.len(),
            i <= n,
            forall|k: int| 0 <= k < i ==> is_ws(#[trigger] s@[k]),
        decreases n - i,
    {
        i = i + 1;
    }
    proof {
        lemma_trim_start_skip(s@, i as int);
    }
    let ghost t = s@.skip(i as int);
    assert(t.len() == 0 || !is_ws(t[0]));
    assert(trim_start(t) == t);
    let mut j: usize = n;
    while j > i && crate::text::is_whitespace(cs[j - 1])
        invariant
            cs@ == s@,
            n == cs@.len(),
            i <= j <= n,
            forall|k: int| j <= k < n ==> is_ws(#[trigger] s@[k]),
        decreases j,
    {
        j = j - 1;
    }
    proof {
        let u = t.take(j - i);
        assert forall|k: int| j - i <= k < t.len() implies is_ws(#[trigger] t[k]) by {
            assert(t[k] == s@[k + i]);
        }
        lemma_trim_end_take(t, j - i);
        assert(u =~= s@.subrange(i as int, j as int));
        if u.len() > 0 {
            assert(u.last() == s@[j - 1]);
        }
        assert(trim_end(u) == u);
    }
    String::from_str(s.substring_char(i, j))
}

/// What the player does on a turn of combat.
#[derive(Debug)]
pub enum BattleAction {
    Attack,
    Block,
    Flee,
    /// Use the item whose name matches.
    Use(String),
    Unknown,
}

/// The spec form of a battle action.
pub enum BattleActionView {
    Attack,
    Block,
    Flee,
    Use(Seq<char>),
    Unknown,
}

impl View for BattleAction {
    type V = BattleActionView;

    open spec fn view(&self) -> BattleActionView {
        match self {
            BattleAction::Attack => BattleActionView::Attack,
            BattleAction::Block => BattleActionView::Block,
            BattleAction::Flee => BattleActionView::Flee,
            BattleAction::Use(s) => BattleActionView::Use(s@),
            BattleAction::Unknown => BattleActionView::Unknown,
        }
    }
}

/// The action a line of input names: the trimmed line in lower case is
/// `attack`, `block`, `flee`, or `use ` followed by an item name.
pub open spec fn battle_action_of(input: Seq<char>) -> BattleActionView {
    let t = lowercase(trim(input));
    if t == "attack"@ {
        BattleActionView::Attack
    } else if t == "block"@ {
        BattleActionView::Block
    } else if t == "flee"@ {
        BattleActionView::Flee
    } else if t.len() >= 4 && t.take(4) == "use "@ {
        BattleActionView::Use(trim(t.skip(4)))
    } else {
        BattleActionView::Unknown
    }
}

impl BattleAction {
    /// Reads a line of combat input.
    pub fn parse(input: &str) -> (a: BattleAction)
        ensures
            a@ == battle_action_of(input@),
    {
        let t = trim_str(input);
        let l = to_lowercase(t.as_str());
        let s = l.as_str();
        if str_eq(s, "attack") {
            BattleAction::Attack
        } else if str_eq(s, "block") {
            BattleAction::Block
        } else if str_eq(s, "flee") {
            BattleAction::Flee
        } else {
            let n = s.unicode_len();
            if n >= 4 && str_eq(s.substring_char(0, 4), "use ") {
                let rest = s.substring_char(4, n);
                assert(rest@ =~= s@.skip(4));
                BattleAction::Use(trim_str(rest))
            } else {
                proof {
                    if s@.len() >= 4 {
                        assert(s@.subrange(0, 4) =~= s@.take(4));
                    }
                }
                BattleAction::Unknown
            }
        }
    }
}

/// The chances drawn for a turn: whether an attack lands, whether it is a
/// critical hit, and whether an escape succeeds.
#[derive(Debug, Clone, Copy, PartialEq, Eq, Structural)]
pub struct Draws {
    pub hit: bool,
    pub crit: bool,
    pub escape: bool,
}

/// What a turn of the player did.
#[derive(Debug, Clone, Copy, PartialEq, Eq, Structural)]
pub enum TurnOutcome {
    /// The attack landed for `damage`, doubled when `crit`.
    Strike { damage: i32, crit: bool },
    Missed,
    Blocking,
    Escaped,
    EscapeFailed,
    /// An item was tried, with this outcome.
    Item(UseOutcome),
    Unknown,
}

/// The damage of a strike: the roll plus half the strength (rounded toward
/// zero), doubled on a critical hit.
pub open spec fn strike_damage(roll: int, strength: int, crit: bool) -> int {
    let base = roll + half_toward_zero(strength);
    if crit {
        base * 2
    } else {
        base
    }
}

/// What a turn of the player did to the player (`old` to `new`) and to
/// the enemy's hit points (`old_hp` to `new_hp`), answering `t`.
pub open spec fn turn_post(
    old: Player,
    new: Player,
    old_hp: i32,
    new_hp: i32,
    action: BattleActionView,
    draws: Draws,
    items: Seq<Item>,
    t: TurnOutcome,
) -> bool {
    match action {
        BattleActionView::Attack => if draws.hit {
            &&& t is Strike
            &&& t->crit == draws.crit
            &&& exists|roll: int|
                3 <= roll < 8 && t->damage == #[trigger] strike_damage(
                    roll,
                    old.strength as int,
                    draws.crit,
                )
            &&& new_hp == clamp_i32(old_hp - t->damage)
            &&& new == old
        } else {
            &&& t == TurnOutcome::Missed
            &&& new_hp == old_hp
            &&& new == old
        },
        BattleActionView::Block => {
            &&& t == TurnOutcome::Blocking
            &&& new.status.blocking
            &&& new.same_traits(old)
            &&& new.hp == old.hp
            &&& new.points == old.points
            &&& new.quests_completed == old.quests_completed
            &&& new.inventory == old.inventory
            &&& new_hp == old_hp
        },
        BattleActionView::Flee => {
            &&& t == (if draws.escape {
                TurnOutcome::Escaped
            } else {
                TurnOutcome::EscapeFailed
            })
            &&& new == old
            &&& new_hp == old_hp
        },
        BattleActionView::Use(name) => {
            &&& t is Item
            &&& use_item_post(old, new, items, name, t->0)
            &&& new_hp == old_hp
        },
        BattleActionView::Unknown => {
            &&& t == TurnOutcome::Unknown
            &&& new == old
            &&& new_hp == old_hp
        },
    }
}

/// The player's turn. An attack that lands rolls 3 to 7, adds half the
/// player's strength, doubles it on a critical hit and takes it off the
/// enemy's hit points (saturating). Blocking raises the guard until the
/// enemy's turn. A successful escape ends the fight with `Some(false)`.
pub fn player_turn(
    player: &mut Player,
    enemy_hp: &mut i32,
    action: &BattleAction,
    draws: Draws,
    rng: &mut ThreadRng,
    world: &World,
) -> (r: (Option<bool>, TurnOutcome))
    requires
        action@ is Attack && draws.hit && draws.crit ==> old(player).strength <= i32::MAX - 14,
    ensures
        r.0 == (if r.1 == TurnOutcome::Escaped {
            Some(false)
        } else {
            None
        }),
        turn_post(
            *old(player),
            *final(player),
            *old(enemy_hp),
            *final(enemy_hp),
            action@,
            draws,
            world.items@,
            r.1,
        ),
{
    match action {
        BattleAction::Attack => {
            if draws.hit {
                let roll = random_in(rng, 3, 8);
                let base = roll + halve(player.strength);
                let damage = if draws.crit {
                    base * 2
                } else {
                    base
                };
                *enemy_hp = saturating_sub_i32(*enemy_hp, damage);
                assert(strike_damage(roll as int, player.strength as int, draws.crit) == damage);
                (None, TurnOutcome::Strike { damage, crit: draws.crit })
            } else {
                (None, TurnOutcome::Missed)
            }
        },
        BattleAction::Block => {
            player.status.blocking = true;
            (None, TurnOutcome::Blocking)
        },
        BattleAction::Flee => {
            if draws.escape {
                (Some(false), TurnOutcome::Escaped)
            } else {
                (None, TurnOutcome::EscapeFailed)
            }
        },
        BattleAction::Use(name) => {
            let outcome = player.use_item(name.as_str(), world);
            (None, TurnOutcome::Item(outcome))
        },
        BattleAction::Unknown => (None, TurnOutcome::Unknown),
    }
}

/// The damage of an enemy's roll: halved (toward zero) against a guard.
pub open spec fn enemy_damage(roll: int, blocking: bool) -> int {
    if blocking {
        half_toward_zero(roll)
    } else {
        roll
    }
}

/// What a turn of the enemy did.
#[derive(Debug, Clone, Copy, PartialEq, Eq, Structural)]
pub enum EnemyMove {
    /// The enemy struck for `damage`, already halved when `blocked`.
    Struck { damage: i32, blocked: bool },
    /// The enemy's routine hung and nothing happened.
    Hung,
}

/// What a turn of the enemy did to the player (`old` to `new`), answering
/// `mv`: the guard drops, and an attack rolls from 2 up to the enemy's
/// strength plus 3, halved against the guard, and takes that off the
/// player's hit points, down to 0.
pub open spec fn enemy_turn_post(old: Player, new: Player, enemy: Enemy, attacks: bool, mv: EnemyMove) -> bool {
    &&& !new.status.blocking
    &&& new.same_traits(old)
    &&& new.inventory == old.inventory
    &&& new.points == old.points
    &&& new.quests_completed == old.quests_completed
    &&& attacks ==> {
        &&& mv is Struck
        &&& mv->blocked == old.status.blocking
        &&& exists|roll: int|
            2 <= roll < enemy.strength + 4 && mv->damage == #[trigger] enemy_damage(
                roll,
                old.status.blocking,
            )
        &&& new.hp == if old.hp - mv->damage > 0 {
            old.hp - mv->damage
        } else {
            0
        }
    }
    &&& !attacks ==> mv == EnemyMove::Hung && new.hp == old.hp
}

/// The enemy's turn. When it attacks (`attacks`, drawn by the caller), it
/// rolls from 2 up to its strength plus 3, halved if the player is blocking,
/// and the player takes that damage. The player's guard drops either way.
/// Returns whether the player is still alive.
pub fn enemy_turn(player: &mut Player, enemy: &Enemy, attacks: bool, rng: &mut ThreadRng) -> (r: (
    bool,
    EnemyMove,
))
    requires
        attacks ==> -2 < enemy.strength <= i32::MAX - 4,
        attacks ==> i32::MIN <= old(player).hp - enemy.strength - 3,
    ensures
        enemy_turn_post(*old(player), *final(player), *enemy, attacks, r.1),
        r.0 == (final(player).hp > 0),
{
    let mv = if attacks {
        let roll = random_in(rng, 2, enemy.strength + 4);
        let blocked = player.status.blocking;
        let damage = if blocked {
            halve(roll)
        } else {
            roll
        };
        assert(damage == enemy_damage(roll as int, blocked));
        player.take_damage(damage);
        EnemyMove::Struck { damage, blocked }
    } else {
        EnemyMove::Hung
    };
    player.status.blocking = false;
    (player.is_alive(), mv)
}

/// One round of a fight, up to the enemy's turn: the player's turn, then
/// the decision. An escape ends the fight lost (`Some(false)`); an enemy
/// left with no hit points ends it won (`Some(true)`); otherwise (`None`)
/// the enemy takes its turn.
pub fn battle_round(
    player: &mut Player,
    enemy_hp: &mut i32,
    action: &BattleAction,
    draws: Draws,
    rng: &mut ThreadRng,
    world: &World,
) -> (r: (Option<bool>, TurnOutcome))
    requires
        action@ is Attack && draws.hit && draws.crit ==> old(player).strength <= i32::MAX - 14,
    ensures
        turn_post(
            *old(player),
            *final(player),
            *old(enemy_hp),
            *final(enemy_hp),
            action@,
            draws,
            world.items@,
            r.1,
        ),
        r.0 == if r.1 == TurnOutcome::Escaped {
            Some(false)
        } else if *final(enemy_hp) <= 0 {
            Some(true)
        } else {
            None
        },
{
    let (end, outcome) = player_turn(player, enemy_hp, action, draws, rng, world);
    if end.is_some() {
        return (end, outcome);
    }
    if *enemy_hp <= 0 {
        (Some(true), outcome)
    } else {
        (None, outcome)
    }
}

/// The enemy's turn of a round: the fight ends lost (`Some(false)`) when it
/// leaves the player with no hit points, and goes on (`None`) otherwise.
pub fn enemy_round(player: &mut Player, enemy: &Enemy, attacks: bool, rng: &mut ThreadRng) -> (r: (
    Option<bool>,
    EnemyMove,
))
    requires
        attacks ==> -2 < enemy.strength <= i32::MAX - 4,
        attacks ==> i32::MIN <= old(player).hp - enemy.strength - 3,
    ensures
        enemy_turn_post(*old(player), *final(player), *enemy, attacks, r.1),
        r.0 == if final(player).hp > 0 {
            None
        } else {
            Some(false)
        },
{
    let (alive, mv) = enemy_turn(player, enemy, attacks, rng);
    if alive {
        (None, mv)
    } else {
        (Some(false), mv)
    }
}

} // verus!
