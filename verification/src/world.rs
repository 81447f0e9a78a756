//! Preparing a loaded world: lore marked as generated gets its logs drawn
//! from the pool of lines for the role of its room.
use rand::rngs::ThreadRng;
use crate::structs::{find_by_id, find_id, Identified, LoreObject, Room, World};

use rand::seq::IteratorRandom;
use vstd::prelude::*;

verus! {

/// The lines that generated lore of rooms with a given role draws from.
#[derive(Debug)]
pub struct LogPool {
    pub role: String,
    pub lines: Vec<String>,
}

impl Identified for LogPool {
    open spec fn id_view(&self) -> Seq<char> {
        self.role@
    }

    fn id_str(&self) -> (r: &str) {
        self.role.as_str()
    }
}

/// The lines of a list of strings.
pub open spec fn lines_of(v: Seq<String>) -> Seq<Seq<char>> {
    v.map_values(|s: String| s@)
}

/// The role a room draws its logs for: its own, or "random".
pub open spec fn role_key(role: Option<String>) -> Seq<char> {
    match role {
        Some(r) => r@,
        None => "random"@,
    }
}

/// The pool for a role: the first pool of that role, else the first pool of
/// role "random".
pub open spec fn pool_for(pools: Seq<LogPool>, role: Option<String>) -> Option<int> {
    match find_id(pools, role_key(role)) {
        Some(k) => Some(k),
        None => find_id(pools, "random"@),
    }
}

/// Calls `IteratorRandom::choose_multiple` on the lines, which samples
/// `amount` of them at distinct positions (all when there are fewer) and
/// clones them. The contract claims the length and that the result is a
/// sub-multiset of the lines; which lines, and their order, are left to
/// chance.
#[verifier::external_body]
fn sample_lines(rng: &mut ThreadRng, lines: &Vec<String>, amount: usize) -> (r: Vec<String>)
    ensures
        r@.len() == if lines@.len() < amount {
            lines@.len()
        } else {
            amount as nat
        },
        lines_of(r@).to_multiset().subset_of(lines_of(lines@).to_multiset()),
{
    lines.iter().choose_multiple(rng, amount).into_iter().cloned().collect()
}

/// `new` is `old`, except that its logs were drawn from `pool` when `old`
/// is generated lore and a pool was found.
pub open spec fn lore_refreshed(new: LoreObject, old: LoreObject, pool: Option<Seq<Seq<char>>>) -> bool {
    &&& new.id == old.id
    &&& new.name == old.name
    &&& new.description == old.description
    &&& new.hidden == old.hidden
    &&& new.generated == old.generated
    &&& new.trigger_effect == old.trigger_effect
    &&& if old.generated == Some(true) && pool is Some {
        &&& new.logs@.len() == if pool->0.len() < 4 {
            pool->0.len()
        } else {
            4
        }
        &&& lines_of(new.logs@).to_multiset().subset_of(pool->0.to_multiset())
    } else {
        new.logs == old.logs
    }
}

/// `new` is `old` with its lore refreshed from the pool for its role.
pub open spec fn room_refreshed(new: Room, old: Room, pools: Seq<LogPool>) -> bool {
    let pool = match pool_for(pools, old.role) {
        Some(k) => Some(lines_of(pools[k].lines@)),
        None => None,
    };
    &&& new.id == old.id
    &&& new.name == old.name
    &&& new.description == old.description
    &&& new.points == old.points
    &&& new.exits == old.exits
    &&& new.items == old.items
    &&& new.enemies == old.enemies
    &&& new.npcs == old.npcs
    &&& new.role == old.role
    &&& new.lore@.len() == old.lore@.len()
    &&& forall|j: int|
        0 <= j < old.lore@.len() ==> lore_refreshed(
            #[trigger] new.lore@[j],
            old.lore@[j],
            pool,
        )
}

/// Draws the logs of every piece of generated lore: up to four distinct
/// lines of the pool for its room's role (or of the "random" pool).
pub fn inject_dynamic_logs(world: &mut World, pools: &Vec<LogPool>, rng: &mut ThreadRng)
    ensures
        final(world).rooms@.len() == old(world).rooms@.len(),
        forall|i: int|
            0 <= i < old(world).rooms@.len() ==> room_refreshed(
                #[trigger] final(world).rooms@[i],
                old(world).rooms@[i],
                pools@,
            ),
        final(world).items == old(world).items,
        final(world).enemies == old(world).enemies,
        final(world).npcs == old(world).npcs,
        final(world).quests == old(world).quests,
{
    let ghost r0 = world.rooms@;
    let n = world.rooms.len();
    let mut i: usize = 0;
    while i < n
        invariant
            n == r0.len(),
            world.rooms@.len() == n,
            i <= n,
            forall|k: int| i <= k < n ==> #[trigger] world.rooms@[k] == r0[k],
            forall|k: int| 0 <= k < i ==> room_refreshed(#[trigger] world.rooms@[k], r0[k], pools@),
            world.items == old(world).items,
            world.enemies == old(world).enemies,
            world.npcs == old(world).npcs,
            world.quests == old(world).quests,
        decreases n - i,
    {
        let pool: Option<usize> = {
            let role: &str = match &world.rooms[i].role {
                Some(r) => r.as_str(),
                None => "random",
            };
            match find_by_id(pools, role) {
                Some(k) => Some(k),
                None => find_by_id(pools, "random"),
            }
        };
        let ghost room0 = r0[i as int];
        let ghost pool_lines = match pool {
            Some(k) => Some(lines_of(pools@[k as int].lines@)),
            None => None,
        };
        assert(pool == match pool_for(pools@, room0.role) {
            Some(k) => Some(k as usize),
            None => None::<usize>,
        });
        let ghost rb = world.rooms@;
        let m = world.rooms[i].lore.len();
        let mut j: usize = 0;
        while j < m
            invariant
                n == r0.len(),
                world.rooms@.len() == n,
                i < n,
                room0 == r0[i as int],
                rb.len() == n,
                pool matches Some(k) ==> k < pools@.len(),
                forall|k: int| 0 <= k < n && k != i ==> #[trigger] world.rooms@[k] == rb[k],
                forall|k: int| i < k < n ==> #[trigger] rb[k] == r0[k],
                forall|k: int| 0 <= k < i ==> room_refreshed(#[trigger] rb[k], r0[k], pools@),
                m == room0.lore@.len(),
                j <= m,
                world.rooms@[i as int].lore@.len() == m,
                world.rooms@[i as int].id == room0.id,
                world.rooms@[i as int].name == room0.name,
                world.rooms@[i as int].description == room0.description,
                world.rooms@[i as int].points == room0.points,
                world.rooms@[i as int].exits == room0.exits,
                world.rooms@[i as int].items == room0.items,
                world.rooms@[i as int].enemies == room0.enemies,
                world.rooms@[i as int].npcs == room0.npcs,
                world.rooms@[i as int].role == room0.role,
                forall|t: int| j <= t < m ==> #[trigger] world.rooms@[i as int].lore@[t] == room0.lore@[t],
                forall|t: int|
                    0 <= t < j ==> lore_refreshed(
                        #[trigger] world.rooms@[i as int].lore@[t],
                        room0.lore@[t],
                        pool_lines,
                    ),
                pool_lines == match pool {
                    Some(k) => Some(lines_of(pools@[k as int].lines@)),
                    None => None,
                },
                world.items == old(world).items,
                world.enemies == old(world).enemies,
                world.npcs == old(world).npcs,
                world.quests == old(world).quests,
            decreases m - j,
        {
            let generated = match world.rooms[i].lore[j].generated {
                Some(b) => b,
                None => false,
            };
            if generated {
                if let Some(k) = pool {
                    let lines = sample_lines(rng, &pools[k].lines, 4);
                    world.rooms[i].lore[j].logs = lines;
                }
            }
            j = j + 1;
        }
        i = i + 1;
    }
}

} // verus!
