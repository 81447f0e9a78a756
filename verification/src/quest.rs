//! Quest progress: an event (an action on a target) completes the current
//! step of every open quest that waits for it.
use crate::player::Player;
use crate::structs::{Quest, QuestAction, QuestStep};
use crate::text::str_eq;
use vstd::prelude::*;

verus! {

/// The event completes the current step of quest `q`.
pub open spec fn advances(q: Quest, action: QuestAction, target: Seq<char>) -> bool {
    &&& !q.completed
    &&& q.current_step < q.steps@.len()
    &&& q.steps@[q.current_step as int].action == action
    &&& q.steps@[q.current_step as int].target_id@ == target
    &&& !q.steps@[q.current_step as int].completed
}

/// The event completes the last step of quest `q`, and so the quest.
pub open spec fn completes(q: Quest, action: QuestAction, target: Seq<char>) -> bool {
    advances(q, action, target) && q.current_step + 1 >= q.steps@.len()
}

/// `new` is `old` with its current step marked completed and the quest
/// moved on to the next step, completed when none is left.
pub open spec fn advanced(new: Quest, old: Quest) -> bool {
    let s = old.steps@[old.current_step as int];
    &&& new.steps@ == old.steps@.update(
        old.current_step as int,
        QuestStep { completed: true, ..s },
    )
    &&& new.current_step == old.current_step + 1
    &&& new.completed == (old.current_step + 1 >= old.steps@.len())
    &&& new.id == old.id
    &&& new.name == old.name
    &&& new.description == old.description
    &&& new.points == old.points
    &&& new.required_for_ending == old.required_for_ending
}

/// How many quests of `qs` the event completes.
pub open spec fn count_completing(qs: Seq<Quest>, action: QuestAction, target: Seq<char>) -> nat
    decreases qs.len(),
{
    if qs.len() == 0 {
        0
    } else {
        count_completing(qs.drop_last(), action, target) + if completes(
            qs.last(),
            action,
            target,
        ) {
            1nat
        } else {
            0nat
        }
    }
}

/// The points of the quests of `qs` that the event completes.
pub open spec fn points_completing(qs: Seq<Quest>, action: QuestAction, target: Seq<char>) -> nat
    decreases qs.len(),
{
    if qs.len() == 0 {
        0
    } else {
        points_completing(qs.drop_last(), action, target) + if completes(
            qs.last(),
            action,
            target,
        ) {
            qs.last().points as nat
        } else {
            0nat
        }
    }
}

/// The points of the quests of `qs` that are still open.
pub open spec fn pending_points(qs: Seq<Quest>) -> nat
    decreases qs.len(),
{
    if qs.len() == 0 {
        0
    } else {
        pending_points(qs.drop_last()) + if qs.last().completed {
            0nat
        } else {
            qs.last().points as nat
        }
    }
}

/// How many quests of `qs` are still open.
pub open spec fn pending_count(qs: Seq<Quest>) -> nat
    decreases qs.len(),
{
    if qs.len() == 0 {
        0
    } else {
        pending_count(qs.drop_last()) + if qs.last().completed {
            0nat
        } else {
            1nat
        }
    }
}

/// An event awards no more than the points and count still open.
pub proof fn lemma_completing_le_pending(qs: Seq<Quest>, action: QuestAction, target: Seq<char>)
    ensures
        points_completing(qs, action, target) <= pending_points(qs),
        count_completing(qs, action, target) <= pending_count(qs),
    decreases qs.len(),
{
    if qs.len() > 0 {
        lemma_completing_le_pending(qs.drop_last(), action, target);
    }
}

/// The effect of an event on a list of quests, quest by quest.
pub open spec fn event_applied(
    new: Seq<Quest>,
    old: Seq<Quest>,
    action: QuestAction,
    target: Seq<char>,
) -> bool {
    &&& new.len() == old.len()
    &&& forall|i: int|
        0 <= i < old.len() ==> if advances(#[trigger] old[i], action, target) {
            advanced(new[i], old[i])
        } else {
            new[i] == old[i]
        }
}

/// What an event awards is taken from what was still open: the open points
/// and open count drop by exactly the points and count it awards.
pub proof fn lemma_event_consumes_pending(
    new: Seq<Quest>,
    old: Seq<Quest>,
    action: QuestAction,
    target: Seq<char>,
)
    requires
        event_applied(new, old, action, target),
    ensures
        pending_points(new) + points_completing(old, action, target) == pending_points(old),
        pending_count(new) + count_completing(old, action, target) == pending_count(old),
    decreases old.len(),
{
    if old.len() > 0 {
        let n1 = new.drop_last();
        let o1 = old.drop_last();
        assert forall|i: int|
            0 <= i < o1.len() implies if advances(#[trigger] o1[i], action, target) {
            advanced(n1[i], o1[i])
        } else {
            n1[i] == o1[i]
        } by {
            assert(o1[i] == old[i]);
            assert(n1[i] == new[i]);
        }
        lemma_event_consumes_pending(n1, o1, action, target);
        let l = old.len() - 1;
        assert(old[l] == old.last());
        assert(new[l] == new.last());
    }
}

/// A quest that an event moved on.
#[derive(Debug, Clone, Copy, PartialEq, Eq, Structural)]
pub struct QuestProgress {
    /// Position of the quest.
    pub quest: usize,
    /// Whether the quest is now completed.
    pub finished: bool,
}

/// `progress` lists, in order, exactly the quests of `qs` that the event
/// moves on, each with whether the event completes it.
pub open spec fn reports(
    progress: Seq<QuestProgress>,
    qs: Seq<Quest>,
    action: QuestAction,
    target: Seq<char>,
) -> bool {
    &&& forall|k: int|
        0 <= k < progress.len() ==> {
            &&& #[trigger] progress[k].quest < qs.len()
            &&& advances(qs[progress[k].quest as int], action, target)
            &&& progress[k].finished == completes(qs[progress[k].quest as int], action, target)
        }
    &&& forall|k1: int, k2: int|
        0 <= k1 < k2 < progress.len() ==> #[trigger] progress[k1].quest
            < #[trigger] progress[k2].quest
    &&& forall|i: int|
        0 <= i < qs.len() && advances(#[trigger] qs[i], action, target) ==> exists|k: int|
            0 <= k < progress.len() && #[trigger] progress[k].quest == i
}

/// Completes the current step of every open quest whose current step waits
/// for `action` on `target_id`; a quest whose last step this was is
/// completed, counted and its points awarded.
pub fn handle_event(
    action: QuestAction,
    target_id: &str,
    quests: &mut Vec<Quest>,
    player: &mut Player,
) -> (progress: Vec<QuestProgress>)
    requires
        old(player).points + points_completing(old(quests)@, action, target_id@) <= u32::MAX,
        old(player).quests_completed + count_completing(old(quests)@, action, target_id@)
            <= u32::MAX,
    ensures
        event_applied(final(quests)@, old(quests)@, action, target_id@),
        final(player).points == old(player).points + points_completing(
            old(quests)@,
            action,
            target_id@,
        ),
        final(player).quests_completed == old(player).quests_completed + count_completing(
            old(quests)@,
            action,
            target_id@,
        ),
        final(player).hp == old(player).hp,
        final(player).same_traits(*old(player)),
        final(player).inventory == old(player).inventory,
        final(player).status == old(player).status,
        reports(progress@, old(quests)@, action, target_id@),
{
    let ghost q0 = quests@;
    let mut progress: Vec<QuestProgress> = Vec::new();
    let n = quests.len();
    let mut i: usize = 0;
    while i < n
        invariant
            n == q0.len(),
            quests@.len() == n,
            i <= n,
            forall|j: int|
                i <= j < n ==> #[trigger] quests@[j] == q0[j],
            forall|j: int|
                0 <= j < i ==> if advances(#[trigger] q0[j], action, target_id@) {
                    advanced(quests@[j], q0[j])
                } else {
                    quests@[j] == q0[j]
                },
            player.points == old(player).points + points_completing(
                q0.take(i as int),
                action,
                target_id@,
            ),
            player.quests_completed == old(player).quests_completed + count_completing(
                q0.take(i as int),
                action,
                target_id@,
            ),
            old(player).points + points_completing(q0, action, target_id@) <= u32::MAX,
            old(player).quests_completed + count_completing(q0, action, target_id@) <= u32::MAX,
            player.hp == old(player).hp,
            player.same_traits(*old(player)),
            player.inventory == old(player).inventory,
            player.status == old(player).status,
            forall|k: int|
                0 <= k < progress@.len() ==> {
                    &&& #[trigger] progress@[k].quest < i
                    &&& advances(q0[progress@[k].quest as int], action, target_id@)
                    &&& progress@[k].finished == completes(
                        q0[progress@[k].quest as int],
                        action,
                        target_id@,
                    )
                },
            forall|k1: int, k2: int|
                0 <= k1 < k2 < progress@.len() ==> #[trigger] progress@[k1].quest
                    < #[trigger] progress@[k2].quest,
            forall|j: int|
                0 <= j < i && advances(#[trigger] q0[j], action, target_id@) ==> exists|k: int|
                    0 <= k < progress@.len() && #[trigger] progress@[k].quest == j,
        decreases n - i,
    {
        proof {
            assert(q0.take(i + 1).drop_last() =~= q0.take(i as int));
            lemma_prefix_le(q0, i as int + 1, action, target_id@);
        }
        let ghost qi = q0[i as int];
        if !quests[i].completed {
            let cs = quests[i].current_step;
            if cs < quests[i].steps.len() {
                let hit = quests[i].steps[cs].action == action && str_eq(
                    quests[i].steps[cs].target_id.as_str(),
                    target_id,
                ) && !quests[i].steps[cs].completed;
                if hit {
                    quests[i].steps[cs].completed = true;
                    quests[i].current_step = cs + 1;
                    let done = quests[i].current_step >= quests[i].steps.len();
                    if done {
                        quests[i].completed = true;
                        player.quests_completed = player.quests_completed + 1;
                        let pts = quests[i].points;
                        player.add_points(pts);
                    }
                    assert(quests@[i as int].steps@ =~= qi.steps@.update(
                        cs as int,
                        QuestStep { completed: true, ..qi.steps@[cs as int] },
                    ));
                    let ghost before = progress@;
                    progress.push(QuestProgress { quest: i, finished: done });
                    proof {
                        assert forall|j: int|
                            0 <= j < i + 1 && advances(
                                #[trigger] q0[j],
                                action,
                                target_id@,
                            ) implies exists|k: int|
                            0 <= k < progress@.len() && #[trigger] progress@[k].quest == j by {
                            if j < i {
                                let k = choose|k: int|
                                    0 <= k < before.len() && #[trigger] before[k].quest == j;
                                assert(progress@[k] == before[k]);
                            } else {
                                assert(progress@[before.len() as int].quest == j);
                            }
                        }
                    }
                }
            }
        }
        i = i + 1;
    }
    assert(q0.take(n as int) =~= q0);
    progress
}

proof fn lemma_prefix_le(qs: Seq<Quest>, i: int, action: QuestAction, target: Seq<char>)
    requires
        0 <= i <= qs.len(),
    ensures
        points_completing(qs.take(i), action, target) <= points_completing(qs, action, target),
        count_completing(qs.take(i), action, target) <= count_completing(qs, action, target),
    decreases qs.len() - i,
{
    if i < qs.len() {
        lemma_prefix_le(qs, i + 1, action, target);
        assert(qs.take(i + 1).drop_last() =~= qs.take(i));
    } else {
        assert(qs.take(i) =~= qs);
    }
}

/// Whether the event completes quest `q`.
pub fn completes_now(q: &Quest, action: QuestAction, target: &str) -> (r: bool)
    ensures
        r == completes(*q, action, target@),
{
    if q.completed {
        return false;
    }
    let cs = q.current_step;
    if cs >= q.steps.len() {
        return false;
    }
    q.steps[cs].action == action && str_eq(q.steps[cs].target_id.as_str(), target)
        && !q.steps[cs].completed && cs + 1 >= q.steps.len()
}

proof fn lemma_count_completing_le(qs: Seq<Quest>, action: QuestAction, target: Seq<char>)
    ensures
        count_completing(qs, action, target) <= qs.len(),
    decreases qs.len(),
{
    if qs.len() > 0 {
        lemma_count_completing_le(qs.drop_last(), action, target);
    }
}

/// What the event awards: the points of the quests it completes, or one more
/// than the largest `u32` when they exceed it; and how many it completes.
pub fn event_awards(qs: &Vec<Quest>, action: QuestAction, target: &str) -> (r: (u64, usize))
    ensures
        r.0 == if points_completing(qs@, action, target@) <= u32::MAX {
            points_completing(qs@, action, target@) as int
        } else {
            u32::MAX as int + 1
        },
        r.1 == count_completing(qs@, action, target@),
{
    let mut acc: u64 = 0;
    let mut count: usize = 0;
    let mut over = false;
    let mut i: usize = 0;
    while i < qs.len()
        invariant
            i <= qs@.len(),
            count == count_completing(qs@.take(i as int), action, target@),
            count <= i,
            !over ==> acc == points_completing(qs@.take(i as int), action, target@) && acc
                <= u32::MAX,
            over ==> points_completing(qs@.take(i as int), action, target@) > u32::MAX && acc
                == u32::MAX + 1,
        decreases qs@.len() - i,
    {
        assert(qs@.take(i + 1).drop_last() =~= qs@.take(i as int));
        proof {
            lemma_prefix_le(qs@, i as int + 1, action, target@);
            lemma_count_completing_le(qs@.take(i + 1), action, target@);
        }
        if completes_now(&qs[i], action, target) {
            count = count + 1;
            if !over {
                acc = acc + qs[i].points as u64;
                if acc > u32::MAX as u64 {
                    over = true;
                    acc = u32::MAX as u64 + 1;
                }
            }
        }
        i = i + 1;
    }
    assert(qs@.take(qs@.len() as int) =~= qs@);
    (acc, count)
}

/// `a` and `b` hold the same quests, position by position.
pub open spec fn all_same(a: Seq<Quest>, b: Seq<Quest>) -> bool {
    &&& a.len() == b.len()
    &&& forall|i: int| 0 <= i < a.len() ==> (#[trigger] a[i]).same(&b[i])
}

/// `new` is `old` after the event, up to copies of unchanged quests.
pub open spec fn event_like(
    new: Seq<Quest>,
    old: Seq<Quest>,
    action: QuestAction,
    target: Seq<char>,
) -> bool {
    &&& new.len() == old.len()
    &&& forall|i: int|
        0 <= i < old.len() ==> if advances(#[trigger] old[i], action, target) {
            advanced(new[i], old[i])
        } else {
            new[i].same(&old[i])
        }
}

/// Quests that hold the same values are awarded alike by every event.
pub proof fn lemma_awards_same(a: Seq<Quest>, b: Seq<Quest>, action: QuestAction, target: Seq<char>)
    requires
        all_same(a, b),
    ensures
        points_completing(a, action, target) == points_completing(b, action, target),
        count_completing(a, action, target) == count_completing(b, action, target),
    decreases a.len(),
{
    if a.len() > 0 {
        let a1 = a.drop_last();
        let b1 = b.drop_last();
        assert forall|i: int| 0 <= i < a1.len() implies (#[trigger] a1[i]).same(&b1[i]) by {
            assert(a1[i] == a[i]);
            assert(b1[i] == b[i]);
        }
        lemma_awards_same(a1, b1, action, target);
        assert(a.last().same(&b.last()));
    }
}

/// An event's result, taken up to copies, is unique and carries over to
/// quests that hold the same values.
pub proof fn lemma_event_like(
    n1: Seq<Quest>,
    n2: Seq<Quest>,
    o1: Seq<Quest>,
    o2: Seq<Quest>,
    action: QuestAction,
    target: Seq<char>,
)
    requires
        event_like(n1, o1, action, target),
        all_same(o1, o2),
    ensures
        event_like(n1, o2, action, target),
        event_like(n2, o2, action, target) ==> all_same(n1, n2),
{
    assert forall|i: int| 0 <= i < o2.len() implies if advances(#[trigger] o2[i], action, target) {
        advanced(n1[i], o2[i])
    } else {
        n1[i].same(&o2[i])
    } by {
        assert(o1[i].same(&o2[i]));
        assert(advances(o1[i], action, target) == advances(o2[i], action, target));
    }
    if event_like(n2, o2, action, target) {
        assert forall|i: int| 0 <= i < n1.len() implies (#[trigger] n1[i]).same(&n2[i]) by {
            assert(o1[i].same(&o2[i]));
            assert(advances(o1[i], action, target) == advances(o2[i], action, target));
            if advances(o2[i], action, target) {
                assert(n1[i].steps@ =~= n2[i].steps@);
            }
        }
    }
}

/// An event applied is an event up to copies.
pub proof fn lemma_applied_like(
    new: Seq<Quest>,
    old: Seq<Quest>,
    action: QuestAction,
    target: Seq<char>,
)
    requires
        event_applied(new, old, action, target),
    ensures
        event_like(new, old, action, target),
{
    assert forall|i: int| 0 <= i < old.len() implies if advances(#[trigger] old[i], action, target) {
        advanced(new[i], old[i])
    } else {
        new[i].same(&old[i])
    } by {
        if !advances(old[i], action, target) {
            assert(new[i] == old[i]);
        }
    }
}

/// Starting from score `points`, completed count `done` and quests `qs`,
/// reading the lore with identifiers `ids` in turn keeps the score and the
/// count within `u32` at every event.
pub open spec fn reads_fit(points: int, done: int, qs: Seq<Quest>, ids: Seq<Seq<char>>) -> bool
    decreases ids.len(),
{
    if ids.len() == 0 {
        true
    } else {
        let p = points + points_completing(qs, QuestAction::ReadLore, ids[0]);
        let c = done + count_completing(qs, QuestAction::ReadLore, ids[0]);
        &&& p <= u32::MAX
        &&& c <= u32::MAX
        &&& forall|q2: Seq<Quest>|
            #[trigger] event_like(q2, qs, QuestAction::ReadLore, ids[0]) ==> reads_fit(
                p,
                c,
                q2,
                ids.drop_first(),
            )
    }
}

/// Whether the reads fit only depends on what the quests hold.
pub proof fn lemma_reads_fit_same(
    points: int,
    done: int,
    a: Seq<Quest>,
    b: Seq<Quest>,
    ids: Seq<Seq<char>>,
)
    requires
        all_same(a, b),
    ensures
        reads_fit(points, done, a, ids) == reads_fit(points, done, b, ids),
{
    if ids.len() > 0 {
        lemma_awards_same(a, b, QuestAction::ReadLore, ids[0]);
        assert forall|q2: Seq<Quest>| #[trigger]
            event_like(q2, a, QuestAction::ReadLore, ids[0]) implies event_like(
            q2,
            b,
            QuestAction::ReadLore,
            ids[0],
        ) by {
            lemma_event_like(q2, q2, a, b, QuestAction::ReadLore, ids[0]);
        }
        assert(all_same(b, a)) by {
            assert forall|i: int| 0 <= i < b.len() implies (#[trigger] b[i]).same(&a[i]) by {
                assert(a[i].same(&b[i]));
            }
        }
        assert forall|q2: Seq<Quest>| #[trigger]
            event_like(q2, b, QuestAction::ReadLore, ids[0]) implies event_like(
            q2,
            a,
            QuestAction::ReadLore,
            ids[0],
        ) by {
            lemma_event_like(q2, q2, b, a, QuestAction::ReadLore, ids[0]);
        }
    }
}

} // verus!
