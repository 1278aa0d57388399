use vstd::prelude::*;
use std::collections::VecDeque;

use crate::components::{Component, TerminalCollider, TerminalCollision, TerminalTransform};
use crate::engine_stats::{EngineStats, NUM_POLLED_SECONDS_FOR_FRAMERATE};
use crate::game::GameCommand;
use crate::game::GameCommandQueue;
use crate::query::{QueryResult, QueryResultList, first_kind_value, has_kind};
use crate::renderer::{transform_in, transform_of};
use crate::time::Timer;
use crate::ui_renderer::destroys;

verus! {

broadcast use vstd::std_specs::vecdeque::group_vec_dequeue_axioms;

/// The first `TerminalCollider` of a match.
#[verifier::opaque]
pub open spec fn collider_of<U>(r: QueryResult<U>) -> TerminalCollider {
    first_kind_value::<U, TerminalCollider>(r.components.components@)
}

/// The first `TerminalCollider` of a match that holds one.
fn collider_in<U>(m: &QueryResult<U>) -> (r: &TerminalCollider)
    requires
        has_kind::<U, TerminalCollider>(m.components.components@),
    ensures
        *r == collider_of(*m),
{
    reveal(collider_of);
    m.components().get::<TerminalCollider>()
}

/// Each match holds a collider and a transform.
pub open spec fn bodies_ok<U>(ms: Seq<QueryResult<U>>) -> bool {
    forall|i: int|
        0 <= i < ms.len() ==> has_kind::<U, TerminalCollider>(#[trigger] ms[i].components.components@) && has_kind::<
            U,
            TerminalTransform,
        >(ms[i].components.components@)
}

/// Bodies `i` and `j` are at the same position.
pub open spec fn same_place<U>(ms: Seq<QueryResult<U>>, i: int, j: int) -> bool {
    transform_of(ms[i]).coords == transform_of(ms[j]).coords
}

/// The earlier bodies among the first `upto` that are where body `j` is, in order, each paired
/// with `j`.
pub open spec fn pairs_with<U>(ms: Seq<QueryResult<U>>, j: int, upto: int) -> Seq<(int, int)>
    decreases upto,
{
    if upto <= 0 {
        Seq::empty()
    } else {
        let rest = pairs_with(ms, j, upto - 1);
        if same_place(ms, upto - 1, j) {
            rest.push((upto - 1, j))
        } else {
            rest
        }
    }
}

/// The colliding pairs among the first `upto` bodies: for each body in order, each earlier body
/// at the same position, in order.
pub open spec fn collision_pairs<U>(ms: Seq<QueryResult<U>>, upto: int) -> Seq<(int, int)>
    decreases upto,
{
    if upto <= 0 {
        Seq::empty()
    } else {
        collision_pairs(ms, upto - 1) + pairs_with(ms, upto - 1, upto - 1)
    }
}

/// `cmds` add, for each pair, an entity that holds just the collision of the two bodies.
pub open spec fn adds_collisions<U>(cmds: Seq<GameCommand<U>>, ms: Seq<QueryResult<U>>, pairs: Seq<(int, int)>) -> bool {
    &&& cmds.len() == pairs.len()
    &&& forall|k: int|
        0 <= k < cmds.len() ==> (#[trigger] cmds[k] matches GameCommand::AddEntity(v) && v@ == seq![
            Component::<U>::TerminalCollision(
                TerminalCollision {
                    bodies: [
                        (ms[pairs[k].0].entity, collider_of(ms[pairs[k].0])),
                        (ms[pairs[k].1].entity, collider_of(ms[pairs[k].1])),
                    ],
                },
            ),
        ])
}

/// The command that adds an entity holding the collision of two bodies.
fn collision_command<U>(a: &QueryResult<U>, b: &QueryResult<U>) -> (r: GameCommand<U>)
    requires
        has_kind::<U, TerminalCollider>(a.components.components@),
        has_kind::<U, TerminalCollider>(b.components.components@),
    ensures
        r matches GameCommand::AddEntity(v) && v@ == seq![
            Component::<U>::TerminalCollision(
                TerminalCollision { bodies: [(a.entity, collider_of(*a)), (b.entity, collider_of(*b))] },
            ),
        ],
{
    let ca = collider_in(a);
    let cb = collider_in(b);
    let mut v: Vec<Component<U>> = Vec::new();
    v.push(Component::TerminalCollision(TerminalCollision { bodies: [(a.entity, *ca), (b.entity, *cb)] }));
    GameCommand::AddEntity(v)
}

/// The collision detection system: in the results of its first query (active colliders with
/// transforms), for each body in order and each earlier body at the same position, it issues a
/// command to add an entity holding their collision, the earlier body first.
pub fn detect_collisions<U>(results: &Vec<QueryResultList<U>>, commands: &mut GameCommandQueue<U>)
    requires
        results@.len() > 0 ==> bodies_ok(results@[0].matches@),
    ensures
        results@.len() == 0 ==> final(commands).commands() == old(commands).commands(),
        results@.len() > 0 ==> {
            let n = old(commands).commands().len();
            &&& final(commands).commands().len() >= n
            &&& final(commands).commands().take(n as int) == old(commands).commands()
            &&& adds_collisions(
                final(commands).commands().skip(n as int),
                results@[0].matches@,
                collision_pairs(results@[0].matches@, results@[0].matches@.len() as int),
            )
        },
{
    if results.len() == 0 {
        return;
    }
    let bodies = results[0].matches();
    let ghost ms = bodies@;
    let ghost base = commands.commands();
    let mut j: usize = 0;
    while j < bodies.len()
        invariant
            j <= ms.len(),
            bodies@ == ms,
            bodies_ok(ms),
            commands.commands().len() >= base.len(),
            commands.commands().take(base.len() as int) == base,
            adds_collisions(commands.commands().skip(base.len() as int), ms, collision_pairs(ms, j as int)),
        decreases ms.len() - j,
    {
        let ghost before_j = commands.commands();
        let coords_j = transform_in(&bodies[j]).coords;
        let mut i: usize = 0;
        while i < j
            invariant
                i <= j < ms.len(),
                bodies@ == ms,
                bodies_ok(ms),
                coords_j == transform_of(ms[j as int]).coords,
                before_j.len() >= base.len(),
                before_j.take(base.len() as int) == base,
                adds_collisions(before_j.skip(base.len() as int), ms, collision_pairs(ms, j as int)),
                commands.commands().len() >= before_j.len(),
                commands.commands().take(before_j.len() as int) == before_j,
                adds_collisions(commands.commands().skip(before_j.len() as int), ms, pairs_with(ms, j as int, i as int)),
            decreases j - i,
        {
            let coords_i = transform_in(&bodies[i]).coords;
            if coords_i == coords_j {
                let cmd = collision_command(&bodies[i], &bodies[j]);
                let ghost prev = commands.commands();
                commands.issue(cmd);
                proof {
                    let now = commands.commands();
                    let p = pairs_with(ms, j as int, i as int);
                    assert(pairs_with(ms, j as int, i + 1) == p.push((i as int, j as int)));
                    assert(now.take(before_j.len() as int) =~= before_j);
                    assert(now.skip(before_j.len() as int) =~= prev.skip(before_j.len() as int).push(cmd));
                }
            } else {
                proof {
                    assert(pairs_with(ms, j as int, i + 1) == pairs_with(ms, j as int, i as int));
                }
            }
            i += 1;
        }
        proof {
            let now = commands.commands();
            let a = before_j.skip(base.len() as int);
            let b = now.skip(before_j.len() as int);
            assert(now.skip(base.len() as int) =~= a + b);
            assert(now.take(base.len() as int) =~= base);
            assert(collision_pairs(ms, j + 1) == collision_pairs(ms, j as int) + pairs_with(ms, j as int, j as int));
            let pa = collision_pairs(ms, j as int);
            let pb = pairs_with(ms, j as int, j as int);
            assert forall|k: int| 0 <= k < (a + b).len() implies (#[trigger] (a + b)[k] matches GameCommand::AddEntity(v)
                && v@ == seq![
                Component::<U>::TerminalCollision(
                    TerminalCollision {
                        bodies: [
                            (ms[(pa + pb)[k].0].entity, collider_of(ms[(pa + pb)[k].0])),
                            (ms[(pa + pb)[k].1].entity, collider_of(ms[(pa + pb)[k].1])),
                        ],
                    },
                ),
            ]) by {
                if k < a.len() {
                    assert((a + b)[k] == a[k] && (pa + pb)[k] == pa[k]);
                } else {
                    assert((a + b)[k] == b[k - a.len()] && (pa + pb)[k] == pb[k - a.len()]);
                }
            }
        }
        j += 1;
    }
    proof {
        assert(ms.len() == results@[0].matches@.len());
    }
}

/// The collision cleanup system: destroys the entity of each collision in the results of its
/// first query.
pub fn cleanup_collisions<U>(results: &Vec<QueryResultList<U>>, commands: &mut GameCommandQueue<U>)
    ensures
        results@.len() == 0 ==> final(commands).commands() == old(commands).commands(),
        results@.len() > 0 ==> final(commands).commands() == old(commands).commands() + destroys(
            results@[0].matches@,
        ),
{
    if results.len() > 0 {
        crate::ui_renderer::wipe_existing_text(&results[0], commands);
    }
}

/// The sum of the values.
pub open spec fn sum_of(s: Seq<u64>) -> int
    decreases s.len(),
{
    if s.len() == 0 {
        0
    } else {
        sum_of(s.drop_last()) + s.last()
    }
}

/// The frame counts kept after a second with `count` frames: the newest counts, at most the
/// number of seconds polled, ending with `count`.
pub open spec fn counts_after(counts: Seq<u64>, count: u64) -> Seq<u64> {
    let keep = NUM_POLLED_SECONDS_FOR_FRAMERATE - 1;
    if counts.len() > keep {
        counts.skip(counts.len() - keep).push(count)
    } else {
        counts.push(count)
    }
}

/// The stats can take one more frame without an overflow: the frame counter can grow, and the
/// counts it leads to can be summed.
pub open spec fn can_record_frame(stats: EngineStats, second_passed: bool) -> bool {
    if second_passed {
        sum_of(counts_after(stats.frame_counts@, stats.frame_counter)) <= u64::MAX
    } else {
        &&& stats.frame_counter < u64::MAX
        &&& sum_of(stats.frame_counts@) <= u64::MAX
    }
}

/// The sum of the values, which fits in a `u64`.
fn sum_counts(counts: &VecDeque<u64>) -> (r: u64)
    requires
        sum_of(counts@) <= u64::MAX,
    ensures
        r == sum_of(counts@),
{
    let mut total: u64 = 0;
    let mut i: usize = 0;
    while i < counts.len()
        invariant
            i <= counts@.len(),
            sum_of(counts@) <= u64::MAX,
            total == sum_of(counts@.take(i as int)),
        decreases counts@.len() - i,
    {
        proof {
            assert(counts@.take(i + 1).drop_last() =~= counts@.take(i as int));
            lemma_sum_prefix(counts@, i + 1);
        }
        total = total + counts[i];
        i += 1;
    }
    proof {
        assert(counts@.take(counts@.len() as int) =~= counts@);
    }
    total
}

/// A prefix sums to no more than the whole.
proof fn lemma_sum_prefix(s: Seq<u64>, k: int)
    requires
        0 <= k <= s.len(),
    ensures
        sum_of(s.take(k)) <= sum_of(s),
    decreases s.len() - k,
{
    if k < s.len() {
        lemma_sum_prefix(s, k + 1);
        assert(s.take(k + 1).drop_last() =~= s.take(k));
    } else {
        assert(s.take(k) =~= s);
    }
}

/// Counts a frame. When a second has passed since the last count, the frame counter is added to
/// the counts (dropping the oldest beyond the number of seconds polled) and starts over. The frame
/// rate becomes the average of the counts, or 0 while there are none.
pub fn advance_frame_stats(stats: &mut EngineStats, second_passed: bool)
    requires
        can_record_frame(*old(stats), second_passed),
    ensures
        final(stats).frame_counts@ == (if second_passed {
            counts_after(old(stats).frame_counts@, old(stats).frame_counter)
        } else {
            old(stats).frame_counts@
        }),
        final(stats).frame_counter == (if second_passed {
            1
        } else {
            old(stats).frame_counter + 1
        }),
        final(stats).fps == (if final(stats).frame_counts@.len() > 0 {
            sum_of(final(stats).frame_counts@) / (final(stats).frame_counts@.len() as int)
        } else {
            0
        }),
        final(stats).frame_timer == old(stats).frame_timer,
{
    if second_passed {
        let ghost old_counts = stats.frame_counts@;
        while stats.frame_counts.len() >= NUM_POLLED_SECONDS_FOR_FRAMERATE as usize
            invariant
                old_counts.len() >= stats.frame_counts@.len(),
                stats.frame_counts@ == old_counts.skip(old_counts.len() - stats.frame_counts@.len()),
                stats.frame_counts@.len() >= NUM_POLLED_SECONDS_FOR_FRAMERATE - 1 || stats.frame_counts@ == old_counts,
                old_counts == old(stats).frame_counts@,
                stats.frame_counter == old(stats).frame_counter,
                stats.frame_timer == old(stats).frame_timer,
                can_record_frame(*old(stats), second_passed),
                second_passed,
            decreases stats.frame_counts@.len(),
        {
            let ghost before = stats.frame_counts@;
            stats.frame_counts.pop_front();
            proof {
                assert(stats.frame_counts@ =~= old_counts.skip(old_counts.len() - stats.frame_counts@.len()));
            }
        }
        proof {
            if old_counts.len() <= NUM_POLLED_SECONDS_FOR_FRAMERATE - 1 {
                assert(old_counts.skip(0) =~= old_counts);
                assert(stats.frame_counts@ == old_counts);
            } else {
                assert(stats.frame_counts@.len() == NUM_POLLED_SECONDS_FOR_FRAMERATE - 1);
            }
        }
        let count = stats.frame_counter;
        stats.frame_counts.push_back(count);
        stats.frame_counter = 0;
        proof {
            assert(stats.frame_counts@ == counts_after(old_counts, count));
        }
    }
    stats.frame_counter = stats.frame_counter + 1;
    stats.fps = if stats.frame_counts.len() > 0 {
        sum_counts(&stats.frame_counts) / (stats.frame_counts.len() as u64)
    } else {
        0
    };
}

/// `after` is `before` with one more frame counted, as `advance_frame_stats` counts it for
/// `second_passed`; unless a second has passed, a running timer is left as it was.
pub open spec fn frame_recorded(before: EngineStats, after: EngineStats, second_passed: bool) -> bool {
    &&& after.frame_counts@ == (if second_passed {
        counts_after(before.frame_counts@, before.frame_counter)
    } else {
        before.frame_counts@
    })
    &&& after.frame_counter == (if second_passed {
        1
    } else {
        before.frame_counter + 1
    })
    &&& after.fps == (if after.frame_counts@.len() > 0 {
        sum_of(after.frame_counts@) / (after.frame_counts@.len() as int)
    } else {
        0
    })
    &&& !second_passed && before.frame_timer.spec_is_running() ==> after.frame_timer == before.frame_timer
}

/// Whether the counts from position `from` on sum to at most `limit`.
fn sum_within(counts: &VecDeque<u64>, from: usize, limit: u64) -> (r: bool)
    requires
        from <= counts@.len(),
    ensures
        r == (sum_of(counts@.skip(from as int)) <= limit),
{
    let ghost t = counts@.skip(from as int);
    let mut total: u64 = 0;
    let mut i: usize = from;
    while i < counts.len()
        invariant
            from <= i <= counts@.len(),
            t == counts@.skip(from as int),
            total == sum_of(t.take(i - from)),
            total <= limit,
        decreases counts@.len() - i,
    {
        let x = counts[i];
        proof {
            assert(t.take(i - from + 1).drop_last() =~= t.take(i - from));
            assert(t.take(i - from + 1).last() == x);
        }
        if x > limit - total {
            proof {
                lemma_sum_prefix(t, i - from + 1);
            }
            return false;
        }
        total = total + x;
        i += 1;
    }
    proof {
        assert(t.take(i - from) =~= t);
    }
    true
}

/// Whether the stats can count one more frame without an overflow, whether or not a second has
/// passed (see `can_record_frame`).
pub fn can_count_frame(stats: &EngineStats) -> (r: bool)
    ensures
        r == (can_record_frame(*stats, true) && can_record_frame(*stats, false)),
{
    if stats.frame_counter == u64::MAX {
        return false;
    }
    let n = stats.frame_counts.len();
    let keep: usize = (NUM_POLLED_SECONDS_FOR_FRAMERATE - 1) as usize;
    let from: usize = if n > keep {
        n - keep
    } else {
        0
    };
    proof {
        let c = stats.frame_counts@;
        assert(c.skip(0) =~= c);
        let k = counts_after(c, stats.frame_counter);
        assert(k.drop_last() =~= c.skip(from as int));
    }
    sum_within(&stats.frame_counts, 0, u64::MAX) && sum_within(&stats.frame_counts, from, u64::MAX - stats.frame_counter)
}

/// Counts a frame for a frame timer that reads `elapsed_millis`. Once the timer has run for a
/// whole second (1000 ms), it restarts and the frame counter becomes the newest count (see
/// `advance_frame_stats`); before that the frame only adds to the frame counter.
pub fn record_frame_at(stats: &mut EngineStats, elapsed_millis: u128)
    requires
        can_record_frame(*old(stats), true),
        can_record_frame(*old(stats), false),
    ensures
        frame_recorded(*old(stats), *final(stats), elapsed_millis >= 1000),
        elapsed_millis < 1000 ==> final(stats).frame_timer == old(stats).frame_timer,
        elapsed_millis >= 1000 ==> final(stats).frame_timer.spec_is_running(),
        elapsed_millis >= 1000 ==> final(stats).frame_timer.is_restart_of(old(stats).frame_timer),
{
    let second_passed = elapsed_millis >= 1000;
    if second_passed {
        stats.frame_timer.restart();
    }
    advance_frame_stats(stats, second_passed);
}

/// The engine stats system: starts the frame timer on the first frame, then counts the frame
/// for the time the timer reads (see `record_frame_at`). That reading comes from the clock;
/// whichever way it went, the stats are recorded for it (`frame_recorded`).
pub fn record_frame(stats: &mut EngineStats)
    requires
        can_record_frame(*old(stats), true),
        can_record_frame(*old(stats), false),
    ensures
        final(stats).frame_timer.spec_is_running(),
        exists|second_passed: bool| #[trigger] frame_recorded(*old(stats), *final(stats), second_passed),
{
    if !stats.frame_timer.is_running() {
        stats.frame_timer.start();
    }
    let elapsed = stats.frame_timer.elapsed_millis();
    record_frame_at(stats, elapsed);
    proof {
        assert(frame_recorded(*old(stats), *stats, elapsed >= 1000));
    }
}

/// Fresh engine stats: no frames counted and the frame timer stopped.
pub fn new_engine_stats() -> (r: EngineStats)
    ensures
        r.fps == 0,
        r.frame_counter == 0,
        r.frame_counts@ == Seq::<u64>::empty(),
        !r.frame_timer.spec_is_running(),
{
    EngineStats { fps: 0, frame_timer: Timer::new(), frame_counter: 0, frame_counts: VecDeque::new() }
}

} // verus!

verus! {

/// The frame rate is averaged over at most the number of seconds polled: however many counts
/// there were, a new count leaves at most that many, the newest last.
pub proof fn lemma_counts_stay_bounded(counts: Seq<u64>, count: u64)
    ensures
        counts_after(counts, count).len() <= NUM_POLLED_SECONDS_FOR_FRAMERATE,
        counts_after(counts, count).last() == count,
        counts.len() < NUM_POLLED_SECONDS_FOR_FRAMERATE ==> counts_after(counts, count) == counts.push(count),
{
}

/// A frame count is taken only once the frame timer has run for a whole second. Below 1000 ms
/// the frame only adds to the frame counter and the counts stay as they were; from 1000 ms on,
/// the frame counter becomes the newest count and counting starts over with this frame.
pub proof fn lemma_count_taken_once_a_second(before: EngineStats, after: EngineStats, elapsed_millis: u128)
    requires
        frame_recorded(before, after, elapsed_millis >= 1000),
    ensures
        elapsed_millis < 1000 ==> after.frame_counts@ == before.frame_counts@,
        elapsed_millis < 1000 ==> after.frame_counter == before.frame_counter + 1,
        elapsed_millis >= 1000 ==> after.frame_counts@.len() > 0,
        elapsed_millis >= 1000 ==> after.frame_counts@.last() == before.frame_counter,
        elapsed_millis >= 1000 ==> after.frame_counter == 1,
        elapsed_millis >= 1000 && before.frame_counts@.len() < NUM_POLLED_SECONDS_FOR_FRAMERATE
            ==> after.frame_counts@ == before.frame_counts@.push(before.frame_counter),
{
    lemma_counts_stay_bounded(before.frame_counts@, before.frame_counter);
}

/// Counts that are all the same sum to that count times their number.
proof fn lemma_sum_of_steady(s: Seq<u64>, c: u64)
    requires
        forall|i: int| 0 <= i < s.len() ==> s[i] == c,
    ensures
        sum_of(s) == s.len() * c,
    decreases s.len(),
{
    if s.len() > 0 {
        lemma_sum_of_steady(s.drop_last(), c);
        assert(s.len() * c == (s.len() - 1) * c + c) by (nonlinear_arith);
    }
}

/// A steady frame rate is reported as it is: when every second kept counted the same number of
/// frames, the frame rate is that number.
pub proof fn lemma_steady_frame_rate(before: EngineStats, after: EngineStats, second_passed: bool, c: u64)
    requires
        frame_recorded(before, after, second_passed),
        after.frame_counts@.len() > 0,
        forall|i: int| 0 <= i < after.frame_counts@.len() ==> after.frame_counts@[i] == c,
    ensures
        after.fps == c,
{
    let s = after.frame_counts@;
    lemma_sum_of_steady(s, c);
    let n = s.len() as int;
    assert((n * c) / n == c) by (nonlinear_arith)
        requires
            n > 0,
    ;
}

/// Each body is paired with every earlier body at its position and with no other: a pair of
/// bodies collides exactly when they are at the same position, the earlier one first.
pub proof fn lemma_collision_pairs_exact<U>(ms: Seq<QueryResult<U>>, upto: int)
    requires
        0 <= upto <= ms.len(),
    ensures
        forall|i: int, j: int|
            0 <= i < j < upto ==> (collision_pairs(ms, upto).contains((i, j)) <==> same_place(ms, i, j)),
        forall|k: int|
            0 <= k < collision_pairs(ms, upto).len() ==> #[trigger] collision_pairs(ms, upto)[k].0 < collision_pairs(
                ms,
                upto,
            )[k].1 < upto,
    decreases upto,
{
    if upto > 0 {
        lemma_collision_pairs_exact(ms, upto - 1);
        lemma_pairs_with_exact(ms, upto - 1, upto - 1);
        let a = collision_pairs(ms, upto - 1);
        let b = pairs_with(ms, upto - 1, upto - 1);
        assert(collision_pairs(ms, upto) == a + b);
        assert forall|i: int, j: int| 0 <= i < j < upto implies (collision_pairs(ms, upto).contains((i, j))
            <==> same_place(ms, i, j)) by {
            if (a + b).contains((i, j)) {
                let k = choose|k: int| 0 <= k < (a + b).len() && (a + b)[k] == (i, j);
                if k < a.len() {
                    assert(a[k] == (i, j));
                    assert(a.contains((i, j)));
                } else {
                    assert(b[k - a.len()] == (i, j));
                    assert(b.contains((i, j)));
                }
            }
            if same_place(ms, i, j) {
                if j < upto - 1 {
                    assert(a.contains((i, j)));
                    let k = choose|k: int| 0 <= k < a.len() && a[k] == (i, j);
                    assert((a + b)[k] == (i, j));
                } else {
                    assert(b.contains((i, j)));
                    let k = choose|k: int| 0 <= k < b.len() && b[k] == (i, j);
                    assert((a + b)[a.len() + k] == (i, j));
                }
            }
        }
        assert forall|k: int| 0 <= k < (a + b).len() implies #[trigger] (a + b)[k].0 < (a + b)[k].1 < upto by {
            if k < a.len() {
                assert((a + b)[k] == a[k]);
            } else {
                assert((a + b)[k] == b[k - a.len()]);
            }
        }
    }
}

proof fn lemma_pairs_with_exact<U>(ms: Seq<QueryResult<U>>, j: int, upto: int)
    requires
        0 <= upto <= j,
    ensures
        forall|i: int| 0 <= i < upto ==> (pairs_with(ms, j, upto).contains((i, j)) <==> same_place(ms, i, j)),
        forall|k: int|
            0 <= k < pairs_with(ms, j, upto).len() ==> (#[trigger] pairs_with(ms, j, upto)[k]).1 == j
                && 0 <= pairs_with(ms, j, upto)[k].0 < upto,
    decreases upto,
{
    if upto > 0 {
        lemma_pairs_with_exact(ms, j, upto - 1);
        let p = pairs_with(ms, j, upto - 1);
        assert forall|i: int| 0 <= i < upto implies (pairs_with(ms, j, upto).contains((i, j)) <==> same_place(
            ms,
            i,
            j,
        )) by {
            if same_place(ms, upto - 1, j) {
                assert(pairs_with(ms, j, upto) == p.push((upto - 1, j)));
                if i == upto - 1 {
                    assert(p.push((upto - 1, j))[p.len() as int] == (i, j));
                } else {
                    if p.contains((i, j)) {
                        let k = choose|k: int| 0 <= k < p.len() && p[k] == (i, j);
                        assert(p.push((upto - 1, j))[k] == (i, j));
                    }
                    let q = p.push((upto - 1, j));
                    if q.contains((i, j)) {
                        let k = choose|k: int| 0 <= k < q.len() && q[k] == (i, j);
                        if k < p.len() {
                            assert(p[k] == (i, j));
                        }
                    }
                }
            } else {
                if i == upto - 1 {
                    if p.contains((i, j)) {
                        let k = choose|k: int| 0 <= k < p.len() && p[k] == (i, j);
                        assert(p[k].0 < upto - 1);
                    }
                }
            }
        }
    }
}

} // verus!
