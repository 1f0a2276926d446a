//! Scheduling for the background preloader: which images to decode next, in
//! which order and at which quality, and what to do with the results.
//!
//! The loop itself (sleeping, decoding in parallel) belongs to the caller;
//! each of its decisions is a function here: `plan_step` before decoding,
//! `commit_result` for each decoded image, `evict_far_images` at the end.
use vstd::prelude::*;

use crate::config::{keep_range_of, quality_for, ranges_for, rank, PreloadConfig, QualityTier};
use crate::slot::{ImageData, ImageSlot};
use crate::state::{Direction, SharedState};
use crate::store::{
    add_mod, circ_dist, circular_distance, far_evicted, inserted, room_made, sub_mod, ImageStore,
    MemoryBudget,
};
use std::path::PathBuf;
use std::sync::Arc;

verus! {

/// One image to decode.
#[derive(Debug, Clone, Copy, PartialEq, Eq, Structural)]
pub struct LoadTask {
    /// Index of the image.
    pub index: usize,
    /// Quality to decode it at.
    pub quality: QualityTier,
    /// Distance from the current image.
    pub distance: usize,
    /// Whether it lies in the predicted direction of travel.
    pub in_direction: bool,
}

/// Whether slot `i` of `s` lacks quality `q`.
pub open spec fn lacks(s: Seq<ImageSlot>, i: int, q: QualityTier) -> bool {
    !(s[i].quality_of() matches Some(h) && rank(h) >= rank(q))
}

/// The task for the image `offset` places ahead of `current`.
pub open spec fn ahead_task(c: PreloadConfig, current: int, total: int, direction: Direction, offset: int) -> LoadTask {
    LoadTask {
        index: ((current + offset) % total) as usize,
        quality: quality_for(c, offset),
        distance: offset as usize,
        in_direction: direction != Direction::Backward,
    }
}

/// The task for the image `offset` places behind `current`.
pub open spec fn behind_task(c: PreloadConfig, current: int, total: int, direction: Direction, offset: int) -> LoadTask {
    LoadTask {
        index: ((current - offset) % total) as usize,
        quality: quality_for(c, offset),
        distance: offset as usize,
        in_direction: direction != Direction::Forward,
    }
}

/// `t` as a one-task list when its slot lacks its quality; else empty.
pub open spec fn if_lacking(s: Seq<ImageSlot>, t: LoadTask) -> Seq<LoadTask> {
    if lacks(s, t.index as int, t.quality) {
        seq![t]
    } else {
        Seq::empty()
    }
}

/// Tasks for offsets `1..=n` ahead, nearest first, for slots that lack the
/// quality wanted at their distance.
pub open spec fn ahead_tasks(s: Seq<ImageSlot>, c: PreloadConfig, current: int, direction: Direction, n: nat) -> Seq<LoadTask>
    decreases n,
{
    if n == 0 {
        Seq::empty()
    } else {
        ahead_tasks(s, c, current, direction, (n - 1) as nat) + if_lacking(
            s,
            ahead_task(c, current, s.len() as int, direction, n as int),
        )
    }
}

/// Tasks for offsets `1..=n` behind, nearest first, as `ahead_tasks`.
pub open spec fn behind_tasks(s: Seq<ImageSlot>, c: PreloadConfig, current: int, direction: Direction, n: nat) -> Seq<LoadTask>
    decreases n,
{
    if n == 0 {
        Seq::empty()
    } else {
        behind_tasks(s, c, current, direction, (n - 1) as nat) + if_lacking(
            s,
            behind_task(c, current, s.len() as int, direction, n as int),
        )
    }
}

/// Tasks for offsets `1..=n` both ways, by distance, ahead before behind.
pub open spec fn both_ways_tasks(s: Seq<ImageSlot>, c: PreloadConfig, current: int, direction: Direction, n: nat) -> Seq<LoadTask>
    decreases n,
{
    if n == 0 {
        Seq::empty()
    } else {
        both_ways_tasks(s, c, current, direction, (n - 1) as nat) + if_lacking(
            s,
            ahead_task(c, current, s.len() as int, direction, n as int),
        ) + if_lacking(s, behind_task(c, current, s.len() as int, direction, n as int))
    }
}

/// The task for the current image, wanted at full quality.
pub open spec fn current_task(current: int) -> LoadTask {
    LoadTask { index: current as usize, quality: QualityTier::Full, distance: 0, in_direction: true }
}

/// The prioritized tasks for slots `s` around `current`.
///
/// The current image comes first when it lacks full quality. Then, for the
/// ranges of `direction`, each image ahead and behind whose slot lacks the
/// quality wanted at its distance: tasks in the direction of travel before
/// the others, higher quality first, nearer first, ahead before behind.
pub open spec fn prioritized_tasks(s: Seq<ImageSlot>, c: PreloadConfig, current: int, direction: Direction) -> Seq<LoadTask> {
    let (ahead, behind) = ranges_for(c, direction);
    if_lacking(s, current_task(current)) + match direction {
        Direction::Forward => ahead_tasks(s, c, current, direction, ahead as nat) + behind_tasks(
            s,
            c,
            current,
            direction,
            behind as nat,
        ),
        Direction::Backward => behind_tasks(s, c, current, direction, behind as nat) + ahead_tasks(
            s,
            c,
            current,
            direction,
            ahead as nat,
        ),
        Direction::Unknown => both_ways_tasks(s, c, current, direction, ahead as nat),
    }
}

/// Whether task `a` is strictly more urgent than task `b`: in the direction
/// of travel against not; else higher quality; else nearer.
pub open spec fn outranks(a: LoadTask, b: LoadTask) -> bool {
    (a.in_direction && !b.in_direction) || (a.in_direction == b.in_direction && (rank(a.quality) > rank(
        b.quality,
    ) || (rank(a.quality) == rank(b.quality) && a.distance < b.distance)))
}

/// Tasks `a` then `b` are in order: `a` in the direction of travel and `b`
/// not, or both alike and `a` no further away.
pub open spec fn in_order(a: LoadTask, b: LoadTask) -> bool {
    (a.in_direction && !b.in_direction) || (a.in_direction == b.in_direction && a.distance <= b.distance)
}

pub open spec fn ordered(t: Seq<LoadTask>) -> bool {
    forall|i: int, j: int| 0 <= i < j < t.len() ==> #[trigger] in_order(t[i], t[j])
}

/// Every task asks for the quality wanted at its distance.
pub open spec fn keyed(c: PreloadConfig, t: Seq<LoadTask>) -> bool {
    forall|k: int| 0 <= k < t.len() ==> (#[trigger] t[k]).quality == quality_for(c, t[k].distance as int)
}

proof fn lemma_quality_monotone(c: PreloadConfig, d1: int, d2: int)
    requires
        d1 <= d2,
    ensures
        rank(quality_for(c, d1)) >= rank(quality_for(c, d2)),
{
}

proof fn lemma_ordered_concat(x: Seq<LoadTask>, y: Seq<LoadTask>)
    requires
        ordered(x),
        ordered(y),
        forall|a: int, b: int| 0 <= a < x.len() && 0 <= b < y.len() ==> #[trigger] in_order(x[a], y[b]),
    ensures
        ordered(x + y),
{
    let z = x + y;
    assert forall|i: int, j: int| 0 <= i < j < z.len() implies #[trigger] in_order(z[i], z[j]) by {
        if j < x.len() {
            assert(in_order(x[i], x[j]));
        } else if i >= x.len() {
            assert(in_order(y[i - x.len()], y[j - x.len()]));
        } else {
            assert(in_order(x[i], y[j - x.len()]));
        }
    }
}

proof fn lemma_keyed_concat(c: PreloadConfig, x: Seq<LoadTask>, y: Seq<LoadTask>)
    requires
        keyed(c, x),
        keyed(c, y),
    ensures
        keyed(c, x + y),
{
    assert forall|k: int| 0 <= k < (x + y).len() implies (#[trigger] (x + y)[k]).quality == quality_for(
        c,
        (x + y)[k].distance as int,
    ) by {
        if k < x.len() {
            assert((x + y)[k] == x[k]);
        } else {
            assert((x + y)[k] == y[k - x.len()]);
        }
    }
}

/// The tasks of one side: ahead or behind.
pub open spec fn side_tasks(s: Seq<ImageSlot>, c: PreloadConfig, current: int, direction: Direction, n: nat, ahead: bool) -> Seq<LoadTask> {
    if ahead {
        ahead_tasks(s, c, current, direction, n)
    } else {
        behind_tasks(s, c, current, direction, n)
    }
}

/// Whether the tasks of one side lie in the direction of travel.
pub open spec fn side_in_direction(direction: Direction, ahead: bool) -> bool {
    if ahead {
        direction != Direction::Backward
    } else {
        direction != Direction::Forward
    }
}

/// One side's tasks: all alike in direction, nearest first, keyed, at
/// distances `1..=n`.
proof fn lemma_side_tasks(s: Seq<ImageSlot>, c: PreloadConfig, current: int, direction: Direction, n: nat, ahead: bool)
    requires
        n <= usize::MAX,
    ensures
        ordered(side_tasks(s, c, current, direction, n, ahead)),
        keyed(c, side_tasks(s, c, current, direction, n, ahead)),
        forall|k: int|
            0 <= k < side_tasks(s, c, current, direction, n, ahead).len() ==> (#[trigger] side_tasks(
                s,
                c,
                current,
                direction,
                n,
                ahead,
            )[k]).in_direction == side_in_direction(direction, ahead) && 1 <= side_tasks(
                s,
                c,
                current,
                direction,
                n,
                ahead,
            )[k].distance <= n,
    decreases n,
{
    if n > 0 {
        lemma_side_tasks(s, c, current, direction, (n - 1) as nat, ahead);
        let prev = side_tasks(s, c, current, direction, (n - 1) as nat, ahead);
        let task = if ahead {
            ahead_task(c, current, s.len() as int, direction, n as int)
        } else {
            behind_task(c, current, s.len() as int, direction, n as int)
        };
        let last = if_lacking(s, task);
        let in_dir = side_in_direction(direction, ahead);
        assert(ordered(last));
        assert forall|x: int, y: int| 0 <= x < prev.len() && 0 <= y < last.len() implies #[trigger] in_order(
            prev[x],
            last[y],
        ) by {
            assert(last[y] == task);
            assert(prev[x].in_direction == in_dir && prev[x].distance <= n - 1);
        }
        lemma_ordered_concat(prev, last);
        lemma_keyed_concat(c, prev, last);
        let t = prev + last;
        assert(t == side_tasks(s, c, current, direction, n, ahead));
        assert forall|k: int| 0 <= k < t.len() implies (#[trigger] t[k]).in_direction == in_dir && 1
            <= t[k].distance <= n by {
            if k < prev.len() {
                assert(t[k] == prev[k]);
            } else {
                assert(t[k] == last[k - prev.len()]);
            }
        }
    }
}

/// Both sides' tasks for an unknown direction: all in the direction of
/// travel, never further than a later one, keyed, at distances `1..=n`.
proof fn lemma_both_ways_tasks(s: Seq<ImageSlot>, c: PreloadConfig, current: int, n: nat)
    requires
        n <= usize::MAX,
    ensures
        ({
            let t = both_ways_tasks(s, c, current, Direction::Unknown, n);
            &&& ordered(t)
            &&& keyed(c, t)
            &&& forall|k: int| 0 <= k < t.len() ==> (#[trigger] t[k]).in_direction && 1 <= t[k].distance <= n
        }),
    decreases n,
{
    if n > 0 {
        let d = Direction::Unknown;
        lemma_both_ways_tasks(s, c, current, (n - 1) as nat);
        let prev = both_ways_tasks(s, c, current, d, (n - 1) as nat);
        let a = if_lacking(s, ahead_task(c, current, s.len() as int, d, n as int));
        let b = if_lacking(s, behind_task(c, current, s.len() as int, d, n as int));
        assert forall|x: int, y: int| 0 <= x < a.len() && 0 <= y < b.len() implies #[trigger] in_order(
            a[x],
            b[y],
        ) by {}
        lemma_ordered_concat(a, b);
        lemma_keyed_concat(c, a, b);
        let ab = a + b;
        assert forall|k: int| 0 <= k < ab.len() implies (#[trigger] ab[k]).in_direction && ab[k].distance
            == n by {
            if k < a.len() {
                assert(ab[k] == a[k]);
            } else {
                assert(ab[k] == b[k - a.len()]);
            }
        }
        assert forall|x: int, y: int| 0 <= x < prev.len() && 0 <= y < ab.len() implies #[trigger] in_order(
            prev[x],
            ab[y],
        ) by {
            assert(prev[x].in_direction && prev[x].distance <= n - 1);
        }
        lemma_ordered_concat(prev, a + b);
        lemma_keyed_concat(c, prev, a + b);
        assert(prev + a + b == prev + (a + b));
        let t = prev + (a + b);
        assert forall|k: int| 0 <= k < t.len() implies (#[trigger] t[k]).in_direction && 1 <= t[k].distance
            <= n by {
            if k < prev.len() {
                assert(t[k] == prev[k]);
            }
        }
    }
}

/// The prioritized tasks come in priority order: no task is outranked by a
/// later one (in the direction of travel first, then higher quality, then
/// nearer).
pub proof fn lemma_tasks_in_priority_order(s: Seq<ImageSlot>, c: PreloadConfig, current: int, direction: Direction)
    ensures
        ({
            let t = prioritized_tasks(s, c, current, direction);
            forall|i: int, j: int| 0 <= i < j < t.len() ==> !outranks(#[trigger] t[j], #[trigger] t[i])
        }),
{
    let (ahead, behind) = ranges_for(c, direction);
    let head = if_lacking(s, current_task(current));
    assert(ordered(head));
    assert(keyed(c, head));
    lemma_side_tasks(s, c, current, direction, ahead as nat, true);
    lemma_side_tasks(s, c, current, direction, behind as nat, false);
    let a = side_tasks(s, c, current, direction, ahead as nat, true);
    let b = side_tasks(s, c, current, direction, behind as nat, false);
    let rest = match direction {
        Direction::Forward => a + b,
        Direction::Backward => b + a,
        Direction::Unknown => both_ways_tasks(s, c, current, direction, ahead as nat),
    };
    match direction {
        Direction::Forward => {
            assert forall|x: int, y: int| 0 <= x < a.len() && 0 <= y < b.len() implies #[trigger] in_order(
                a[x],
                b[y],
            ) by {
                assert(a[x].in_direction && !b[y].in_direction);
            }
            lemma_ordered_concat(a, b);
            lemma_keyed_concat(c, a, b);
        },
        Direction::Backward => {
            assert forall|x: int, y: int| 0 <= x < b.len() && 0 <= y < a.len() implies #[trigger] in_order(
                b[x],
                a[y],
            ) by {
                assert(b[x].in_direction && !a[y].in_direction);
            }
            lemma_ordered_concat(b, a);
            lemma_keyed_concat(c, b, a);
        },
        Direction::Unknown => {
            lemma_both_ways_tasks(s, c, current, ahead as nat);
        },
    }
    assert forall|x: int, y: int| 0 <= x < head.len() && 0 <= y < rest.len() implies #[trigger] in_order(
        head[x],
        rest[y],
    ) by {
        match direction {
            Direction::Forward => {
                if y < a.len() {
                    assert(rest[y] == a[y]);
                } else {
                    assert(rest[y] == b[y - a.len()]);
                }
            },
            Direction::Backward => {
                if y < b.len() {
                    assert(rest[y] == b[y]);
                } else {
                    assert(rest[y] == a[y - b.len()]);
                }
            },
            Direction::Unknown => {},
        }
    }
    lemma_ordered_concat(head, rest);
    lemma_keyed_concat(c, head, rest);
    let t = head + rest;
    assert(t == prioritized_tasks(s, c, current, direction));
    assert forall|i: int, j: int| 0 <= i < j < t.len() implies !outranks(#[trigger] t[j], #[trigger] t[i]) by {
        assert(in_order(t[i], t[j]));
        if t[i].in_direction == t[j].in_direction {
            lemma_quality_monotone(c, t[i].distance as int, t[j].distance as int);
        }
    }
}

/// Appends the tasks for offsets `1..=range` on one side of `current`.
fn push_side(
    tasks: &mut Vec<LoadTask>,
    store: &ImageStore,
    current: usize,
    direction: Direction,
    config: &PreloadConfig,
    range: usize,
    ahead: bool,
)
    requires
        current < store@.len(),
    ensures
        final(tasks)@ == old(tasks)@ + if ahead {
            ahead_tasks(store@, *config, current as int, direction, range as nat)
        } else {
            behind_tasks(store@, *config, current as int, direction, range as nat)
        },
{
    let total = store.len();
    let ghost start = tasks@;
    let mut offset: usize = 0;
    while offset < range
        invariant
            offset <= range,
            total == store@.len(),
            current < total,
            tasks@ == start + if ahead {
                ahead_tasks(store@, *config, current as int, direction, offset as nat)
            } else {
                behind_tasks(store@, *config, current as int, direction, offset as nat)
            },
        decreases range - offset,
    {
        offset = offset + 1;
        let t = side_task(store, current, direction, config, offset, ahead);
        if !store.slot(t.index).has_quality(t.quality) {
            tasks.push(t);
        }
        proof {
            if ahead {
                assert(tasks@ =~= start + ahead_tasks(store@, *config, current as int, direction, offset as nat));
            } else {
                assert(tasks@ =~= start + behind_tasks(store@, *config, current as int, direction, offset as nat));
            }
        }
    }
}

/// The task for the image `offset` places ahead of (or behind) `current`.
fn side_task(
    store: &ImageStore,
    current: usize,
    direction: Direction,
    config: &PreloadConfig,
    offset: usize,
    ahead: bool,
) -> (r: LoadTask)
    requires
        current < store@.len(),
    ensures
        r == if ahead {
            ahead_task(*config, current as int, store@.len() as int, direction, offset as int)
        } else {
            behind_task(*config, current as int, store@.len() as int, direction, offset as int)
        },
        r.index < store@.len(),
{
    let total = store.len();
    let o = offset % total;
    let ghost ci = current as int;
    let ghost ti = total as int;
    proof {
        vstd::arithmetic::div_mod::lemma_small_mod(current as nat, total as nat);
    }
    let index = if ahead {
        let i = add_mod(current, o, total);
        proof {
            vstd::arithmetic::div_mod::lemma_add_mod_noop(ci, offset as int, ti);
        }
        i
    } else {
        let i = sub_mod(current, o, total);
        proof {
            vstd::arithmetic::div_mod::lemma_sub_mod_noop(ci, offset as int, ti);
        }
        i
    };
    let in_direction = if ahead {
        !matches!(direction, Direction::Backward)
    } else {
        !matches!(direction, Direction::Forward)
    };
    LoadTask { index, quality: config.quality_for_distance(offset), distance: offset, in_direction }
}

/// Builds the prioritized list of images to load around `current`.
pub fn build_prioritized_tasks(
    store: &ImageStore,
    current: usize,
    total: usize,
    direction: Direction,
    config: &PreloadConfig,
) -> (r: Vec<LoadTask>)
    requires
        total == store@.len(),
        current < total,
    ensures
        r@ == prioritized_tasks(store@, *config, current as int, direction),
{
    let mut tasks: Vec<LoadTask> = Vec::new();
    let (ahead_range, behind_range) = config.range_for_direction(direction);
    if !store.slot(current).has_quality(QualityTier::Full) {
        tasks.push(LoadTask { index: current, quality: QualityTier::Full, distance: 0, in_direction: true });
    }
    let ghost head = tasks@;
    assert(head =~= if_lacking(store@, current_task(current as int)));
    match direction {
        Direction::Forward => {
            push_side(&mut tasks, store, current, direction, config, ahead_range, true);
            push_side(&mut tasks, store, current, direction, config, behind_range, false);
        },
        Direction::Backward => {
            push_side(&mut tasks, store, current, direction, config, behind_range, false);
            push_side(&mut tasks, store, current, direction, config, ahead_range, true);
        },
        Direction::Unknown => {
            let mut offset: usize = 0;
            while offset < ahead_range
                invariant
                    offset <= ahead_range,
                    total == store@.len(),
                    current < total,
                    tasks@ == head + both_ways_tasks(store@, *config, current as int, direction, offset as nat),
                decreases ahead_range - offset,
            {
                offset = offset + 1;
                let a = side_task(store, current, direction, config, offset, true);
                if !store.slot(a.index).has_quality(a.quality) {
                    tasks.push(a);
                }
                let b = side_task(store, current, direction, config, offset, false);
                if !store.slot(b.index).has_quality(b.quality) {
                    tasks.push(b);
                }
                assert(tasks@ =~= head + both_ways_tasks(store@, *config, current as int, direction, offset as nat));
            }
        },
    }
    proof {
        let s = store@;
        let ci = current as int;
        match direction {
            Direction::Forward => {
                assert(tasks@ =~= prioritized_tasks(s, *config, ci, direction));
            },
            Direction::Backward => {
                assert(tasks@ =~= prioritized_tasks(s, *config, ci, direction));
            },
            Direction::Unknown => {
                assert(tasks@ =~= prioritized_tasks(s, *config, ci, direction));
            },
        }
    }
    tasks
}

/// Evicts the images further from `current` than the configured range.
pub fn evict_far_images(store: &mut ImageStore, current: usize, config: &PreloadConfig)
    requires
        old(store).wf(),
        old(store)@.len() == 0 || current < old(store)@.len(),
        keep_range_of(*config) <= usize::MAX,
    ensures
        final(store).wf(),
        exists|freed: usize|
            #[trigger] far_evicted(*old(store), *final(store), current, keep_range_of(*config) as usize, freed),
{
    let keep_range = config.total_range();
    let freed = store.evict_far(current, keep_range);
    assert(keep_range == keep_range_of(*config) as usize);
    assert(far_evicted(*old(store), *store, current, keep_range_of(*config) as usize, freed));
}

/// A store of empty slots, one per path, with unknown dimensions.
pub fn create_store_fast(paths: Vec<PathBuf>, budget: MemoryBudget) -> (r: ImageStore)
    ensures
        r@.len() == paths@.len(),
        forall|i: int|
            0 <= i < paths@.len() ==> {
                &&& (#[trigger] r@[i]).held() is None
                &&& r@[i].spec_generation() == 0
                &&& r@[i].meta_of().path == paths@[i]
                &&& r@[i].meta_of().original_width == 0
                &&& r@[i].meta_of().original_height == 0
            },
        r.spec_budget() == budget,
        r.wf(),
{
    ImageStore::new(paths, budget)
}

/// What the preloader does next.
pub enum PreloadAction {
    /// Shutdown was asked for: stop.
    Stop,
    /// Nothing to load: wait one idle interval.
    Idle,
    /// Decode these tasks, then commit the results.
    Decode(Vec<LoadTask>),
}

/// One preloader decision, from a single snapshot of the navigation state.
///
/// Stops on shutdown; idles when there are no images; otherwise builds the
/// prioritized tasks around the current image and, when there are none,
/// evicts far images and idles.
pub fn plan_step(store: &mut ImageStore, state: &SharedState, config: &PreloadConfig) -> (r: PreloadAction)
    requires
        old(store).wf(),
        old(store)@.len() == 0 || state.spec_current() < old(store)@.len(),
        keep_range_of(*config) <= usize::MAX,
    ensures
        final(store).wf(),
        state.spec_shutdown() ==> r is Stop,
        !state.spec_shutdown() && old(store)@.len() == 0 ==> r is Idle,
        r is Stop || old(store)@.len() == 0 ==> final(store)@ == old(store)@ && final(store).spec_budget()
            == old(store).spec_budget(),
        !state.spec_shutdown() && old(store)@.len() > 0 ==> {
            let tasks = prioritized_tasks(
                old(store)@,
                *config,
                state.spec_current() as int,
                state.spec_direction(),
            );
            &&& tasks.len() == 0 ==> r is Idle && exists|freed: usize|
                #[trigger] far_evicted(
                    *old(store),
                    *final(store),
                    state.spec_current(),
                    keep_range_of(*config) as usize,
                    freed,
                )
            &&& tasks.len() > 0 ==> (r matches PreloadAction::Decode(t) && t@ == tasks)
                && final(store)@ == old(store)@ && final(store).spec_budget()
                == old(store).spec_budget()
        },
{
    if state.is_shutdown() {
        return PreloadAction::Stop;
    }
    let total = store.len();
    if total == 0 {
        return PreloadAction::Idle;
    }
    let current = state.current();
    let direction = state.direction();
    let tasks = build_prioritized_tasks(store, current, total, direction, config);
    if tasks.len() == 0 {
        evict_far_images(store, current, config);
        return PreloadAction::Idle;
    }
    PreloadAction::Decode(tasks)
}

/// Commits one decoded image for slot `index`, with `current` the index shown
/// now: within the full-quality radius it first makes room for the image,
/// evicting from the far end, then inserts it. Returns whether it was installed.
pub fn commit_result(
    store: &mut ImageStore,
    index: usize,
    data: Arc<ImageData>,
    current: usize,
    config: &PreloadConfig,
) -> (r: bool)
    requires
        old(store).wf(),
        index < old(store)@.len(),
        current < old(store)@.len(),
    ensures
        final(store).wf(),
        circ_dist(index as int, current as int, old(store)@.len() as int) > config.full_quality_count
            ==> inserted(*old(store), *final(store), index, data, r),
        circ_dist(index as int, current as int, old(store)@.len() as int) <= config.full_quality_count
            ==> exists|mid: ImageStore, freed: usize|
            #[trigger] room_made(*old(store), mid, data.pixels@.len() as usize, current, freed)
                && inserted(mid, *final(store), index, data, r),
{
    let total = store.len();
    let dist = circular_distance(index, current, total);
    if dist <= config.full_quality_count {
        let freed = store.make_room(data.memory_size(), current);
        let ghost mid = *store;
        let r = store.insert(index, data);
        assert(room_made(*old(store), mid, data.pixels@.len() as usize, current, freed));
        r
    } else {
        store.insert(index, data)
    }
}

} // verus!
